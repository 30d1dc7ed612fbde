//! What the clients of one broker share: the attached clients, the pseudo-terminal, and the
//! most recent output.

use std::collections::VecDeque;
use vstd::prelude::*;
use crate::escape::TerminalQuery;
use crate::terminal::Terminal;
use crate::terminal::query_reply;

verus! {

/// The number of output bytes that are kept for clients that attach later.
pub const RING_LIMIT: usize = 1024 * 1024;

/// The size of a terminal that no client has sized yet.
pub const INITIAL_COLS: u16 = 120;

pub const INITIAL_ROWS: u16 = 30;

/// `ESC [ 2 J ESC [ H`: clears the screen and moves the cursor home.
pub const CLEAR_SCREEN: [u8; 7] = [0x1b, 0x5b, 0x32, 0x4a, 0x1b, 0x5b, 0x48];

/// What the broker tells a client.
#[derive(Debug)]
pub enum ServerMessage {
    Output(Vec<u8>),
    Exit(i32),
}

/// The contents of a `ServerMessage`.
#[verifier::ext_equal]
pub enum Delivery {
    Output(Seq<u8>),
    Exit(i32),
}

impl View for ServerMessage {
    type V = Delivery;

    open spec fn view(&self) -> Delivery {
        match self {
            ServerMessage::Output(chunk) => Delivery::Output(chunk@),
            ServerMessage::Exit(code) => Delivery::Exit(*code),
        }
    }
}

/// An attached client, and the messages that wait to be sent to it.
#[derive(Debug)]
pub struct ClientSink {
    pub id: u64,
    pub queue: Vec<ServerMessage>,
}

/// The contents of a `ClientSink`.
#[verifier::ext_equal]
pub struct Sink {
    pub id: u64,
    pub queue: Seq<Delivery>,
}

impl View for ClientSink {
    type V = Sink;

    open spec fn view(&self) -> Sink {
        Sink { id: self.id, queue: Seq::new(self.queue@.len(), |i: int| self.queue@[i]@) }
    }
}

/// The state of a broker.
#[derive(Debug)]
pub struct Shared {
    pub clients: Vec<ClientSink>,
    /// Whether there is a pseudo-terminal to write to.
    pub pty_open: bool,
    /// The bytes that wait to be written to the pseudo-terminal.
    pub pty_input: Vec<u8>,
    pub ring: VecDeque<u8>,
    pub exit_code: Option<i32>,
    pub oom_detected: bool,
    pub next_client_id: u64,
    pub terminal: Terminal,
}

/// The contents of a `Shared`.
#[verifier::ext_equal]
pub struct State {
    pub clients: Seq<Sink>,
    pub pty_open: bool,
    pub pty_input: Seq<u8>,
    pub ring: Seq<u8>,
    pub exit_code: Option<i32>,
    pub oom_detected: bool,
    pub next_client_id: u64,
    pub terminal: Terminal,
}

impl View for Shared {
    type V = State;

    open spec fn view(&self) -> State {
        State {
            clients: Seq::new(self.clients@.len(), |i: int| self.clients@[i]@),
            pty_open: self.pty_open,
            pty_input: self.pty_input@,
            ring: self.ring@,
            exit_code: self.exit_code,
            oom_detected: self.oom_detected,
            next_client_id: self.next_client_id,
            terminal: self.terminal,
        }
    }
}

/// The last `n` bytes of `s`, or all of them where there are no more.
pub open spec fn keep_last(s: Seq<u8>, n: int) -> Seq<u8> {
    if s.len() <= n {
        s
    } else {
        s.skip(s.len() - n)
    }
}

/// The clients with one more message in each of their queues.
pub open spec fn delivered(clients: Seq<Sink>, message: Delivery) -> Seq<Sink> {
    clients.map_values(|client: Sink| Sink { queue: client.queue.push(message), ..client })
}

/// The clients but for those with the number `id`, in their order.
pub open spec fn without(clients: Seq<Sink>, id: u64) -> Seq<Sink> {
    clients.filter(|client: Sink| client.id != id)
}

/// The clients but for those with a number in `gone`, in their order.
pub open spec fn reachable(clients: Seq<Sink>, gone: Seq<u64>) -> Seq<Sink> {
    clients.filter(|client: Sink| !gone.contains(client.id))
}

impl State {
    /// The state of a broker that has just started.
    pub open spec fn initial() -> State {
        State {
            clients: Seq::empty(),
            pty_open: false,
            pty_input: Seq::empty(),
            ring: Seq::empty(),
            exit_code: None,
            oom_detected: false,
            next_client_id: 1,
            terminal: Terminal {
                cols: INITIAL_COLS,
                rows: INITIAL_ROWS,
                cursor_col: 1,
                cursor_row: 1,
            },
        }
    }

    /// The state after `chunk` has been remembered for later clients.
    pub open spec fn remembered(self, chunk: Seq<u8>) -> State {
        State { ring: keep_last(self.ring + chunk, RING_LIMIT as int), ..self }
    }

    /// The state after `chunk` has been sent to all clients.
    pub open spec fn sent(self, chunk: Seq<u8>) -> State {
        State { clients: delivered(self.clients, Delivery::Output(chunk)), ..self }
    }

    /// The state after all clients have been told that the program exited.
    pub open spec fn told_exit(self, code: i32) -> State {
        State { clients: delivered(self.clients, Delivery::Exit(code)), ..self }
    }

    /// The state after `chunk` has been remembered and sent to all clients.
    pub open spec fn published(self, chunk: Seq<u8>) -> State {
        self.remembered(chunk).sent(chunk)
    }

    /// The state after `bytes` have been written to the pseudo-terminal, if there is one.
    pub open spec fn typed(self, bytes: Seq<u8>) -> State {
        if self.pty_open {
            State { pty_input: self.pty_input + bytes, ..self }
        } else {
            self
        }
    }

    /// What a client gets when it attaches: a clear screen, the most recent output, and the
    /// exit code where the program has exited.
    pub open spec fn greeting(self) -> Seq<Delivery> {
        let screen = Delivery::Output(CLEAR_SCREEN@ + self.ring);
        match self.exit_code {
            Some(code) => seq![screen, Delivery::Exit(code)],
            None => seq![screen],
        }
    }

    /// The state after one more client has attached.
    pub open spec fn attached(self) -> State {
        State {
            clients: self.clients.push(Sink { id: self.next_client_id, queue: self.greeting() }),
            next_client_id: if self.next_client_id == u64::MAX {
                0
            } else {
                (self.next_client_id + 1) as u64
            },
            ..self
        }
    }

    /// Whether each client has a number of its own that has been given out, no more output is
    /// remembered than the limit, and the cursor is on the screen. This holds until all numbers
    /// have been given out once.
    pub open spec fn well_formed(self) -> bool {
        &&& self.ring.len() <= RING_LIMIT
        &&& self.terminal.on_screen()
        &&& forall|i: int| 0 <= i < self.clients.len() ==> (#[trigger] self.clients[i]).id
            < self.next_client_id
        &&& forall|i: int, j: int|
            0 <= i < j < self.clients.len() ==> (#[trigger] self.clients[i]).id != (
            #[trigger] self.clients[j]).id
    }

    /// The state after the client `id` has left.
    pub open spec fn detached(self, id: u64) -> State {
        State { clients: without(self.clients, id), ..self }
    }
}

impl Shared {
    /// A broker that has no client and no pseudo-terminal yet.
    pub fn new() -> (r: Shared)
        ensures
            r@ == State::initial(),
    {
        let shared = Shared {
            clients: Vec::new(),
            pty_open: false,
            pty_input: Vec::new(),
            ring: VecDeque::with_capacity(RING_LIMIT),
            exit_code: None,
            oom_detected: false,
            next_client_id: 1,
            terminal: Terminal {
                cols: INITIAL_COLS,
                rows: INITIAL_ROWS,
                cursor_col: 1,
                cursor_row: 1,
            },
        };
        assert(shared@ =~= State::initial());
        shared
    }
}

/// Remembers output for the clients that attach later, and forgets the oldest beyond the limit.
pub fn push_ring(shared: &mut Shared, chunk: &[u8])
    ensures
        final(shared)@ == old(shared)@.remembered(chunk@),
{
    let mut i: usize = 0;
    while i < chunk.len()
        invariant
            i <= chunk@.len(),
            shared@ == (State { ring: old(shared)@.ring + chunk@.take(i as int), ..old(shared)@ }),
        decreases chunk@.len() - i,
    {
        let ghost before = shared@;
        shared.ring.push_back(chunk[i]);
        i = i + 1;
        assert(chunk@.take(i as int) =~= chunk@.take(i - 1).push(chunk@[i - 1]));
        assert(shared@ =~= State { ring: old(shared)@.ring + chunk@.take(i as int), ..before });
    }
    assert(chunk@.take(i as int) =~= chunk@);
    let ghost all = old(shared)@.ring + chunk@;
    let ghost mut dropped: int = 0;
    while shared.ring.len() > RING_LIMIT
        invariant
            0 <= dropped <= all.len(),
            dropped > 0 ==> all.len() - dropped >= RING_LIMIT,
            all == old(shared)@.ring + chunk@,
            shared@ == (State { ring: all.skip(dropped), ..old(shared)@ }),
        decreases shared.ring@.len(),
    {
        let _ = shared.ring.pop_front();
        proof {
            assert(all.skip(dropped).subrange(1, all.len() - dropped) =~= all.skip(dropped + 1));
            dropped = dropped + 1;
        }
        assert(shared@ =~= State { ring: all.skip(dropped), ..old(shared)@ });
    }
    assert(shared@ =~= old(shared)@.remembered(chunk@));
}

/// Puts `message` into the queue of each client.
fn broadcast(shared: &mut Shared, message: &ServerMessage)
    ensures
        final(shared)@ == (State { clients: delivered(old(shared)@.clients, message@), ..old(shared)@ }),
{
    let mut i: usize = 0;
    while i < shared.clients.len()
        invariant
            i <= shared.clients@.len(),
            shared.clients@.len() == old(shared).clients@.len(),
            shared@ == (State { clients: shared@.clients, ..old(shared)@ }),
            forall|j: int|
                0 <= j < shared.clients@.len() ==> #[trigger] shared.clients@[j]@ == (if j < i {
                    delivered(old(shared)@.clients, message@)[j]
                } else {
                    old(shared)@.clients[j]
                }),
        decreases shared.clients@.len() - i,
    {
        let copy: ServerMessage = match message {
            ServerMessage::Output(chunk) => {
                let bytes: Vec<u8> = chunk.clone();
                assert(bytes@ =~= chunk@);
                ServerMessage::Output(bytes)
            },
            ServerMessage::Exit(code) => ServerMessage::Exit(*code),
        };
        let ghost before = shared.clients@[i as int]@;
        shared.clients[i].queue.push(copy);
        assert(shared.clients@[i as int]@ =~= Sink { queue: before.queue.push(message@), ..before });
        i = i + 1;
    }
    assert(shared@ =~= State { clients: delivered(old(shared)@.clients, message@), ..old(shared)@ });
}

/// Sends output to all clients.
pub fn broadcast_output(shared: &mut Shared, chunk: Vec<u8>)
    ensures
        final(shared)@ == old(shared)@.sent(chunk@),
{
    broadcast(shared, &ServerMessage::Output(chunk));
}

/// Tells all clients that the program exited.
pub fn broadcast_exit(shared: &mut Shared, code: i32)
    ensures
        final(shared)@ == old(shared)@.told_exit(code),
{
    broadcast(shared, &ServerMessage::Exit(code));
}

/// Lets the client `client_id` leave. The others stay as they are.
pub fn remove_client(shared: &mut Shared, client_id: u64)
    ensures
        final(shared)@ == old(shared)@.detached(client_id),
{
    let ghost all = old(shared)@.clients;
    let mut i: usize = shared.clients.len();
    assert(all.take(i as int) =~= all);
    assert(all.skip(i as int) =~= Seq::empty());
    while i > 0
        invariant
            i <= all.len(),
            i <= shared.clients@.len(),
            all == old(shared)@.clients,
            shared@ == (State { clients: shared@.clients, ..old(shared)@ }),
            shared@.clients.take(i as int) == all.take(i as int),
            without(all, client_id) == without(all.take(i as int), client_id) + shared@.clients.skip(
                i as int,
            ),
        decreases i,
    {
        let ghost before = shared@.clients;
        proof {
            reveal(Seq::filter);
        }
        i = i - 1;
        assert(all.take(i + 1).drop_last() =~= all.take(i as int));
        assert(before.take(i + 1)[i as int] == all.take(i + 1)[i as int]);
        if shared.clients[i].id == client_id {
            let _ = shared.clients.remove(i);
            assert(shared@.clients =~= before.remove(i as int));
            assert(shared@.clients.skip(i as int) =~= before.skip(i + 1));
        } else {
            assert(shared@.clients.skip(i as int) =~= seq![all[i as int]] + before.skip(i + 1));
        }
        assert(shared@.clients.take(i as int) =~= before.take(i + 1).take(i as int));
        assert(all.take(i + 1).take(i as int) =~= all.take(i as int));
        assert(without(all, client_id) =~= without(all.take(i as int), client_id)
            + shared@.clients.skip(i as int));
    }
    proof {
        reveal(Seq::filter);
    }
    assert(all.take(0) =~= Seq::empty());
    assert(shared@.clients.skip(0) =~= shared@.clients);
    assert(shared@ =~= old(shared)@.detached(client_id));
}

proof fn lemma_reachable_step(clients: Seq<Sink>, gone: Seq<u64>, id: u64)
    ensures
        without(reachable(clients, gone), id) == reachable(clients, gone.push(id)),
    decreases clients.len(),
{
    reveal(Seq::filter);
    if clients.len() > 0 {
        let before = clients.drop_last();
        let last = clients.last();
        lemma_reachable_step(before, gone, id);
        assert(gone.push(id).contains(last.id) == (gone.contains(last.id) || last.id == id)) by {
            if gone.contains(last.id) {
                let k = choose|k: int| 0 <= k < gone.len() && gone[k] == last.id;
                assert(gone.push(id)[k] == last.id);
            }
            assert(gone.push(id)[gone.len() as int] == id);
        }
        if !gone.contains(last.id) {
            assert(reachable(clients, gone).drop_last() =~= reachable(before, gone));
        }
    }
}

/// Lets the clients leave that could not be reached when a message was passed on to them. The
/// others stay as they are.
pub fn remove_unreachable(shared: &mut Shared, gone: &[u64])
    ensures
        final(shared)@ == (State {
            clients: reachable(old(shared)@.clients, gone@),
            ..old(shared)@
        }),
{
    let ghost all = old(shared)@.clients;
    let mut i: usize = 0;
    proof {
        lemma_reachable_none(all);
        assert(gone@.take(0) =~= Seq::empty());
    }
    while i < gone.len()
        invariant
            i <= gone@.len(),
            all == old(shared)@.clients,
            shared@ == (State { clients: reachable(all, gone@.take(i as int)), ..old(shared)@ }),
        decreases gone@.len() - i,
    {
        remove_client(shared, gone[i]);
        proof {
            lemma_reachable_step(all, gone@.take(i as int), gone@[i as int]);
            assert(gone@.take(i as int).push(gone@[i as int]) =~= gone@.take(i + 1));
        }
        i = i + 1;
    }
    assert(gone@.take(i as int) =~= gone@);
}

proof fn lemma_reachable_none(clients: Seq<Sink>)
    ensures
        reachable(clients, Seq::empty()) == clients,
    decreases clients.len(),
{
    reveal(Seq::filter);
    if clients.len() > 0 {
        lemma_reachable_none(clients.drop_last());
        assert(clients.drop_last().push(clients.last()) =~= clients);
    }
}

/// The number of attached clients.
pub fn client_count(shared: &Shared) -> (r: usize)
    ensures
        r == shared@.clients.len(),
{
    shared.clients.len()
}

/// Lets a client attach, and returns its number.
pub fn attach_client(shared: &mut Shared) -> (r: u64)
    ensures
        r == old(shared)@.next_client_id,
        final(shared)@ == old(shared)@.attached(),
{
    let id: u64 = shared.next_client_id;
    shared.next_client_id = id.wrapping_add(1);
    let mut initial: Vec<u8> = Vec::new();
    initial.extend_from_slice(&CLEAR_SCREEN);
    assert(initial@ =~= CLEAR_SCREEN@);
    let mut i: usize = 0;
    while i < shared.ring.len()
        invariant
            i <= shared.ring@.len(),
            initial@ == CLEAR_SCREEN@ + shared.ring@.take(i as int),
        decreases shared.ring@.len() - i,
    {
        initial.push(shared.ring[i]);
        i = i + 1;
        assert(shared.ring@.take(i as int) =~= shared.ring@.take(i - 1).push(shared.ring@[i - 1]));
    }
    assert(shared.ring@.take(i as int) =~= shared.ring@);
    let mut queue: Vec<ServerMessage> = Vec::new();
    queue.push(ServerMessage::Output(initial));
    if let Some(code) = shared.exit_code {
        queue.push(ServerMessage::Exit(code));
    }
    let sink = ClientSink { id, queue };
    assert(sink@.queue =~= old(shared)@.greeting());
    shared.clients.push(sink);
    assert(shared@ =~= old(shared)@.attached());
    id
}

/// Writes bytes to the pseudo-terminal, if there is one.
pub fn type_bytes(shared: &mut Shared, bytes: &[u8])
    ensures
        final(shared)@ == old(shared)@.typed(bytes@),
{
    if shared.pty_open {
        shared.pty_input.extend_from_slice(bytes);
        assert(shared.pty_input@ =~= old(shared)@.pty_input + bytes@);
    }
    assert(shared@ =~= old(shared)@.typed(bytes@));
}

/// Answers a query that the program put to its terminal.
pub fn answer_terminal_query(shared: &mut Shared, query: TerminalQuery)
    ensures
        final(shared)@ == old(shared)@.typed(old(shared)@.terminal.reply(query)),
{
    let response: Vec<u8> = query_reply(&shared.terminal, query);
    type_bytes(shared, response.as_slice());
}

/// A broker that has just started is well-formed.
pub proof fn law_initial_is_well_formed()
    ensures
        State::initial().well_formed(),
{
}

/// A client that attaches gets a number that no other client has.
pub proof fn law_attached_client_has_its_own_number(state: State)
    requires
        state.well_formed(),
        state.next_client_id < u64::MAX,
    ensures
        state.attached().well_formed(),
        forall|i: int|
            0 <= i < state.clients.len() ==> (#[trigger] state.clients[i]).id
                != state.attached().clients.last().id,
{
    let after = state.attached();
    assert forall|i: int| 0 <= i < after.clients.len() implies (#[trigger] after.clients[i]).id
        < after.next_client_id by {
        if i < state.clients.len() {
            assert(after.clients[i] == state.clients[i]);
        }
    }
    assert forall|i: int, j: int| 0 <= i < j < after.clients.len() implies (
    #[trigger] after.clients[i]).id != (#[trigger] after.clients[j]).id by {
        assert(after.clients[i] == state.clients[i]);
        if j < state.clients.len() {
            assert(after.clients[j] == state.clients[j]);
        }
    }
}

proof fn lemma_delivered(clients: Seq<Sink>, message: Delivery)
    ensures
        delivered(clients, message).len() == clients.len(),
        forall|i: int|
            0 <= i < clients.len() ==> (#[trigger] delivered(clients, message)[i]).id
                == clients[i].id && delivered(clients, message)[i].queue == clients[i].queue.push(
                message,
            ),
{
}

/// Output reaches every client, and each client once.
pub proof fn law_output_reaches_every_client(state: State, chunk: Seq<u8>, i: int)
    requires
        0 <= i < state.clients.len(),
    ensures
        state.sent(chunk).clients.len() == state.clients.len(),
        state.sent(chunk).clients[i] == (Sink {
            id: state.clients[i].id,
            queue: state.clients[i].queue.push(Delivery::Output(chunk)),
        }),
{
}

proof fn lemma_delivered_keeps_well_formed(state: State, message: Delivery)
    requires
        state.well_formed(),
    ensures
        (State { clients: delivered(state.clients, message), ..state }).well_formed(),
{
    let after = State { clients: delivered(state.clients, message), ..state };
    lemma_delivered(state.clients, message);
    assert forall|i: int, j: int| 0 <= i < j < after.clients.len() implies (
    #[trigger] after.clients[i]).id != (#[trigger] after.clients[j]).id by {
        assert(state.clients[i].id != state.clients[j].id);
    }
}

/// Output, input and the news of an exit keep a broker well-formed.
pub proof fn law_traffic_keeps_well_formed(state: State, bytes: Seq<u8>, code: i32)
    requires
        state.well_formed(),
    ensures
        state.published(bytes).well_formed(),
        state.told_exit(code).well_formed(),
        state.typed(bytes).well_formed(),
{
    lemma_delivered_keeps_well_formed(state.remembered(bytes), Delivery::Output(bytes));
    lemma_delivered_keeps_well_formed(state, Delivery::Exit(code));
}

/// The output of several chunks, one after the other.
pub open spec fn joined(chunks: Seq<Seq<u8>>) -> Seq<u8>
    decreases chunks.len(),
{
    if chunks.len() == 0 {
        Seq::empty()
    } else {
        joined(chunks.drop_last()) + chunks.last()
    }
}

/// The state after several chunks have been published.
pub open spec fn after_chunks(state: State, chunks: Seq<Seq<u8>>) -> State
    decreases chunks.len(),
{
    if chunks.len() == 0 {
        state
    } else {
        after_chunks(state, chunks.drop_last()).published(chunks.last())
    }
}

/// However the output is cut into chunks, the broker remembers the last of it, up to the limit.
pub proof fn law_ring_holds_latest_output(state: State, chunks: Seq<Seq<u8>>)
    requires
        state.ring.len() <= RING_LIMIT,
    ensures
        after_chunks(state, chunks).ring == keep_last(
            state.ring + joined(chunks),
            RING_LIMIT as int,
        ),
    decreases chunks.len(),
{
    if chunks.len() == 0 {
        assert(state.ring + joined(chunks) =~= state.ring);
    } else {
        law_ring_holds_latest_output(state, chunks.drop_last());
        let earlier = state.ring + joined(chunks.drop_last());
        let chunk = chunks.last();
        assert(state.ring + joined(chunks) =~= earlier + chunk);
        assert(keep_last(keep_last(earlier, RING_LIMIT as int) + chunk, RING_LIMIT as int)
            =~= keep_last(earlier + chunk, RING_LIMIT as int));
    }
}

/// A client that attaches is shown the latest output, and nothing else of the state changes for
/// the clients that are there.
pub proof fn law_attached_client_sees_latest_output(state: State)
    ensures
        state.attached().clients.last().queue[0] == Delivery::Output(CLEAR_SCREEN@ + state.ring),
        state.attached().clients.drop_last() == state.clients,
        state.attached().ring == state.ring,
        state.attached().pty_input == state.pty_input,
        state.attached().pty_open == state.pty_open,
        state.attached().terminal == state.terminal,
        state.exit_code is None ==> state.attached().clients.last().queue.len() == 1,
        state.exit_code matches Some(code) ==> state.attached().clients.last().queue
            == seq![Delivery::Output(CLEAR_SCREEN@ + state.ring), Delivery::Exit(code)],
{
    assert(state.attached().clients.drop_last() =~= state.clients);
}

proof fn lemma_without_delivered(clients: Seq<Sink>, id: u64, message: Delivery)
    ensures
        without(delivered(clients, message), id) == delivered(without(clients, id), message),
    decreases clients.len(),
{
    reveal(Seq::filter);
    let all = delivered(clients, message);
    if clients.len() > 0 {
        lemma_without_delivered(clients.drop_last(), id, message);
        assert(all.drop_last() =~= delivered(clients.drop_last(), message));
        assert(delivered(without(clients, id), message) =~= if clients.last().id == id {
            delivered(without(clients.drop_last(), id), message)
        } else {
            delivered(without(clients.drop_last(), id), message).push(all.last())
        });
    } else {
        assert(all =~= Seq::empty());
        assert(delivered(without(clients, id), message) =~= Seq::empty());
    }
}

/// Detaching one client does not interrupt the others: what they are sent, and what becomes of
/// the pseudo-terminal, is the same whether it leaves before or after.
pub proof fn law_detaching_does_not_interrupt_others(
    state: State,
    id: u64,
    bytes: Seq<u8>,
    code: i32,
)
    ensures
        state.detached(id).sent(bytes) == state.sent(bytes).detached(id),
        state.detached(id).published(bytes) == state.published(bytes).detached(id),
        state.detached(id).told_exit(code) == state.told_exit(code).detached(id),
        state.detached(id).typed(bytes) == state.typed(bytes).detached(id),
{
    lemma_without_delivered(state.clients, id, Delivery::Output(bytes));
    lemma_without_delivered(state.clients, id, Delivery::Exit(code));
}

proof fn lemma_without(clients: Seq<Sink>, id: u64)
    ensures
        forall|i: int|
            0 <= i < without(clients, id).len() ==> (#[trigger] without(clients, id)[i]).id != id
                && clients.contains(without(clients, id)[i]),
        forall|i: int|
            0 <= i < clients.len() && (#[trigger] clients[i]).id != id ==> without(
                clients,
                id,
            ).contains(clients[i]),
    decreases clients.len(),
{
    reveal(Seq::filter);
    if clients.len() > 0 {
        let before = clients.drop_last();
        lemma_without(before, id);
        let kept = without(before, id);
        let all = without(clients, id);
        assert forall|i: int| 0 <= i < all.len() implies (#[trigger] all[i]).id != id
            && clients.contains(all[i]) by {
            if i < kept.len() {
                assert(kept[i].id != id);
                let k = choose|k: int| 0 <= k < before.len() && before[k] == kept[i];
                assert(clients[k] == all[i]);
            } else {
                assert(clients[clients.len() - 1] == all[i]);
            }
        }
        assert forall|i: int| 0 <= i < clients.len() && (#[trigger] clients[i]).id != id implies
            all.contains(clients[i]) by {
            if i < before.len() {
                assert(before[i] == clients[i]);
                let k = choose|k: int| 0 <= k < kept.len() && kept[k] == clients[i];
                assert(all[k] == clients[i]);
            } else {
                assert(all[all.len() - 1] == clients[i]);
            }
        }
    }
}

/// A client that detaches is gone; every other client stays, with what waits for it, and nothing
/// else changes.
pub proof fn law_detached_client_is_gone(state: State, id: u64)
    ensures
        forall|i: int|
            0 <= i < state.detached(id).clients.len() ==> (
            #[trigger] state.detached(id).clients[i]).id != id,
        forall|i: int|
            0 <= i < state.clients.len() && (#[trigger] state.clients[i]).id != id
                ==> state.detached(id).clients.contains(state.clients[i]),
        state.detached(id) == (State { clients: state.detached(id).clients, ..state }),
{
    lemma_without(state.clients, id);
}

proof fn lemma_without_distinct(clients: Seq<Sink>, id: u64)
    requires
        forall|i: int, j: int|
            0 <= i < j < clients.len() ==> (#[trigger] clients[i]).id != (#[trigger] clients[j]).id,
    ensures
        forall|i: int, j: int|
            0 <= i < j < without(clients, id).len() ==> (#[trigger] without(clients, id)[i]).id
                != (#[trigger] without(clients, id)[j]).id,
    decreases clients.len(),
{
    reveal(Seq::filter);
    if clients.len() > 0 {
        let before = clients.drop_last();
        assert forall|i: int, j: int| 0 <= i < j < before.len() implies (#[trigger] before[i]).id
            != (#[trigger] before[j]).id by {
            assert(clients[i].id != clients[j].id);
        }
        lemma_without_distinct(before, id);
        lemma_without(before, id);
        let kept = without(before, id);
        let all = without(clients, id);
        assert forall|i: int, j: int| 0 <= i < j < all.len() implies (#[trigger] all[i]).id != (
        #[trigger] all[j]).id by {
            assert(kept[i].id == all[i].id);
            if j < kept.len() {
                assert(kept[j].id == all[j].id);
            } else {
                let k = choose|k: int| 0 <= k < before.len() && before[k] == kept[i];
                assert(clients[k].id != clients[clients.len() - 1].id);
            }
        }
    }
}

/// Detaching keeps a broker well-formed.
pub proof fn law_detaching_keeps_well_formed(state: State, id: u64)
    requires
        state.well_formed(),
    ensures
        state.detached(id).well_formed(),
{
    lemma_without(state.clients, id);
    lemma_without_distinct(state.clients, id);
    let after = state.detached(id);
    assert forall|i: int| 0 <= i < after.clients.len() implies (#[trigger] after.clients[i]).id
        < after.next_client_id by {
        let k = choose|k: int|
            0 <= k < state.clients.len() && state.clients[k] == after.clients[i];
        assert(state.clients[k].id < state.next_client_id);
    }
}

/// Removing the clients that could not be reached keeps a broker well-formed. Where all were
/// reached, nothing changes.
pub proof fn law_removing_unreachable_keeps_well_formed(state: State, gone: Seq<u64>)
    requires
        state.well_formed(),
    ensures
        (State { clients: reachable(state.clients, gone), ..state }).well_formed(),
        gone.len() == 0 ==> reachable(state.clients, gone) == state.clients,
    decreases gone.len(),
{
    if gone.len() == 0 {
        assert(gone =~= Seq::empty());
        lemma_reachable_none(state.clients);
    } else {
        let earlier = gone.drop_last();
        law_removing_unreachable_keeps_well_formed(state, earlier);
        lemma_reachable_step(state.clients, earlier, gone.last());
        assert(earlier.push(gone.last()) =~= gone);
        law_detaching_keeps_well_formed(
            State { clients: reachable(state.clients, earlier), ..state },
            gone.last(),
        );
    }
}

/// Output is remembered whoever is attached: the ring is the end of the earlier ring followed by
/// the output, all of it up to a mebibyte. Each client has the output behind what waited for it,
/// and nothing else changes.
pub proof fn law_output_is_remembered_and_sent(state: State, chunk: Seq<u8>)
    ensures
        ({
            let all = state.ring + chunk;
            let after = state.published(chunk);
            &&& all.len() <= 1048576 ==> after.ring == all
            &&& all.len() > 1048576 ==> after.ring == all.subrange(
                all.len() - 1048576,
                all.len() as int,
            )
            &&& after.clients.len() == state.clients.len()
            &&& forall|i: int|
                0 <= i < state.clients.len() ==> (#[trigger] after.clients[i]).id
                    == state.clients[i].id && after.clients[i].queue
                    == state.clients[i].queue.push(Delivery::Output(chunk))
            &&& after == (State { ring: after.ring, clients: after.clients, ..state })
            &&& state.remembered(chunk) == (State { ring: after.ring, ..state })
            &&& state.sent(chunk) == (State { clients: after.clients, ..state })
        }),
{
    let all = state.ring + chunk;
    if all.len() > 1048576 {
        assert(state.published(chunk).ring =~= all.subrange(
            all.len() - 1048576,
            all.len() as int,
        ));
    }
}

/// What is remembered does not depend on the clients: with any other clients it is the same.
pub proof fn law_ring_does_not_depend_on_clients(state: State, clients: Seq<Sink>, chunk: Seq<u8>)
    ensures
        (State { clients, ..state }).published(chunk).ring == state.published(chunk).ring,
{
}

/// The news of an exit waits for each client behind what waited for it, and nothing else changes.
pub proof fn law_exit_is_told_to_every_client(state: State, code: i32)
    ensures
        ({
            let after = state.told_exit(code);
            &&& after.clients.len() == state.clients.len()
            &&& forall|i: int|
                0 <= i < state.clients.len() ==> (#[trigger] after.clients[i]).id
                    == state.clients[i].id && after.clients[i].queue
                    == state.clients[i].queue.push(Delivery::Exit(code))
            &&& after == (State { clients: after.clients, ..state })
        }),
{
}

/// Input goes to an open pseudo-terminal, behind the input before it. Without one it is dropped.
pub proof fn law_input_needs_an_open_terminal(state: State, a: Seq<u8>, b: Seq<u8>)
    ensures
        state.pty_open ==> state.typed(a) == (State { pty_input: state.pty_input + a, ..state }),
        !state.pty_open ==> state.typed(a) == state,
        state.typed(a).typed(b) == state.typed(a + b),
{
    assert(state.pty_input + a + b =~= state.pty_input + (a + b));
}

/// A client that attaches stands behind the others. It is sent a clear screen with the remembered
/// output, and the exit code where there is one. The next client gets the next number.
pub proof fn law_attached_client_is_greeted(state: State)
    ensures
        ({
            let after = state.attached();
            let screen = Delivery::Output(
                seq![0x1bu8, 0x5b, 0x32, 0x4a, 0x1b, 0x5b, 0x48] + state.ring,
            );
            let sink = Sink {
                id: state.next_client_id,
                queue: match state.exit_code {
                    Some(code) => seq![screen].push(Delivery::Exit(code)),
                    None => seq![screen],
                },
            };
            &&& after.clients == state.clients.push(sink)
            &&& state.next_client_id < u64::MAX ==> after.next_client_id == state.next_client_id
                + 1
            &&& state.next_client_id == u64::MAX ==> after.next_client_id == 0
            &&& after == (State {
                clients: after.clients,
                next_client_id: after.next_client_id,
                ..state
            })
        }),
{
    assert(CLEAR_SCREEN@ =~= seq![0x1bu8, 0x5b, 0x32, 0x4a, 0x1b, 0x5b, 0x48]);
    if let Some(code) = state.exit_code {
        let screen = Delivery::Output(CLEAR_SCREEN@ + state.ring);
        assert(seq![screen, Delivery::Exit(code)] =~= seq![screen].push(Delivery::Exit(code)));
    }
}

proof fn lemma_filter_keeps_all(clients: Seq<Sink>, id: u64)
    requires
        forall|i: int| 0 <= i < clients.len() ==> (#[trigger] clients[i]).id != id,
    ensures
        without(clients, id) == clients,
    decreases clients.len(),
{
    reveal(Seq::filter);
    if clients.len() > 0 {
        let before = clients.drop_last();
        assert forall|i: int| 0 <= i < before.len() implies (#[trigger] before[i]).id != id by {
            assert(clients[i].id != id);
        }
        lemma_filter_keeps_all(before, id);
        assert(clients[clients.len() - 1].id != id);
        assert(before.push(clients.last()) =~= clients);
    }
}

proof fn lemma_without_between(a: Seq<Sink>, client: Sink, b: Seq<Sink>)
    requires
        forall|i: int| 0 <= i < a.len() ==> (#[trigger] a[i]).id != client.id,
        forall|i: int| 0 <= i < b.len() ==> (#[trigger] b[i]).id != client.id,
    ensures
        without(a.push(client) + b, client.id) == a + b,
    decreases b.len(),
{
    reveal(Seq::filter);
    let s = a.push(client) + b;
    if b.len() == 0 {
        assert(s.drop_last() =~= a);
        lemma_filter_keeps_all(a, client.id);
        assert(a + b =~= a);
    } else {
        let shorter = b.drop_last();
        assert forall|i: int| 0 <= i < shorter.len() implies (#[trigger] shorter[i]).id
            != client.id by {
            assert(b[i].id != client.id);
        }
        lemma_without_between(a, client, shorter);
        assert(s.drop_last() =~= a.push(client) + shorter);
        assert(b[b.len() - 1].id != client.id);
        assert((a + shorter).push(b.last()) =~= a + b);
    }
}

/// A client that detaches leaves the others as they are, in their order. Where there is no client
/// with the number, nothing changes.
pub proof fn law_detaching_takes_out_one_client(
    state: State,
    a: Seq<Sink>,
    client: Sink,
    b: Seq<Sink>,
)
    requires
        forall|i: int| 0 <= i < a.len() ==> (#[trigger] a[i]).id != client.id,
        forall|i: int| 0 <= i < b.len() ==> (#[trigger] b[i]).id != client.id,
    ensures
        (State { clients: a.push(client) + b, ..state }).detached(client.id) == (State {
            clients: a + b,
            ..state
        }),
        (State { clients: a + b, ..state }).detached(client.id) == (State {
            clients: a + b,
            ..state
        }),
{
    lemma_without_between(a, client, b);
    assert forall|i: int| 0 <= i < (a + b).len() implies (#[trigger] (a + b)[i]).id != client.id by {
        if i < a.len() {
            assert(a[i].id != client.id);
        } else {
            assert(b[i - a.len()].id != client.id);
        }
    }
    lemma_filter_keeps_all(a + b, client.id);
}

/// Of the clients exactly those are removed that could not be reached; the others keep their order.
pub proof fn law_reached_clients_stay(clients: Seq<Sink>, client: Sink, gone: Seq<u64>, i: int)
    ensures
        reachable(Seq::empty(), gone) == Seq::<Sink>::empty(),
        0 <= i < gone.len() && gone[i] == client.id ==> reachable(clients.push(client), gone)
            == reachable(clients, gone),
        (forall|j: int| 0 <= j < gone.len() ==> gone[j] != client.id) ==> reachable(
            clients.push(client),
            gone,
        ) == reachable(clients, gone).push(client),
{
    reveal(Seq::filter);
    assert(clients.push(client).drop_last() =~= clients);
    assert(reachable(Seq::empty(), gone) =~= Seq::<Sink>::empty());
}

/// A broker starts with nothing: no client, no pseudo-terminal, no output, no exit. Its terminal
/// has 120 columns and 30 rows, and the first client gets the number 1.
pub proof fn law_broker_starts_with_nothing()
    ensures
        State::initial().clients.len() == 0,
        State::initial().pty_input.len() == 0,
        State::initial().ring.len() == 0,
        !State::initial().pty_open,
        !State::initial().oom_detected,
        State::initial().exit_code is None,
        State::initial().next_client_id == 1,
        State::initial().terminal == (Terminal {
            cols: 120,
            rows: 30,
            cursor_col: 1,
            cursor_row: 1,
        }),
{
}

} // verus!
