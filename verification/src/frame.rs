//! The frames that clients and broker exchange: a kind, the length of the payload in four bytes,
//! the least significant one first, and the payload.

use vstd::prelude::*;
use vstd::slice::slice_subrange;
use vstd::slice::slice_to_vec;

verus! {

pub const FRAME_STDOUT: u8 = 1;

pub const FRAME_EXIT: u8 = 2;

pub const FRAME_STDIN: u8 = 10;

pub const FRAME_RESIZE: u8 = 11;

pub const FRAME_DETACH: u8 = 12;

/// The longest payload that is read.
pub const MAX_PAYLOAD: usize = 8 * 1024 * 1024;

/// The number of bytes in front of a payload.
pub const HEADER_LEN: usize = 5;

/// Why a frame could not be written or read.
#[derive(Clone, Copy, Debug, PartialEq, Eq, Structural)]
pub enum FrameError {
    /// The payload is longer than a frame may hold.
    PayloadTooLarge,
    /// The bytes end inside the payload.
    UnexpectedEof,
}

/// Why bytes could not be read from a connection.
#[derive(Clone, Copy, Debug, PartialEq, Eq, Structural)]
pub enum ReadFailure {
    /// The connection ended before all of the bytes had arrived.
    UnexpectedEof,
    ConnectionReset,
    ConnectionAborted,
    Other,
}

/// Whether a failed read is the end of the connection: it is where the other side has closed or
/// dropped the connection and a header was read for. Behind a header every failure is an error.
pub open spec fn ends_connection(in_header: bool, failure: ReadFailure) -> bool {
    in_header && failure != ReadFailure::Other
}

/// Whether a failed read is the end of the connection, where `in_header` says whether it was the
/// header that was read, or else the payload.
pub fn read_failure_is_end(in_header: bool, failure: ReadFailure) -> (r: bool)
    ensures
        r == (in_header && failure != ReadFailure::Other),
{
    in_header && failure != ReadFailure::Other
}

/// What is read from a connection on which a read failed with `error`: the end of the connection,
/// or else that error.
pub fn failed_read<E>(in_header: bool, failure: ReadFailure, error: E) -> (r: Result<
    Option<(u8, Vec<u8>)>,
    E,
>)
    ensures
        r == (if ends_connection(in_header, failure) {
            Ok::<Option<(u8, Vec<u8>)>, E>(None)
        } else {
            Err::<Option<(u8, Vec<u8>)>, E>(error)
        }),
{
    if read_failure_is_end(in_header, failure) {
        Ok(None)
    } else {
        Err(error)
    }
}

pub open spec fn u16_le(x: u16) -> Seq<u8> {
    seq![(x % 256) as u8, (x / 256) as u8]
}

pub open spec fn u16_of_le(s: Seq<u8>) -> u16 {
    (s[0] + 256 * s[1]) as u16
}

pub open spec fn u32_le(x: u32) -> Seq<u8> {
    seq![
        (x % 256) as u8,
        (x / 256 % 256) as u8,
        (x / 65536 % 256) as u8,
        (x / 16777216) as u8,
    ]
}

pub open spec fn u32_of_le(s: Seq<u8>) -> u32 {
    (s[0] + 256 * s[1] + 65536 * s[2] + 16777216 * s[3]) as u32
}

/// The two's complement of a signed number.
pub open spec fn to_unsigned(x: i32) -> u32 {
    if x < 0 {
        (x + 0x1_0000_0000) as u32
    } else {
        x as u32
    }
}

/// The signed number that a two's complement stands for.
pub open spec fn to_signed(x: u32) -> i32 {
    if x >= 0x8000_0000 {
        (x - 0x1_0000_0000) as i32
    } else {
        x as i32
    }
}

proof fn lemma_u32_le_round_trip(x: u32)
    ensures
        u32_of_le(u32_le(x)) == x,
{
    assert(x / 256 / 256 == x / 65536);
    assert(x / 65536 / 256 == x / 16777216);
}

/// A frame as bytes.
pub open spec fn frame_bytes(kind: u8, payload: Seq<u8>) -> Seq<u8> {
    seq![kind] + u32_le(payload.len() as u32) + payload
}

fn push_u32_le(out: &mut Vec<u8>, x: u32)
    ensures
        final(out)@ == old(out)@ + u32_le(x),
{
    out.push((x % 256) as u8);
    out.push((x / 256 % 256) as u8);
    out.push((x / 65536 % 256) as u8);
    out.push((x / 16777216) as u8);
    assert(out@ =~= old(out)@ + u32_le(x));
}

/// Appends a frame to `writer`.
pub fn write_frame(writer: &mut Vec<u8>, kind: u8, payload: &[u8]) -> (r: Result<(), FrameError>)
    ensures
        payload@.len() > u32::MAX ==> r == Err::<(), _>(FrameError::PayloadTooLarge)
            && final(writer)@ == old(writer)@,
        payload@.len() <= u32::MAX ==> r is Ok && final(writer)@ == old(writer)@ + frame_bytes(
            kind,
            payload@,
        ),
{
    if payload.len() > u32::MAX as usize {
        return Err(FrameError::PayloadTooLarge);
    }
    writer.push(kind);
    push_u32_le(writer, payload.len() as u32);
    writer.extend_from_slice(payload);
    assert(writer@ =~= old(writer)@ + frame_bytes(kind, payload@));
    Ok(())
}

/// The length of the payload that a header announces.
pub open spec fn announced_len(header: Seq<u8>) -> int {
    u32_of_le(header.subrange(1, 5)) as int
}

/// Reads a header: the kind of the frame and the length of its payload.
pub fn read_header(header: &[u8; 5]) -> (r: Result<(u8, usize), FrameError>)
    ensures
        match r {
            Ok((kind, n)) => kind == header@[0] && n == announced_len(header@) && n <= MAX_PAYLOAD,
            Err(e) => e == FrameError::PayloadTooLarge && announced_len(header@) > MAX_PAYLOAD,
        },
{
    let n: u32 = header[1] as u32 + 256 * (header[2] as u32) + 65536 * (header[3] as u32) + 16777216
        * (header[4] as u32);
    assert(n == announced_len(header@));
    if n as usize > MAX_PAYLOAD {
        return Err(FrameError::PayloadTooLarge);
    }
    Ok((header[0], n as usize))
}

/// What is read from a stream: a frame, the end of the stream, or an error.
pub open spec fn frame_at(s: Seq<u8>) -> Result<Option<(u8, Seq<u8>)>, FrameError> {
    if s.len() < HEADER_LEN {
        Ok(None)
    } else if announced_len(s) > MAX_PAYLOAD {
        Err(FrameError::PayloadTooLarge)
    } else if s.len() - HEADER_LEN < announced_len(s) {
        Err(FrameError::UnexpectedEof)
    } else {
        Ok(Some((s[0], s.subrange(HEADER_LEN as int, HEADER_LEN + announced_len(s)))))
    }
}

/// A frame that was read, as a value.
pub open spec fn frame_view(
    r: Result<Option<(u8, Vec<u8>)>, FrameError>,
) -> Result<Option<(u8, Seq<u8>)>, FrameError> {
    match r {
        Ok(Some((kind, payload))) => Ok(Some((kind, payload@))),
        Ok(None) => Ok(None),
        Err(e) => Err(e),
    }
}

/// Reads the frame at the beginning of `reader`. A stream that ends before a whole header is at
/// its end; one that ends inside a payload is broken.
pub fn read_frame(reader: &[u8]) -> (r: Result<Option<(u8, Vec<u8>)>, FrameError>)
    ensures
        frame_view(r) == frame_at(reader@),
{
    if reader.len() < HEADER_LEN {
        return Ok(None);
    }
    let header: [u8; 5] = [reader[0], reader[1], reader[2], reader[3], reader[4]];
    assert(header@.subrange(1, 5) =~= reader@.subrange(1, 5));
    match read_header(&header) {
        Err(e) => Err(e),
        Ok((kind, n)) => {
            if reader.len() - HEADER_LEN < n {
                return Err(FrameError::UnexpectedEof);
            }
            let payload: Vec<u8> = slice_to_vec(slice_subrange(reader, HEADER_LEN, HEADER_LEN + n));
            Ok(Some((kind, payload)))
        },
    }
}

/// Reading gives back the frame that was written, and leaves what follows it. A payload beyond
/// the limit of the reader is refused.
pub proof fn law_frame_round_trip(kind: u8, payload: Seq<u8>, rest: Seq<u8>)
    requires
        payload.len() <= u32::MAX,
    ensures
        payload.len() <= MAX_PAYLOAD ==> frame_at(frame_bytes(kind, payload) + rest) == Ok::<_, FrameError>(
            Some((kind, payload)),
        ),
        payload.len() > MAX_PAYLOAD ==> frame_at(frame_bytes(kind, payload) + rest) == Err::<
            Option<(u8, Seq<u8>)>,
            _,
        >(FrameError::PayloadTooLarge),
        (frame_bytes(kind, payload) + rest).skip(HEADER_LEN + payload.len()) == rest,
{
    let s = frame_bytes(kind, payload) + rest;
    lemma_u32_le_round_trip(payload.len() as u32);
    assert(s.subrange(1, 5) =~= u32_le(payload.len() as u32));
    assert(s.subrange(HEADER_LEN as int, HEADER_LEN + payload.len()) =~= payload);
    assert(s.skip(HEADER_LEN + payload.len()) =~= rest);
}

/// Bytes that end early are read as a connection is that ends there: as its end before a whole
/// header, and as an error inside a payload.
pub proof fn law_early_end_is_read_as_on_a_connection(s: Seq<u8>)
    requires
        s.len() < HEADER_LEN || (announced_len(s) <= MAX_PAYLOAD && s.len() - HEADER_LEN
            < announced_len(s)),
    ensures
        frame_at(s) == (if ends_connection(s.len() < HEADER_LEN, ReadFailure::UnexpectedEof) {
            Ok::<Option<(u8, Seq<u8>)>, FrameError>(None)
        } else {
            Err::<Option<(u8, Seq<u8>)>, FrameError>(FrameError::UnexpectedEof)
        }),
{
}

/// A part of a frame is never taken for a whole one.
pub proof fn law_cut_frame_is_not_read(kind: u8, payload: Seq<u8>, k: int)
    requires
        payload.len() <= MAX_PAYLOAD,
        0 <= k < HEADER_LEN + payload.len(),
    ensures
        frame_at(frame_bytes(kind, payload).take(k)) == (if k < HEADER_LEN {
            Ok::<Option<(u8, Seq<u8>)>, FrameError>(None)
        } else {
            Err(FrameError::UnexpectedEof)
        }),
{
    let whole = frame_bytes(kind, payload);
    let s = whole.take(k);
    lemma_u32_le_round_trip(payload.len() as u32);
    if k >= HEADER_LEN {
        assert(s.subrange(1, 5) =~= u32_le(payload.len() as u32));
    }
}

/// The payload of an exit frame.
pub fn exit_payload(code: i32) -> (r: Vec<u8>)
    ensures
        r@ == u32_le(to_unsigned(code)),
{
    let bits: u32 = if code < 0 {
        (code as i64 + 0x1_0000_0000) as u32
    } else {
        code as u32
    };
    let mut payload: Vec<u8> = Vec::new();
    push_u32_le(&mut payload, bits);
    assert(payload@ =~= u32_le(to_unsigned(code)));
    payload
}

/// The exit code in the payload of an exit frame.
pub open spec fn exit_code_in(payload: Seq<u8>) -> Option<i32> {
    if payload.len() == 4 {
        Some(to_signed(u32_of_le(payload)))
    } else {
        None
    }
}

/// Reads the payload of an exit frame. `None` where it has not four bytes.
pub fn read_exit_payload(payload: &[u8]) -> (r: Option<i32>)
    ensures
        r == exit_code_in(payload@),
{
    if payload.len() != 4 {
        return None;
    }
    let bits: u32 = payload[0] as u32 + 256 * (payload[1] as u32) + 65536 * (payload[2] as u32)
        + 16777216 * (payload[3] as u32);
    if bits >= 0x8000_0000 {
        Some((bits as i64 - 0x1_0000_0000) as i32)
    } else {
        Some(bits as i32)
    }
}

/// A client reads the exit code that the broker sent.
pub proof fn law_exit_code_round_trip(code: i32)
    ensures
        exit_code_in(u32_le(to_unsigned(code))) == Some(code),
{
    lemma_u32_le_round_trip(to_unsigned(code));
}

/// The payload of a resize frame.
pub fn resize_payload(cols: u16, rows: u16) -> (r: Vec<u8>)
    ensures
        r@ == u16_le(cols) + u16_le(rows),
{
    let mut payload: Vec<u8> = Vec::new();
    payload.push((cols % 256) as u8);
    payload.push((cols / 256) as u8);
    payload.push((rows % 256) as u8);
    payload.push((rows / 256) as u8);
    assert(payload@ =~= u16_le(cols) + u16_le(rows));
    payload
}

/// The columns and rows in the payload of a resize frame.
pub open spec fn size_in(payload: Seq<u8>) -> Option<(u16, u16)> {
    if payload.len() == 4 {
        Some((u16_of_le(payload.subrange(0, 2)), u16_of_le(payload.subrange(2, 4))))
    } else {
        None
    }
}

/// Reads the payload of a resize frame. `None` where it has not four bytes.
pub fn read_resize_payload(payload: &[u8]) -> (r: Option<(u16, u16)>)
    ensures
        r == size_in(payload@),
{
    if payload.len() != 4 {
        return None;
    }
    let cols: u16 = payload[0] as u16 + 256 * (payload[1] as u16);
    let rows: u16 = payload[2] as u16 + 256 * (payload[3] as u16);
    Some((cols, rows))
}

/// The broker reads the size that a client sent.
pub proof fn law_resize_round_trip(cols: u16, rows: u16)
    ensures
        size_in(u16_le(cols) + u16_le(rows)) == Some((cols, rows)),
{
    let payload = u16_le(cols) + u16_le(rows);
    assert(payload.subrange(0, 2) =~= u16_le(cols));
    assert(payload.subrange(2, 4) =~= u16_le(rows));
}

/// A frame is its kind, the length of its payload in four bytes, the lowest first, and the payload.
pub proof fn law_frame_layout(kind: u8, payload: Seq<u8>)
    requires
        payload.len() <= u32::MAX,
    ensures
        ({
            let s = frame_bytes(kind, payload);
            &&& s.len() == 5 + payload.len()
            &&& s[0] == kind
            &&& s[1] + 256 * s[2] + 65536 * s[3] + 16777216 * s[4] == payload.len()
            &&& s.subrange(5, s.len() as int) == payload
        }),
{
    let x = payload.len() as u32;
    assert(x / 256 / 256 == x / 65536);
    assert(x / 65536 / 256 == x / 16777216);
    let s = frame_bytes(kind, payload);
    assert(s.subrange(5, s.len() as int) =~= payload);
}

/// A frame is read by its layout: five bytes of header, then as many bytes as the header says, of
/// which there are at most eight mebibytes. What follows does not count.
pub proof fn law_frame_is_read_by_its_layout(s: Seq<u8>)
    ensures
        s.len() < 5 ==> frame_at(s) == Ok::<Option<(u8, Seq<u8>)>, FrameError>(None),
        s.len() >= 5 ==> ({
            let n = s[1] + 256 * s[2] + 65536 * s[3] + 16777216 * s[4];
            &&& announced_len(s) == n
            &&& n > 8388608 ==> frame_at(s) == Err::<Option<(u8, Seq<u8>)>, FrameError>(
                FrameError::PayloadTooLarge,
            )
            &&& n <= 8388608 && s.len() < 5 + n ==> frame_at(s) == Err::<
                Option<(u8, Seq<u8>)>,
                FrameError,
            >(FrameError::UnexpectedEof)
            &&& n <= 8388608 && s.len() >= 5 + n ==> frame_at(s) == Ok::<
                Option<(u8, Seq<u8>)>,
                FrameError,
            >(Some((s[0], s.subrange(5, 5 + n))))
        }),
        MAX_PAYLOAD == 8388608,
        HEADER_LEN == 5,
{
}

/// A size is sent as its columns and its rows, each in two bytes, the lower first; an exit code in
/// four bytes, the lowest first, a negative one as its two's complement.
pub proof fn law_payload_layout(cols: u16, rows: u16, code: i32, bits: u32)
    ensures
        ({
            let size = u16_le(cols) + u16_le(rows);
            let exit = u32_le(to_unsigned(code));
            let sum = exit[0] + 256 * exit[1] + 65536 * exit[2] + 16777216 * exit[3];
            &&& size.len() == 4 && exit.len() == 4
            &&& size[0] + 256 * size[1] == cols && size[2] + 256 * size[3] == rows
            &&& code >= 0 ==> sum == code
            &&& code < 0 ==> sum == code + 0x1_0000_0000
        }),
        bits <= 0x7fff_ffff ==> to_signed(bits) == bits,
        bits > 0x7fff_ffff ==> to_signed(bits) == bits - 0x1_0000_0000,
{
    let x = to_unsigned(code);
    assert(x / 256 / 256 == x / 65536);
    assert(x / 65536 / 256 == x / 16777216);
}

/// Payloads of sizes and exit codes have four bytes, and each four bytes are read by their layout.
pub proof fn law_payloads_are_read_by_their_layout(s: Seq<u8>)
    ensures
        s.len() != 4 ==> size_in(s) is None && exit_code_in(s) is None,
        s.len() == 4 ==> ({
            let sum = s[0] + 256 * s[1] + 65536 * s[2] + 16777216 * s[3];
            &&& size_in(s) matches Some((cols, rows))
            &&& cols == s[0] + 256 * s[1] && rows == s[2] + 256 * s[3]
            &&& exit_code_in(s) matches Some(code)
            &&& code == (if sum <= 0x7fff_ffff {
                sum
            } else {
                sum - 0x1_0000_0000
            })
        }),
{
}

/// The end of a connection is told from an error: before a header, an early end, a reset and an
/// abort are the end; inside a payload, nothing is.
pub proof fn law_end_of_connection(failure: ReadFailure)
    ensures
        ends_connection(true, ReadFailure::UnexpectedEof),
        ends_connection(true, ReadFailure::ConnectionReset),
        ends_connection(true, ReadFailure::ConnectionAborted),
        !ends_connection(true, ReadFailure::Other),
        !ends_connection(false, failure),
{
}

/// The kinds of frames differ from each other, and have the numbers that both sides know.
pub proof fn law_frame_kinds()
    ensures
        FRAME_STDOUT == 1,
        FRAME_EXIT == 2,
        FRAME_STDIN == 10,
        FRAME_RESIZE == 11,
        FRAME_DETACH == 12,
{
}

} // verus!
