use crate::id::{MachineID, RawID, RawIDView};
use crate::type_registry::ShortTypeId;
use byteorder::{ByteOrder, LittleEndian, WriteBytesExt};
use vstd::prelude::*;

verus! {

// ---------------------------------------------------------------------------
// Little-endian numbers
// ---------------------------------------------------------------------------
/// The 16-bit number whose two bytes stand at `at`, low byte first.
pub open spec fn le_u16(s: Seq<u8>, at: int) -> int {
    s[at] + 0x100 * s[at + 1]
}

/// The 32-bit number whose four bytes stand at `at`, low byte first.
pub open spec fn le_u32(s: Seq<u8>, at: int) -> int {
    s[at] + 0x100 * s[at + 1] + 0x1_0000 * s[at + 2] + 0x100_0000 * s[at + 3]
}

/// The two bytes of a 16-bit number, low byte first.
pub open spec fn u16_le_bytes(n: u16) -> Seq<u8> {
    seq![(n % 0x100) as u8, (n / 0x100) as u8]
}

/// The four bytes of a 32-bit number, low byte first.
pub open spec fn u32_le_bytes(n: u32) -> Seq<u8> {
    seq![
        (n % 0x100) as u8,
        (n / 0x100 % 0x100) as u8,
        (n / 0x1_0000 % 0x100) as u8,
        (n / 0x100_0000) as u8,
    ]
}

/// Calls `byteorder::LittleEndian::read_u16` on the bytes from `at` on. It
/// reads the first two of them as a number, low byte first, and needs two
/// bytes to be there.
#[verifier::external_body]
pub(crate) fn read_u16_at(buf: &[u8], at: usize) -> (n: u16)
    requires
        at + 2 <= buf@.len(),
    ensures
        n == le_u16(buf@, at as int),
{
    LittleEndian::read_u16(&buf[at..])
}

/// Calls `byteorder::LittleEndian::read_u32` on the bytes from `at` on. It
/// reads the first four of them as a number, low byte first, and needs four
/// bytes to be there.
#[verifier::external_body]
pub(crate) fn read_u32_at(buf: &[u8], at: usize) -> (n: u32)
    requires
        at + 4 <= buf@.len(),
    ensures
        n == le_u32(buf@, at as int),
{
    LittleEndian::read_u32(&buf[at..])
}

/// Calls `byteorder::WriteBytesExt::write_u16` for `LittleEndian` on a
/// vector, which appends the number's two bytes, low byte first. Writing to
/// a vector has no error.
#[verifier::external_body]
pub(crate) fn write_u16_to(buf: &mut Vec<u8>, n: u16)
    ensures
        final(buf)@ == old(buf)@ + u16_le_bytes(n),
{
    let _ = buf.write_u16::<LittleEndian>(n);
}

/// Calls `byteorder::WriteBytesExt::write_u32` for `LittleEndian` on a
/// vector, which appends the number's four bytes, low byte first. Writing to
/// a vector has no error.
#[verifier::external_body]
pub(crate) fn write_u32_to(buf: &mut Vec<u8>, n: u32)
    ensures
        final(buf)@ == old(buf)@ + u32_le_bytes(n),
{
    let _ = buf.write_u32::<LittleEndian>(n);
}

/// A 16-bit number is read back from its bytes wherever they stand.
pub proof fn lemma_u16_round_trip(s: Seq<u8>, at: int, n: u16)
    requires
        0 <= at,
        at + 2 <= s.len(),
        s.subrange(at, at + 2) == u16_le_bytes(n),
    ensures
        le_u16(s, at) == n,
{
    let b = u16_le_bytes(n);
    assert(s[at] == s.subrange(at, at + 2)[0]);
    assert(s[at + 1] == s.subrange(at, at + 2)[1]);
    assert(b[0] == (n % 0x100) as u8 && b[1] == (n / 0x100) as u8);
}

/// A 32-bit number is read back from its bytes wherever they stand.
pub proof fn lemma_u32_round_trip(s: Seq<u8>, at: int, n: u32)
    requires
        0 <= at,
        at + 4 <= s.len(),
        s.subrange(at, at + 4) == u32_le_bytes(n),
    ensures
        le_u32(s, at) == n,
{
    let b = u32_le_bytes(n);
    let t = s.subrange(at, at + 4);
    assert(s[at] == t[0] && s[at + 1] == t[1] && s[at + 2] == t[2] && s[at + 3] == t[3]);
    assert(b[0] == (n % 0x100) as u8 && b[1] == (n / 0x100 % 0x100) as u8 && b[2] == (n / 0x1_0000
        % 0x100) as u8 && b[3] == (n / 0x100_0000) as u8);
}

// ---------------------------------------------------------------------------
// Ids and frames
// ---------------------------------------------------------------------------
/// The eight bytes of an id: instance id, type id, machine, version.
pub open spec fn raw_id_bytes(id: RawIDView) -> Seq<u8> {
    u32_le_bytes(id.instance_id) + u16_le_bytes(id.type_id) + seq![id.machine, id.version]
}

/// The id whose eight bytes stand at `at`.
pub open spec fn raw_id_at(s: Seq<u8>, at: int) -> RawIDView {
    RawIDView {
        instance_id: le_u32(s, at) as u32,
        type_id: le_u16(s, at + 4) as u16,
        machine: s[at + 6],
        version: s[at + 7],
    }
}

/// A frame as it lies in an inbox and on the wire: the message's type, the
/// recipient, then the message.
pub open spec fn frame_bytes(message_type: u16, recipient: RawIDView, payload: Seq<u8>) -> Seq<
    u8,
> {
    u16_le_bytes(message_type) + raw_id_bytes(recipient) + payload
}

/// Whether bytes are a frame that carries a message: long enough for its
/// header, with a message type and a recipient type that are ids.
pub open spec fn is_data_frame(f: Seq<u8>) -> bool {
    f.len() >= 10 && le_u16(f, 0) != 0 && le_u16(f, 6) != 0
}

/// The message type of a frame.
pub open spec fn frame_message_type(f: Seq<u8>) -> u16 {
    le_u16(f, 0) as u16
}

/// The recipient of a frame.
pub open spec fn frame_recipient(f: Seq<u8>) -> RawIDView {
    raw_id_at(f, 2)
}

/// The message of a frame.
pub open spec fn frame_payload(f: Seq<u8>) -> Seq<u8> {
    f.subrange(10, f.len() as int)
}

/// An id is read back from its bytes wherever they stand.
pub proof fn lemma_raw_id_round_trip(s: Seq<u8>, at: int, id: RawIDView)
    requires
        0 <= at,
        at + 8 <= s.len(),
        s.subrange(at, at + 8) == raw_id_bytes(id),
    ensures
        raw_id_at(s, at) == id,
{
    let t = s.subrange(at, at + 8);
    let b = raw_id_bytes(id);
    assert(s.subrange(at, at + 4) =~= t.subrange(0, 4));
    assert(t.subrange(0, 4) =~= u32_le_bytes(id.instance_id));
    assert(s.subrange(at + 4, at + 6) =~= t.subrange(4, 6));
    assert(t.subrange(4, 6) =~= u16_le_bytes(id.type_id));
    lemma_u32_round_trip(s, at, id.instance_id);
    lemma_u16_round_trip(s, at + 4, id.type_id);
    assert(s[at + 6] == t[6] && s[at + 7] == t[7]);
    assert(b[6] == id.machine && b[7] == id.version);
}

/// What was framed is what the frame is read as.
pub proof fn lemma_frame_round_trip(message_type: u16, recipient: RawIDView, payload: Seq<u8>)
    ensures
        frame_bytes(message_type, recipient, payload).len() == 10 + payload.len(),
        frame_message_type(frame_bytes(message_type, recipient, payload)) == message_type,
        frame_recipient(frame_bytes(message_type, recipient, payload)) == recipient,
        frame_payload(frame_bytes(message_type, recipient, payload)) == payload,
        message_type != 0 && recipient.type_id != 0 ==> is_data_frame(
            frame_bytes(message_type, recipient, payload),
        ),
{
    let f = frame_bytes(message_type, recipient, payload);
    assert(f.subrange(0, 2) =~= u16_le_bytes(message_type));
    assert(f.subrange(2, 10) =~= raw_id_bytes(recipient));
    assert(f.subrange(10, f.len() as int) =~= payload);
    lemma_u16_round_trip(f, 0, message_type);
    lemma_raw_id_round_trip(f, 2, recipient);
}

/// Appends the eight bytes of an id.
pub fn write_raw_id(buf: &mut Vec<u8>, id: RawID)
    ensures
        final(buf)@ == old(buf)@ + raw_id_bytes(id@),
{
    write_u32_to(buf, id.instance_id);
    write_u16_to(buf, id.type_id.as_u16());
    buf.push(id.machine.0);
    buf.push(id.version);
    assert(buf@ =~= old(buf)@ + raw_id_bytes(id@));
}

/// Reads the id whose eight bytes stand at `at`; there is none where the
/// type id is zero.
pub fn read_raw_id(buf: &[u8], at: usize) -> (r: Option<RawID>)
    requires
        at + 8 <= buf@.len(),
    ensures
        r is None <==> le_u16(buf@, at + 4) == 0,
        r matches Some(id) ==> id@ == raw_id_at(buf@, at as int),
{
    let _ = buf.len();
    let instance_id = read_u32_at(buf, at);
    let type_number = read_u16_at(buf, at + 4);
    match ShortTypeId::new(type_number) {
        None => None,
        Some(type_id) => Some(
            RawID { instance_id, type_id, machine: MachineID(buf[at + 6]), version: buf[at + 7] },
        ),
    }
}

/// Whether bytes are a frame that carries a message.
pub fn carries_message(buf: &[u8]) -> (b: bool)
    ensures
        b == is_data_frame(buf@),
{
    buf.len() >= 10 && read_u16_at(buf, 0) != 0 && read_u16_at(buf, 6) != 0
}

/// Builds the frame of a message.
pub fn build_frame(message_type: ShortTypeId, recipient: RawID, payload: &[u8]) -> (frame: Vec<
    u8,
>)
    ensures
        frame@ == frame_bytes(message_type@, recipient@, payload@),
        is_data_frame(frame@),
{
    let mut frame: Vec<u8> = Vec::new();
    write_u16_to(&mut frame, message_type.as_u16());
    write_raw_id(&mut frame, recipient);
    frame.extend_from_slice(payload);
    let _ = recipient.type_id.as_u16();
    proof {
        assert(frame@ =~= frame_bytes(message_type@, recipient@, payload@));
        lemma_frame_round_trip(message_type@, recipient@, payload@);
    }
    frame
}

} // verus!
