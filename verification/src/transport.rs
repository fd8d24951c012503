use vstd::prelude::*;
use vstd::string::*;

use crate::config::{str_eq, BusConfig};

verus! {

/// Why a byte buffer does not start with one complete adapter frame.
#[derive(Debug, Clone, Copy, PartialEq, Eq, Structural)]
pub enum FrameError {
    /// Fewer than the 8 bytes a frame header needs.
    TooShort,
    /// The first two bytes are not `AT`.
    BadPrefix,
    /// The length byte announces more data than the buffer holds.
    Incomplete,
    /// The frame does not end in `\r\n`.
    BadTermination,
}

/// The 29-bit extended CAN identifier mask.
pub open spec fn can_id_mask() -> u32 {
    0x1FFF_FFFFu32
}

/// The 32-bit address word the adapter expects: the identifier shifted
/// left by three with the "extended frame" bit (bit 2) set.
pub open spec fn address_word(id: u32) -> u32 {
    (id << 3u32) | 4u32
}

/// Big-endian bytes of a 32-bit word.
pub open spec fn be_bytes(w: u32) -> Seq<u8> {
    seq![
        ((w >> 24u32) & 0xffu32) as u8,
        ((w >> 16u32) & 0xffu32) as u8,
        ((w >> 8u32) & 0xffu32) as u8,
        (w & 0xffu32) as u8,
    ]
}

/// The 32-bit word whose big-endian bytes are `b[0..4]`.
pub open spec fn be_word(b0: u8, b1: u8, b2: u8, b3: u8) -> u32 {
    ((b0 as u32) << 24u32) | ((b1 as u32) << 16u32) | ((b2 as u32) << 8u32) | (b3 as u32)
}

/// `A`, `T`, carriage return, line feed.
pub open spec fn byte_a() -> u8 { 0x41u8 }
pub open spec fn byte_t() -> u8 { 0x54u8 }
pub open spec fn byte_cr() -> u8 { 0x0du8 }
pub open spec fn byte_lf() -> u8 { 0x0au8 }

/// The bytes sent to the serial CAN adapter for one frame: `AT`, the
/// big-endian address word, the data length (modulo 256), the data, `\r\n`.
pub open spec fn frame_bytes(id: u32, data: Seq<u8>) -> Seq<u8> {
    seq![byte_a(), byte_t()] + be_bytes(address_word(id)) + seq![(data.len() % 256) as u8]
        + data + seq![byte_cr(), byte_lf()]
}

/// What reading one frame from the front of `buf` yields: the 29-bit
/// identifier, the data, and the number of bytes the frame occupies.
pub open spec fn spec_parse_message(buf: Seq<u8>) -> Result<(u32, Seq<u8>, nat), FrameError> {
    if buf.len() < 8 {
        Err(FrameError::TooShort)
    } else if buf[0] != byte_a() || buf[1] != byte_t() {
        Err(FrameError::BadPrefix)
    } else {
        let n = buf[6] as nat;
        let total = 7 + n + 2;
        if buf.len() < total {
            Err(FrameError::Incomplete)
        } else if buf[total - 2] != byte_cr() || buf[total - 1] != byte_lf() {
            Err(FrameError::BadTermination)
        } else {
            let raw = be_word(buf[2], buf[3], buf[4], buf[5]);
            Ok(((raw >> 3u32) & can_id_mask(), buf.subrange(7, 7 + n as int), total))
        }
    }
}

/// Result of parsing, with the data taken by its view.
pub open spec fn parse_result_view(r: Result<(u32, Vec<u8>, usize), FrameError>) -> Result<(u32, Seq<u8>, nat), FrameError> {
    match r {
        Ok((id, data, len)) => Ok((id, data@, len as nat)),
        Err(e) => Err(e),
    }
}

/// Encodes one CAN frame for the serial adapter.
pub fn encode_frame(id: u32, data: &[u8]) -> (out: Vec<u8>)
    ensures
        out@ == frame_bytes(id, data@),
{
    let mut out: Vec<u8> = Vec::new();
    out.push(0x41u8);
    out.push(0x54u8);
    let addr: u32 = (id << 3u32) | 4u32;
    out.push(((addr >> 24u32) & 0xffu32) as u8);
    out.push(((addr >> 16u32) & 0xffu32) as u8);
    out.push(((addr >> 8u32) & 0xffu32) as u8);
    out.push((addr & 0xffu32) as u8);
    let len: usize = data.len();
    let len_byte: u8 = (len % 256) as u8;
    out.push(len_byte);
    let ghost head = out@;
    assert(head == seq![byte_a(), byte_t()] + be_bytes(address_word(id)) + seq![(data@.len() % 256) as u8]);
    let mut i: usize = 0;
    while i < len
        invariant
            i <= len,
            len == data@.len(),
            out@ == head + data@.subrange(0, i as int),
        decreases len - i,
    {
        out.push(data[i]);
        i = i + 1;
        assert(out@ == head + data@.subrange(0, i as int));
    }
    out.push(0x0du8);
    out.push(0x0au8);
    assert(data@.subrange(0, len as int) == data@);
    out
}

/// Reads one frame starting at `buf[start]`.
pub fn parse_message_at(buf: &[u8], start: usize) -> (r: Result<(u32, Vec<u8>, usize), FrameError>)
    requires
        start <= buf@.len(),
    ensures
        parse_result_view(r) == spec_parse_message(buf@.subrange(start as int, buf@.len() as int)),
{
    let ghost s = buf@.subrange(start as int, buf@.len() as int);
    let avail: usize = buf.len() - start;
    if avail < 8 {
        return Err(FrameError::TooShort);
    }
    if buf[start] != 0x41u8 || buf[start + 1] != 0x54u8 {
        return Err(FrameError::BadPrefix);
    }
    let data_len: usize = buf[start + 6] as usize;
    let total: usize = 7 + data_len + 2;
    if avail < total {
        return Err(FrameError::Incomplete);
    }
    if buf[start + total - 2] != 0x0du8 || buf[start + total - 1] != 0x0au8 {
        return Err(FrameError::BadTermination);
    }
    let raw: u32 = ((buf[start + 2] as u32) << 24u32) | ((buf[start + 3] as u32) << 16u32)
        | ((buf[start + 4] as u32) << 8u32) | (buf[start + 5] as u32);
    let id: u32 = (raw >> 3u32) & 0x1FFF_FFFFu32;
    let mut data: Vec<u8> = Vec::new();
    let mut i: usize = 0;
    while i < data_len
        invariant
            i <= data_len,
            start + 7 + data_len <= buf.len(),
            data@ == buf@.subrange(start + 7, start + 7 + i),
        decreases data_len - i,
    {
        data.push(buf[start + 7 + i]);
        i = i + 1;
        assert(data@ == buf@.subrange(start + 7, start + 7 + i));
    }
    assert(data@ == s.subrange(7, 7 + data_len as int));
    Ok((id, data, total))
}

/// Reads one frame from the front of `buf`.
pub fn parse_message(buf: &[u8]) -> (r: Result<(u32, Vec<u8>, usize), FrameError>)
    ensures
        parse_result_view(r) == spec_parse_message(buf@),
{
    let r = parse_message_at(buf, 0);
    assert(buf@.subrange(0, buf@.len() as int) == buf@);
    r
}


/// Every frame the encoder produces reads back, from the front of any buffer
/// that begins with it, as the identifier cut to 29 bits and the same data,
/// occupying exactly the encoded length (data of at most 255 bytes, the
/// largest length the one-byte length field carries).
pub proof fn lemma_parse_encoded_frame(id: u32, data: Seq<u8>, rest: Seq<u8>)
    requires
        data.len() <= 255,
    ensures
        spec_parse_message(frame_bytes(id, data) + rest) == Ok::<(u32, Seq<u8>, nat), FrameError>(
            (id & can_id_mask(), data, data.len() + 9),
        ),
{
    let f = frame_bytes(id, data) + rest;
    let w = address_word(id);
    let n = data.len();
    assert(f.len() == n + 9 + rest.len());
    assert(f[0] == byte_a());
    assert(f[1] == byte_t());
    assert(f[2] == ((w >> 24u32) & 0xffu32) as u8);
    assert(f[3] == ((w >> 16u32) & 0xffu32) as u8);
    assert(f[4] == ((w >> 8u32) & 0xffu32) as u8);
    assert(f[5] == (w & 0xffu32) as u8);
    assert(f[6] == (n % 256) as u8);
    assert((n % 256) as u8 as nat == n);
    assert(f[7 + n as int] == byte_cr());
    assert(f[8 + n as int] == byte_lf());
    assert(f.subrange(7, 7 + n as int) == data);
    assert(be_word(
        ((w >> 24u32) & 0xffu32) as u8,
        ((w >> 16u32) & 0xffu32) as u8,
        ((w >> 8u32) & 0xffu32) as u8,
        (w & 0xffu32) as u8,
    ) == w) by (bit_vector);
    assert(((((id << 3u32) | 4u32) >> 3u32) & 0x1FFF_FFFFu32) == id & 0x1FFF_FFFFu32) by (bit_vector);
}

/// Whether a complete frame starts at `buf[i]` (with its `AT` prefix).
pub open spec fn message_at(buf: Seq<u8>, i: int) -> bool {
    &&& 0 <= i
    &&& i + 1 < buf.len()
    &&& buf[i] == byte_a()
    &&& buf[i + 1] == byte_t()
    &&& spec_parse_message(buf.subrange(i, buf.len() as int)) is Ok
}

/// The number of start positions the receiver tries: `len - 7`, or none.
pub open spec fn scan_limit(len: nat) -> int {
    if len >= 7 { len - 7 } else { 0 }
}

/// The frame starting at `buf[i]` is the leftmost one the receiver finds,
/// and it carries `id` and `data`.
pub open spec fn first_message(buf: Seq<u8>, i: int, id: u32, data: Seq<u8>) -> bool {
    &&& 0 <= i < scan_limit(buf.len())
    &&& message_at(buf, i)
    &&& forall|j: int| 0 <= j < i ==> !message_at(buf, j)
    &&& (spec_parse_message(buf.subrange(i, buf.len() as int)) matches Ok((pid, pdata, _)) && pid == id
        && pdata == data)
}

/// The first frame found scanning `buf` from the left, as the receiver does.
pub fn find_message(buf: &[u8]) -> (r: Option<(u32, Vec<u8>)>)
    ensures
        match r {
            Some((id, data)) => exists|i: int| #[trigger] first_message(buf@, i, id, data@),
            None => forall|i: int| 0 <= i < scan_limit(buf@.len()) ==> !message_at(buf@, i),
        },
{
    let len: usize = buf.len();
    let limit: usize = if len >= 7 { len - 7 } else { 0 };
    let mut i: usize = 0;
    while i < limit
        invariant
            i <= limit,
            limit as int == scan_limit(buf@.len()),
            len == buf@.len(),
            forall|j: int| 0 <= j < i ==> !message_at(buf@, j),
        decreases limit - i,
    {
        if buf[i] == 0x41u8 && buf[i + 1] == 0x54u8 {
            let parsed = parse_message_at(buf, i);
            match parsed {
                Ok((id, data, _total)) => {
                    assert(message_at(buf@, i as int));
                    assert(first_message(buf@, i as int, id, data@));
                    let r = Some((id, data));
                    assert(match r {
                        Some((rid, rdata)) => first_message(buf@, i as int, rid, rdata@),
                        None => false,
                    });
                    return r;
                },
                Err(_) => {},
            }
        }
        assert(!message_at(buf@, i as int));
        i = i + 1;
    }
    None
}

/// A frame the encoder produced is the first frame the receiver finds in it,
/// carrying the identifier cut to 29 bits and the same data: what is sent
/// is what is received.
pub proof fn lemma_encoded_frame_is_found(id: u32, data: Seq<u8>)
    requires
        data.len() <= 255,
    ensures
        first_message(frame_bytes(id, data), 0, id & can_id_mask(), data),
        forall|i: int, rid: u32, rdata: Seq<u8>|
            #[trigger] first_message(frame_bytes(id, data), i, rid, rdata) ==> i == 0 && rid == id & can_id_mask()
                && rdata == data,
{
    let f = frame_bytes(id, data);
    lemma_parse_encoded_frame(id, data, seq![]);
    assert(f + seq![] =~= f);
    assert(f.subrange(0, f.len() as int) =~= f);
    assert(f[0] == byte_a() && f[1] == byte_t());
    assert(message_at(f, 0));
}

/// Size of the receive buffer the serial reader fills.
pub const RECV_BUFFER_LEN: usize = 1024;

/// What the serial receiver does after one read.
#[derive(Debug, PartialEq, Eq)]
pub enum RecvStep {
    /// A frame was found: its identifier and data.
    Frame(u32, Vec<u8>),
    /// The port reported end of stream.
    EndOfStream,
    /// The buffer is nearly full and still holds no frame.
    BufferFull,
    /// Read more bytes and look again.
    ReadMore,
}

/// Decides the receiver's next step once `last_read` more bytes have been
/// appended, `filled` being everything received so far.
pub fn recv_step(filled: &[u8], last_read: usize) -> (r: RecvStep)
    requires
        filled@.len() <= RECV_BUFFER_LEN,
    ensures
        last_read == 0 ==> r == RecvStep::EndOfStream,
        last_read != 0 ==> match r {
            RecvStep::Frame(id, data) => exists|i: int| #[trigger] first_message(filled@, i, id, data@),
            RecvStep::BufferFull => (forall|i: int| 0 <= i < scan_limit(filled@.len()) ==> !message_at(filled@, i))
                && filled@.len() >= RECV_BUFFER_LEN - 8,
            RecvStep::ReadMore => (forall|i: int| 0 <= i < scan_limit(filled@.len()) ==> !message_at(filled@, i))
                && filled@.len() < RECV_BUFFER_LEN - 8,
            RecvStep::EndOfStream => false,
        },
{
    if last_read == 0 {
        return RecvStep::EndOfStream;
    }
    match find_message(filled) {
        Some((id, data)) => {
            let ghost k = choose|k: int| first_message(filled@, k, id, data@);
            let r = RecvStep::Frame(id, data);
            assert(match r {
                RecvStep::Frame(rid, rdata) => first_message(filled@, k, rid, rdata@),
                _ => false,
            });
            r
        },
        None => {
            if filled.len() >= RECV_BUFFER_LEN - 8 {
                RecvStep::BufferFull
            } else {
                RecvStep::ReadMore
            }
        },
    }
}


/// A CAN transport's identity: its kind and the port or interface it uses.
/// (Sending and receiving frames is asynchronous I/O done by the caller.)
pub trait Transport {
    fn kind(&self) -> &'static str;
    fn port(&self) -> String;
}

/// A transport that talks to no hardware and answers every request with
/// one fixed feedback frame.
pub struct StubTransport {
    port_name: String,
}

impl StubTransport {
    /// A stub transport labelled with `port_name`.
    pub fn new(port_name: String) -> (t: StubTransport)
        ensures
            t.port_name() == port_name@,
    {
        StubTransport { port_name }
    }

    /// The label the transport was created with.
    pub closed spec fn port_name(&self) -> Seq<char> {
        self.port_name@
    }

    /// The identifier and data of the frame the stub answers with.
    pub fn reply(&self) -> (r: (u32, Vec<u8>))
        ensures
            r.0 == 0x2000100,
            r.1@ == seq![0x7fu8, 0xfeu8, 0x80u8, 0x73u8, 0x7fu8, 0xffu8, 0x01u8, 0x18u8],
    {
        let mut data: Vec<u8> = Vec::new();
        data.push(0x7fu8);
        data.push(0xfeu8);
        data.push(0x80u8);
        data.push(0x73u8);
        data.push(0x7fu8);
        data.push(0xffu8);
        data.push(0x01u8);
        data.push(0x18u8);
        (0x2000100u32, data)
    }
}

impl Transport for StubTransport {
    fn kind(&self) -> (k: &'static str)
        ensures
            k@ == "Stub"@,
    {
        "Stub"
    }

    fn port(&self) -> (p: String)
        ensures
            p@ == self.port_name(),
    {
        self.port_name.clone()
    }
}

/// Which CAN transport a bus configuration asks for.
pub enum TransportChoice {
    /// Linux SocketCAN on the named interface.
    SocketCan(String),
    /// The serial CAN adapter on the named port.
    Ch341(String),
}

/// The transport for a bus: SocketCAN when the configuration says
/// `socketcan` (on the configured interface, `can0` by default), the serial
/// adapter on the configured port otherwise.
pub fn transport_choice(bus: &BusConfig) -> (c: TransportChoice)
    ensures
        bus.transport@ == "socketcan"@ ==> (c matches TransportChoice::SocketCan(iface) && iface@ == match bus.socketcan_interface {
            Some(i) => i@,
            None => "can0"@,
        }),
        bus.transport@ != "socketcan"@ ==> (c matches TransportChoice::Ch341(port) && port@ == bus.port@),
{
    if str_eq(bus.transport.as_str(), "socketcan") {
        let iface = match &bus.socketcan_interface {
            Some(i) => i.clone(),
            None => String::from_str("can0"),
        };
        TransportChoice::SocketCan(iface)
    } else {
        TransportChoice::Ch341(bus.port.clone())
    }
}

} // verus!
