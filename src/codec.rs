//! The binary wire protocol: strict decoding of requests and encoding of
//! responses, big-endian throughout.
use vstd::prelude::*;
use crate::store::{Addr, AddrView};

verus! {

/// Length of the header common to every request:
/// version (1), nonce (4), command (1), identity (32).
pub const HEADER_LEN: usize = 38;
/// Length of a complete register request: the header, then port (2),
/// priority (1), client tag (4), address (16) and signature (64).
pub const REGISTER_LEN: usize = 125;
pub const IDENTITY_LEN: usize = 32;
pub const ADDRESS_LEN: usize = 16;
pub const SIGNATURE_LEN: usize = 64;
pub const COMMAND_REGISTER: u8 = 0;
pub const COMMAND_RESOLVE: u8 = 1;

pub open spec fn be16(s: Seq<u8>, i: int) -> int {
    s[i] * 256 + s[i + 1]
}

pub open spec fn be32(s: Seq<u8>, i: int) -> int {
    s[i] * 16777216 + s[i + 1] * 65536 + s[i + 2] * 256 + s[i + 3]
}

/// Big-endian bytes of a `u16`.
pub open spec fn u16_bytes(v: u16) -> Seq<u8> {
    seq![(v / 256) as u8, (v % 256) as u8]
}

/// Big-endian bytes of a `u32`.
pub open spec fn u32_bytes(v: u32) -> Seq<u8> {
    seq![(v / 16777216) as u8, ((v / 65536) % 256) as u8, ((v / 256) % 256) as u8, (v % 256) as u8]
}

/// Big-endian bytes of a `u64`.
pub open spec fn u64_bytes(v: u64) -> Seq<u8> {
    seq![
        (v / 0x100000000000000) as u8,
        ((v / 0x1000000000000) % 256) as u8,
        ((v / 0x10000000000) % 256) as u8,
        ((v / 0x100000000) % 256) as u8,
        ((v / 0x1000000) % 256) as u8,
        ((v / 0x10000) % 256) as u8,
        ((v / 0x100) % 256) as u8,
        (v % 256) as u8,
    ]
}

fn read_u16(data: &[u8], i: usize) -> (r: u16)
    requires
        i + 2 <= data@.len(),
    ensures
        r as int == be16(data@, i as int),
{
    (data[i] as u16) * 256 + data[i + 1] as u16
}

fn read_u32(data: &[u8], i: usize) -> (r: u32)
    requires
        i + 4 <= data@.len(),
    ensures
        r as int == be32(data@, i as int),
{
    (data[i] as u32) * 16777216 + (data[i + 1] as u32) * 65536 + (data[i + 2] as u32) * 256
        + data[i + 3] as u32
}

/// Copies `data[start..end]` into a fresh vector.
fn copy_range(data: &[u8], start: usize, end: usize) -> (r: Vec<u8>)
    requires
        start <= end <= data@.len(),
    ensures
        r@ == data@.subrange(start as int, end as int),
{
    let mut r: Vec<u8> = Vec::new();
    let mut i: usize = start;
    while i < end
        invariant
            start <= i <= end <= data@.len(),
            r@ == data@.subrange(start as int, i as int),
        decreases end - i,
    {
        r.push(data[i]);
        i = i + 1;
        assert(r@ == data@.subrange(start as int, i as int));
    }
    r
}

fn push_u16(out: &mut Vec<u8>, v: u16)
    ensures
        final(out)@ == old(out)@ + u16_bytes(v),
{
    out.push((v / 256) as u8);
    out.push((v % 256) as u8);
    assert(out@ =~= old(out)@ + u16_bytes(v));
}

fn push_u32(out: &mut Vec<u8>, v: u32)
    ensures
        final(out)@ == old(out)@ + u32_bytes(v),
{
    out.push((v / 16777216) as u8);
    out.push(((v / 65536) % 256) as u8);
    out.push(((v / 256) % 256) as u8);
    out.push((v % 256) as u8);
    assert(out@ =~= old(out)@ + u32_bytes(v));
}

fn push_u64(out: &mut Vec<u8>, v: u64)
    ensures
        final(out)@ == old(out)@ + u64_bytes(v),
{
    out.push((v / 0x100000000000000) as u8);
    out.push(((v / 0x1000000000000) % 256) as u8);
    out.push(((v / 0x10000000000) % 256) as u8);
    out.push(((v / 0x100000000) % 256) as u8);
    out.push(((v / 0x1000000) % 256) as u8);
    out.push(((v / 0x10000) % 256) as u8);
    out.push(((v / 0x100) % 256) as u8);
    out.push((v % 256) as u8);
    assert(out@ =~= old(out)@ + u64_bytes(v));
}

fn push_all(out: &mut Vec<u8>, bytes: &Vec<u8>)
    ensures
        final(out)@ == old(out)@ + bytes@,
{
    let mut i: usize = 0;
    while i < bytes.len()
        invariant
            i <= bytes@.len(),
            out@ == old(out)@ + bytes@.subrange(0, i as int),
        decreases bytes@.len() - i,
    {
        out.push(bytes[i]);
        i = i + 1;
        assert(out@ =~= old(out)@ + bytes@.subrange(0, i as int));
    }
    assert(bytes@.subrange(0, bytes@.len() as int) =~= bytes@);
}

/// A signed request to store `address` under `identity`.
pub struct Registration {
    pub nonce: u32,
    pub identity: Vec<u8>,
    pub port: u16,
    pub priority: u8,
    pub client: u32,
    pub address: Vec<u8>,
    pub signature: Vec<u8>,
}

/// A decoded request.
pub enum Request {
    Register(Registration),
    Resolve { nonce: u32, identity: Vec<u8> },
}

/// Why a datagram was not a request.
#[derive(Clone, Copy, Debug, PartialEq, Eq, Structural)]
pub enum DecodeError {
    /// The datagram ends before a field that its command needs.
    Truncated,
    /// The command byte is neither register nor resolve.
    UnknownCommand,
}

/// The command byte of a datagram that holds a whole header.
pub open spec fn command_of(data: Seq<u8>) -> u8 {
    data[5]
}

/// What `decode_request` returns on `data`: `Ok` exactly on a register
/// request of at least `REGISTER_LEN` bytes or a resolve request of at least
/// `HEADER_LEN` bytes.
pub open spec fn decode_outcome(data: Seq<u8>) -> Result<(), DecodeError> {
    if data.len() < HEADER_LEN {
        Err(DecodeError::Truncated)
    } else if command_of(data) == COMMAND_REGISTER {
        if data.len() < REGISTER_LEN {
            Err(DecodeError::Truncated)
        } else {
            Ok(())
        }
    } else if command_of(data) == COMMAND_RESOLVE {
        Ok(())
    } else {
        Err(DecodeError::UnknownCommand)
    }
}

/// `req` holds the fields that the wire format places in `data`.
pub open spec fn request_in(req: Request, data: Seq<u8>) -> bool {
    match req {
        Request::Register(g) => {
            &&& command_of(data) == COMMAND_REGISTER
            &&& g.nonce as int == be32(data, 1)
            &&& g.identity@ == data.subrange(6, 38)
            &&& g.port as int == be16(data, 38)
            &&& g.priority == data[40]
            &&& g.client as int == be32(data, 41)
            &&& g.address@ == data.subrange(45, 61)
            &&& g.signature@ == data.subrange(61, 125)
        },
        Request::Resolve { nonce, identity } => {
            &&& command_of(data) == COMMAND_RESOLVE
            &&& nonce as int == be32(data, 1)
            &&& identity@ == data.subrange(6, 38)
        },
    }
}

/// Decodes one request datagram. Bytes after the last field are ignored.
pub fn decode_request(data: &[u8]) -> (r: Result<Request, DecodeError>)
    ensures
        match r {
            Ok(req) => decode_outcome(data@) == Ok::<(), DecodeError>(()) && request_in(req, data@),
            Err(e) => decode_outcome(data@) == Err::<(), DecodeError>(e),
        },
{
    if data.len() < HEADER_LEN {
        return Err(DecodeError::Truncated);
    }
    let nonce = read_u32(data, 1);
    let command = data[5];
    let identity = copy_range(data, 6, 38);
    if command == COMMAND_REGISTER {
        if data.len() < REGISTER_LEN {
            return Err(DecodeError::Truncated);
        }
        let port = read_u16(data, 38);
        let priority = data[40];
        let client = read_u32(data, 41);
        let address = copy_range(data, 45, 61);
        let signature = copy_range(data, 61, 125);
        Ok(Request::Register(Registration { nonce, identity, port, priority, client, address, signature }))
    } else if command == COMMAND_RESOLVE {
        Ok(Request::Resolve { nonce, identity })
    } else {
        Err(DecodeError::UnknownCommand)
    }
}

/// A register request cut anywhere before the end of its signature does not
/// decode.
pub proof fn lemma_truncated_register_rejected(data: Seq<u8>)
    requires
        data.len() < REGISTER_LEN,
        data.len() > 5 ==> command_of(data) == COMMAND_REGISTER,
    ensures
        decode_outcome(data) == Err::<(), DecodeError>(DecodeError::Truncated),
{
}

/// The response to a register request: the echoed nonce and command, then the
/// granted TTL.
pub open spec fn register_response(nonce: u32, ttl: u64) -> Seq<u8> {
    u32_bytes(nonce) + seq![COMMAND_REGISTER] + u64_bytes(ttl)
}

pub fn encode_register_response(nonce: u32, ttl: u64) -> (r: Vec<u8>)
    ensures
        r@ == register_response(nonce, ttl),
{
    let mut out: Vec<u8> = Vec::new();
    push_u32(&mut out, nonce);
    out.push(COMMAND_REGISTER);
    push_u64(&mut out, ttl);
    assert(out@ =~= register_response(nonce, ttl));
    out
}

/// Capacity of a response datagram.
pub const RESPONSE_CAPACITY: usize = 1024;
/// Length of one address in a resolve response: address (16), signature (64),
/// port (2), priority (1), client tag (4), TTL (8).
pub const RECORD_LEN: usize = 95;
/// The most addresses that fit in one resolve response after its six header
/// bytes.
pub const MAX_RESOLVE_RECORDS: usize = (RESPONSE_CAPACITY - 6) / RECORD_LEN;

pub open spec fn record_bytes(a: AddrView) -> Seq<u8> {
    a.ip + a.signature + u16_bytes(a.port) + seq![a.priority] + u32_bytes(a.client) + u64_bytes(
        a.ttl,
    )
}

pub open spec fn records_bytes(s: Seq<AddrView>) -> Seq<u8>
    decreases s.len(),
{
    if s.len() == 0 {
        Seq::empty()
    } else {
        records_bytes(s.drop_last()) + record_bytes(s.last())
    }
}

/// How many of `n` addresses a resolve response carries.
pub open spec fn resolve_count(n: int) -> int {
    if n <= MAX_RESOLVE_RECORDS { n } else { MAX_RESOLVE_RECORDS as int }
}

/// The response to a resolve request: the echoed nonce and command, the count,
/// then the first `count` addresses.
pub open spec fn resolve_response(nonce: u32, addrs: Seq<AddrView>) -> Seq<u8> {
    let n = resolve_count(addrs.len() as int);
    u32_bytes(nonce) + seq![COMMAND_RESOLVE, n as u8] + records_bytes(addrs.take(n))
}

/// Every address is 16 bytes and every signature 64.
pub open spec fn records_sized(s: Seq<AddrView>) -> bool {
    forall|k: int| 0 <= k < s.len() ==> (#[trigger] s[k]).ip.len() == ADDRESS_LEN && s[k].signature.len() == SIGNATURE_LEN
}

proof fn lemma_records_len(s: Seq<AddrView>)
    requires
        records_sized(s),
    ensures
        records_bytes(s).len() == RECORD_LEN * s.len(),
    decreases s.len(),
{
    if s.len() > 0 {
        assert(records_sized(s.drop_last()));
        lemma_records_len(s.drop_last());
        assert(s.last() == s[s.len() - 1]);
    }
}

/// A resolve response of addresses of the wire sizes fits in a response
/// datagram, however many addresses there are.
pub proof fn lemma_resolve_response_fits(nonce: u32, addrs: Seq<AddrView>)
    requires
        records_sized(addrs),
    ensures
        resolve_response(nonce, addrs).len() <= RESPONSE_CAPACITY,
{
    let n = resolve_count(addrs.len() as int);
    let taken = addrs.take(n);
    assert(records_sized(taken)) by {
        assert forall|k: int| 0 <= k < taken.len() implies (#[trigger] taken[k]).ip.len() == ADDRESS_LEN
            && taken[k].signature.len() == SIGNATURE_LEN by {
            assert(taken[k] == addrs[k]);
        };
    };
    lemma_records_len(taken);
    assert(MAX_RESOLVE_RECORDS == 10);
    assert(RECORD_LEN * taken.len() <= 950) by (nonlinear_arith)
        requires
            taken.len() <= 10,
            RECORD_LEN == 95,
    ;
}

pub fn encode_resolve_response(nonce: u32, addrs: &Vec<Addr>) -> (r: Vec<u8>)
    ensures
        r@ == resolve_response(nonce, addrs@.map_values(|a: Addr| a@)),
        records_sized(addrs@.map_values(|a: Addr| a@)) ==> r@.len() <= RESPONSE_CAPACITY,
{
    let ghost views = addrs@.map_values(|a: Addr| a@);
    let n: usize = if addrs.len() <= MAX_RESOLVE_RECORDS { addrs.len() } else { MAX_RESOLVE_RECORDS };
    let mut out: Vec<u8> = Vec::new();
    push_u32(&mut out, nonce);
    out.push(COMMAND_RESOLVE);
    out.push(n as u8);
    let ghost head = out@;
    let mut i: usize = 0;
    while i < n
        invariant
            n <= addrs@.len(),
            i <= n,
            views == addrs@.map_values(|a: Addr| a@),
            out@ == head + records_bytes(views.take(i as int)),
        decreases n - i,
    {
        let a = &addrs[i];
        push_all(&mut out, &a.ip);
        push_all(&mut out, &a.signature);
        push_u16(&mut out, a.port);
        out.push(a.priority);
        push_u32(&mut out, a.client);
        push_u64(&mut out, a.ttl);
        assert(views.take(i + 1).drop_last() =~= views.take(i as int));
        assert(views.take(i + 1).last() == a@);
        i = i + 1;
        assert(out@ =~= head + records_bytes(views.take(i as int)));
    }
    assert(out@ =~= resolve_response(nonce, views));
    proof {
        if records_sized(views) {
            lemma_resolve_response_fits(nonce, views);
        }
    }
    out
}

} // verus!
