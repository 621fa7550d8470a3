//! The tracker service: one datagram in, at most one datagram out.
use vstd::prelude::*;
use crate::codec::{
    be16, be32, decode_outcome, decode_request, encode_register_response,
    encode_resolve_response, register_response, resolve_response, Request, COMMAND_REGISTER,
    COMMAND_RESOLVE, RESPONSE_CAPACITY, request_in, Registration,
};
use crate::signature::{check_signature, signature_ok};
use crate::store::{live_view, saved, AddressTable, DEFAULT_TTL};

verus! {

/// A tracker that listens on one UDP address.
pub struct Server {
    pub listen_address: String,
}

impl Server {
    pub fn new(listen_address: &str) -> (r: Server)
        ensures
            r.listen_address@ == listen_address@,
    {
        Server { listen_address: listen_address.to_owned() }
    }
}

/// Uppercase hexadecimal digit of `d < 16`.
pub open spec fn hex_digit(d: u8) -> char {
    if d < 10 { (48 + d) as char } else { (55 + d) as char }
}

/// Two uppercase hexadecimal digits per byte, most significant first.
pub open spec fn hex_of(s: Seq<u8>) -> Seq<char>
    decreases s.len(),
{
    if s.len() == 0 {
        Seq::empty()
    } else {
        hex_of(s.drop_last()) + seq![hex_digit(s.last() / 16), hex_digit(s.last() % 16)]
    }
}

/// Relies on std's `String::push`: appends one character.
#[verifier::external_body]
fn push_char(s: &mut String, c: char)
    ensures
        final(s)@ == old(s)@.push(c),
{
    s.push(c)
}

fn digit(d: u8) -> (r: char)
    requires
        d < 16,
    ensures
        r == hex_digit(d),
{
    if d < 10 { (48 + d) as char } else { (55 + d) as char }
}

/// Converts bytes to uppercase hexadecimal.
pub fn to_hex(buf: &[u8]) -> (r: String)
    ensures
        r@ == hex_of(buf@),
{
    let mut result = String::new();
    let mut i: usize = 0;
    while i < buf.len()
        invariant
            i <= buf@.len(),
            result@ == hex_of(buf@.subrange(0, i as int)),
        decreases buf@.len() - i,
    {
        let b = buf[i];
        push_char(&mut result, digit(b / 16));
        push_char(&mut result, digit(b % 16));
        assert(buf@.subrange(0, i + 1).drop_last() =~= buf@.subrange(0, i as int));
        i = i + 1;
        assert(result@ =~= hex_of(buf@.subrange(0, i as int)));
    }
    assert(buf@.subrange(0, buf@.len() as int) =~= buf@);
    result
}

/// What the service does with one datagram.
pub enum Step {
    /// The datagram does not decode: drop it.
    Drop,
    /// A registration whose signature does not check: drop it.
    Reject(Registration),
    /// A registration whose signature checks: save it and reply with the TTL.
    Save(Registration),
    /// A resolve: reply with the live addresses of `identity`.
    Resolve { nonce: u32, identity: Vec<u8> },
}

/// Decides what to do with a datagram: decode it and, for a registration,
/// check the signature over the address with the identity as the key.
pub fn next_step(data: &[u8]) -> (r: Step)
    ensures
        decode_outcome(data@) is Err ==> r is Drop,
        decode_outcome(data@) is Ok && data@[5] == COMMAND_REGISTER ==> if signature_ok(
            data@.subrange(6, 38),
            data@.subrange(61, 125),
            data@.subrange(45, 61),
        ) {
            r matches Step::Save(g) && request_in(Request::Register(g), data@)
        } else {
            r matches Step::Reject(g) && request_in(Request::Register(g), data@)
        },
        decode_outcome(data@) is Ok && data@[5] == COMMAND_RESOLVE ==> (r matches Step::Resolve {
            nonce,
            identity,
        } && nonce as int == be32(data@, 1) && identity@ == data@.subrange(6, 38)),
{
    match decode_request(data) {
        Err(_) => Step::Drop,
        Ok(Request::Register(g)) => {
            if check_signature(g.identity.as_slice(), g.signature.as_slice(), g.address.as_slice()) {
                Step::Save(g)
            } else {
                Step::Reject(g)
            }
        },
        Ok(Request::Resolve { nonce, identity }) => Step::Resolve { nonce, identity },
    }
}

/// Handles one request datagram received at `now` and returns the response
/// datagram, or `None` where the datagram is dropped: it does not decode, or
/// it is a registration whose signature over the address does not check.
pub fn process_message(store: &mut AddressTable, data: &[u8], now: u64) -> (r: Option<Vec<u8>>)
    requires
        old(store).wf(),
    ensures
        final(store).wf(),
        r matches Some(v) ==> v@.len() <= RESPONSE_CAPACITY,
        decode_outcome(data@) is Err ==> r is None && final(store).rows() == old(store).rows(),
        decode_outcome(data@) is Ok && data@[5] == COMMAND_REGISTER ==> {
            let identity = data@.subrange(6, 38);
            let address = data@.subrange(45, 61);
            let signature = data@.subrange(61, 125);
            if signature_ok(identity, signature, address) {
                &&& r matches Some(v) && v@ == register_response(be32(data@, 1) as u32, DEFAULT_TTL)
                &&& saved(
                    old(store).rows(),
                    final(store).rows(),
                    identity,
                    address,
                    signature,
                    be16(data@, 38) as u16,
                    data@[40],
                    be32(data@, 41) as u32,
                    now,
                )
            } else {
                r is None && final(store).rows() == old(store).rows()
            }
        },
        decode_outcome(data@) is Ok && data@[5] == COMMAND_RESOLVE ==> {
            &&& r matches Some(v) && v@ == resolve_response(
                be32(data@, 1) as u32,
                live_view(old(store).rows(), data@.subrange(6, 38), now),
            )
            &&& final(store).rows() == old(store).rows()
        },
{
    match next_step(data) {
        Step::Drop => None,
        Step::Reject(_) => None,
        Step::Save(g) => {
            let ttl = store.save_address(
                g.identity.as_slice(),
                g.address.as_slice(),
                g.signature.as_slice(),
                g.port,
                g.priority,
                g.client,
                now,
            );
            Some(encode_register_response(g.nonce, ttl))
        },
        Step::Resolve { nonce, identity } => {
            let results = store.get_addresses(identity.as_slice(), now);
            Some(encode_resolve_response(nonce, &results))
        },
    }
}

} // verus!
