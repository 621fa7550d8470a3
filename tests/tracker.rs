use ed25519_dalek::{Keypair, PublicKey, SecretKey, Signer};
use mimir_tracker::codec::{
    decode_request, encode_register_response, encode_resolve_response, DecodeError, Request,
    MAX_RESOLVE_RECORDS,
};
use mimir_tracker::server::{next_step, process_message, to_hex, Server, Step};
use mimir_tracker::signature::check_signature;
use mimir_tracker::store::{
    get_utc_time, live_addr, write_kind, write_ttl, Addr, AddressTable, Storage, WriteKind, DEFAULT_TTL,
    RESOLVE_TTL,
};

const ADDRESS: [u8; 16] = [0x20, 0x01, 0x0d, 0xb8, 0, 0, 0, 0, 0, 0, 0, 0, 0, 0, 0, 1];

fn keypair(seed: u8) -> Keypair {
    let secret = SecretKey::from_bytes(&[seed; 32]).unwrap();
    let public: PublicKey = (&secret).into();
    Keypair { secret, public }
}

fn register_datagram(kp: &Keypair, nonce: u32, port: u16, priority: u8, client: u32, ip: &[u8; 16], signed: &[u8]) -> Vec<u8> {
    let mut d = vec![1u8];
    d.extend_from_slice(&nonce.to_be_bytes());
    d.push(0);
    d.extend_from_slice(&kp.public.to_bytes());
    d.extend_from_slice(&port.to_be_bytes());
    d.push(priority);
    d.extend_from_slice(&client.to_be_bytes());
    d.extend_from_slice(ip);
    d.extend_from_slice(&kp.sign(signed).to_bytes());
    d
}

fn resolve_datagram(identity: &[u8], nonce: u32) -> Vec<u8> {
    let mut d = vec![1u8];
    d.extend_from_slice(&nonce.to_be_bytes());
    d.push(1);
    d.extend_from_slice(identity);
    d
}

#[test]
fn register_then_resolve_scenario() {
    let kp = keypair(7);
    let mut table = AddressTable::new();
    let reg = register_datagram(&kp, 0xDEADBEEF, 5050, 3, 9, &ADDRESS, &ADDRESS);
    let resp = process_message(&mut table, &reg, 1_000).expect("registration accepted");
    assert_eq!(resp, vec![0xDE, 0xAD, 0xBE, 0xEF, 0, 0, 0, 0, 0, 0, 0x01, 0x51, 0x80]);

    let res = process_message(&mut table, &resolve_datagram(&kp.public.to_bytes(), 42), 1_001).unwrap();
    assert_eq!(res.len(), 6 + 95);
    assert_eq!(&res[..6], &[0, 0, 0, 42, 1, 1]);
    assert_eq!(&res[6..22], &ADDRESS);
    assert_eq!(&res[22..86], &kp.sign(&ADDRESS).to_bytes()[..]);
    assert_eq!(&res[86..88], &[0x13, 0xBA]);
    assert_eq!(res[88], 3);
    assert_eq!(&res[89..93], &[0, 0, 0, 9]);
    assert_eq!(&res[93..101], &[0, 0, 0, 0, 0, 0, 0, 30]);
}

#[test]
fn resolve_unknown_identity_is_empty() {
    let mut table = AddressTable::new();
    let res = process_message(&mut table, &resolve_datagram(&[5u8; 32], 7), 10).unwrap();
    assert_eq!(res, vec![0, 0, 0, 7, 1, 0]);
}

#[test]
fn signature_over_other_payload_is_rejected() {
    let kp = keypair(3);
    let mut table = AddressTable::new();
    let other = [9u8; 16];
    let reg = register_datagram(&kp, 1, 5050, 0, 0, &ADDRESS, &other);
    assert_eq!(process_message(&mut table, &reg, 10), None);
    let res = process_message(&mut table, &resolve_datagram(&kp.public.to_bytes(), 2), 10).unwrap();
    assert_eq!(res, vec![0, 0, 0, 2, 1, 0]);
}

#[test]
fn truncated_register_is_dropped() {
    let kp = keypair(4);
    let mut table = AddressTable::new();
    let reg = register_datagram(&kp, 1, 5050, 0, 0, &ADDRESS, &ADDRESS);
    for cut in [0usize, 5, 37, 38, 61, 124] {
        assert!(matches!(decode_request(&reg[..cut]), Err(DecodeError::Truncated)));
        assert_eq!(process_message(&mut table, &reg[..cut], 10), None);
    }
    let res = process_message(&mut table, &resolve_datagram(&kp.public.to_bytes(), 2), 10).unwrap();
    assert_eq!(res[5], 0);
}

#[test]
fn unknown_command_is_dropped() {
    let mut d = resolve_datagram(&[1u8; 32], 3);
    d[5] = 2;
    assert!(matches!(decode_request(&d), Err(DecodeError::UnknownCommand)));
    let mut table = AddressTable::new();
    assert_eq!(process_message(&mut table, &d, 0), None);
}

#[test]
fn decode_register_fields() {
    let kp = keypair(8);
    let reg = register_datagram(&kp, 0x01020304, 0x1234, 5, 0x0A0B0C0D, &ADDRESS, &ADDRESS);
    match decode_request(&reg) {
        Ok(Request::Register(g)) => {
            assert_eq!(g.nonce, 0x01020304);
            assert_eq!(g.identity, kp.public.to_bytes().to_vec());
            assert_eq!(g.port, 0x1234);
            assert_eq!(g.priority, 5);
            assert_eq!(g.client, 0x0A0B0C0D);
            assert_eq!(g.address, ADDRESS.to_vec());
            assert_eq!(g.signature, kp.sign(&ADDRESS).to_bytes().to_vec());
        }
        _ => panic!("expected a registration"),
    }
}

#[test]
fn reregistration_updates_in_place() {
    let kp = keypair(5);
    let mut table = AddressTable::new();
    let first = register_datagram(&kp, 1, 5050, 1, 77, &ADDRESS, &ADDRESS);
    let second = register_datagram(&kp, 2, 6060, 9, 88, &ADDRESS, &ADDRESS);
    assert!(process_message(&mut table, &first, 100).is_some());
    assert!(process_message(&mut table, &second, 200).is_some());
    let found = table.get_addresses(&kp.public.to_bytes(), 200);
    assert_eq!(found.len(), 1);
    assert_eq!(found[0].ip, ADDRESS.to_vec());
    assert_eq!(found[0].port, 6060);
    assert_eq!(found[0].priority, 9);
    assert_eq!(found[0].client, 77);
}

#[test]
fn expired_record_is_hidden_and_can_be_renewed() {
    let id = [1u8; 32];
    let mut table = AddressTable::new();
    assert_eq!(table.save_address(&id, &ADDRESS, &[0u8; 64], 5050, 0, 0, 1_000), DEFAULT_TTL);
    assert_eq!(table.get_addresses(&id, 1_000 + DEFAULT_TTL).len(), 1);
    assert_eq!(table.get_addresses(&id, 1_000 + DEFAULT_TTL + 1).len(), 0);
    assert_eq!(table.save_address(&id, &ADDRESS, &[0u8; 64], 7070, 0, 0, 200_000), DEFAULT_TTL);
    let found = table.get_addresses(&id, 200_000);
    assert_eq!(found.len(), 1);
    assert_eq!(found[0].port, 7070);
    assert_eq!(found[0].ttl, RESOLVE_TTL);
}

#[test]
fn several_addresses_per_identity() {
    let id = [2u8; 32];
    let mut table = AddressTable::new();
    let other = [0xfe, 0x80, 0, 0, 0, 0, 0, 0, 0, 0, 0, 0, 0, 0, 0, 2];
    table.save_address(&id, &ADDRESS, &[1u8; 64], 1, 0, 0, 10);
    table.save_address(&id, &other, &[2u8; 64], 2, 0, 0, 10);
    table.save_address(&[3u8; 32], &ADDRESS, &[3u8; 64], 3, 0, 0, 10);
    let found = table.get_addresses(&id, 10);
    assert_eq!(found.len(), 2);
    assert_eq!(found[0].ip, ADDRESS.to_vec());
    assert_eq!(found[1].ip, other.to_vec());
    assert_eq!(found[1].signature, vec![2u8; 64]);
}

#[test]
fn storage_trait_on_table() {
    let mut table = AddressTable::new();
    let ttl = Storage::save_address(&mut table, &[4u8; 32], &ADDRESS, &[0u8; 64], 80, 1, 2, 5);
    assert_eq!(ttl, 86400);
    assert_eq!(Storage::get_addresses(&table, &[4u8; 32], 6).len(), 1);
}

#[test]
fn resolve_response_is_capped() {
    let addrs: Vec<Addr> = (0..12u8)
        .map(|i| Addr { ip: vec![i; 16], signature: vec![i; 64], port: 1, priority: 2, client: 3, ttl: 30 })
        .collect();
    let resp = encode_resolve_response(9, &addrs);
    assert_eq!(MAX_RESOLVE_RECORDS, 10);
    assert_eq!(resp[5], 10);
    assert_eq!(resp.len(), 6 + 10 * 95);
    assert!(resp.len() <= 1024);
    assert_eq!(resp[6 + 9 * 95], 9);
}

#[test]
fn register_response_bytes() {
    assert_eq!(encode_register_response(1, 300), vec![0, 0, 0, 1, 0, 0, 0, 0, 0, 0, 0, 0x01, 0x2C]);
}

#[test]
fn write_ttl_degrades_on_failure() {
    assert_eq!(write_ttl(true), 86400);
    assert_eq!(write_ttl(false), 300);
}

#[test]
fn live_addr_clamps_ttl_and_filters() {
    let a = live_addr(vec![1; 16], vec![2; 64], 10, 1, 2, 100, 50, 150).unwrap();
    assert_eq!(a.ttl, 30);
    assert_eq!(a.port, 10);
    assert!(live_addr(vec![1; 16], vec![2; 64], 10, 1, 2, 100, 50, 151).is_none());
    assert!(live_addr(vec![1; 16], vec![2; 64], 10, 1, 2, u64::MAX, u64::MAX, 3).is_some());
}

#[test]
fn check_signature_cases() {
    let kp = keypair(6);
    let sig = kp.sign(&ADDRESS).to_bytes();
    let key = kp.public.to_bytes();
    assert!(check_signature(&key, &sig, &ADDRESS));
    assert!(!check_signature(&key, &sig, &[0u8; 16]));
    assert!(!check_signature(&key[..31], &sig, &ADDRESS));
    assert!(!check_signature(&key, &sig[..63], &ADDRESS));
    assert!(!check_signature(&[0u8; 5], &[0u8; 7], &[]));
}

#[test]
fn hex_is_uppercase_two_digits() {
    assert_eq!(to_hex(&[0x0a, 0xff, 0x00, 0x9c]), "0AFF009C");
    assert_eq!(to_hex(&[]), "");
}

#[test]
fn server_keeps_listen_address() {
    let s = Server::new("[::1]:4000");
    assert_eq!(s.listen_address, "[::1]:4000");
}

#[test]
fn clock_is_after_epoch() {
    assert!(get_utc_time() > 1_600_000_000);
}

#[test]
fn next_step_decisions() {
    let kp = keypair(11);
    let good = register_datagram(&kp, 4, 5050, 2, 1, &ADDRESS, &ADDRESS);
    match next_step(&good) {
        Step::Save(g) => {
            assert_eq!(g.nonce, 4);
            assert_eq!(g.address, ADDRESS.to_vec());
        }
        _ => panic!("expected a save"),
    }
    let bad = register_datagram(&kp, 4, 5050, 2, 1, &ADDRESS, &[1u8; 16]);
    match next_step(&bad) {
        Step::Reject(g) => assert_eq!(g.identity, kp.public.to_bytes().to_vec()),
        _ => panic!("expected a rejection"),
    }
    assert!(matches!(next_step(&good[..100]), Step::Drop));
    match next_step(&resolve_datagram(&[6u8; 32], 77)) {
        Step::Resolve { nonce, identity } => {
            assert_eq!(nonce, 77);
            assert_eq!(identity, vec![6u8; 32]);
        }
        _ => panic!("expected a resolve"),
    }
}

#[test]
fn write_kind_follows_existence() {
    assert_eq!(write_kind(true), WriteKind::Update);
    assert_eq!(write_kind(false), WriteKind::Insert);
}

#[test]
fn many_addresses_fit_in_one_response() {
    let id = [8u8; 32];
    let mut table = AddressTable::new();
    for i in 0..15u8 {
        let mut ip = ADDRESS;
        ip[15] = i;
        table.save_address(&id, &ip, &[i; 64], 5050, 0, 0, 10);
    }
    let res = process_message(&mut table, &resolve_datagram(&id, 1), 10).unwrap();
    assert_eq!(res[5], 10);
    assert_eq!(res.len(), 6 + 10 * 95);
    assert!(res.len() <= 1024);
}
