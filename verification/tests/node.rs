use loc_share::addresses::{find_broadcast_addr, find_free_port, find_my_ip, make_ip_addr};
use loc_share::connection_process::ConnectionProcess;
use loc_share::crypto_node::{CryptoNode, NODE_PORT};
use loc_share::decimal::{decimal_string, parse_u128};
use loc_share::error::LocShareError;
use loc_share::hex_codec::is_valid_hex;
use loc_share::messages::{BroadcastCode, Message};
use loc_share::proto::ConnectRequest;

#[test]
fn test_draw_and_encrypt_ephemeral_key() {
    let sym_key = b"\x00\x01\x02\x03\x04\x05\x06\x07\x08\x09\x0A\x0B\x0C\x0D\x0E\x0F\x00\x01\x02\x03\x04\x05\x06\x07\x08\x09\x0A\x0B\x0C\x0D\x0E\x0F";
    let inv_code = "12345678".to_string();
    let eph_key = CryptoNode::draw_ephemeral_key().unwrap();
    let _cnode = CryptoNode {
        sym_key: sym_key.to_vec(),
        invitation_code: inv_code.clone(),
        eph: eph_key,
        port: 0,
    };
    let _encrypted_req = CryptoNode::create_encrypted_connect_request(inv_code);
}

#[test]
fn ephemeral_key_length() {
    assert_eq!(CryptoNode::draw_ephemeral_key().unwrap().len(), 32);
}

#[test]
fn invitation_code_is_16_hex_digits() {
    let code = CryptoNode::generate_random_invitation_code();
    assert_eq!(code.len(), 16);
    assert!(code.chars().all(|c| c.is_ascii_hexdigit() && !c.is_ascii_uppercase()));
    assert_eq!(hex::decode(&code).unwrap().len(), 8);
}

#[test]
fn created_node_reloads_its_key() {
    let key = [0x11u8; 32];
    let node = CryptoNode::create_with_key("4321", "abcd".to_string(), &key).unwrap();
    assert_eq!(node.port, NODE_PORT);
    assert_eq!(node.sym_key.len(), 40);
    let stored = node.config_bytes();
    assert_eq!(&stored[..2], &[0x0a, 40]);
    assert!(CryptoNode::has_config(&Some(stored.clone())));
    let loaded = CryptoNode::load_from_disc(&stored, "4321", "ef".to_string()).unwrap();
    assert_eq!(loaded.sym_key, key.to_vec());
    assert_eq!(loaded.invitation_code, "ef");
    assert!(loaded.eph.is_empty());
    assert_eq!(
        CryptoNode::load_from_disc(&stored, "1111", "ef".to_string()).err(),
        Some(LocShareError::KeyUnwrap)
    );
}

#[test]
fn new_node_with_random_key_reloads() {
    let node = CryptoNode::create_new("pin", String::new()).unwrap();
    let stored = node.config_bytes();
    let loaded = CryptoNode::load_from_disc(&stored, "pin", String::new()).unwrap();
    assert_eq!(loaded.sym_key.len(), 32);
}

#[test]
fn config_presence() {
    assert!(!CryptoNode::has_config(&None));
    assert!(!CryptoNode::has_config(&Some(vec![0x0a, 9])));
    assert!(CryptoNode::has_config(&Some(vec![])));
    assert_eq!(
        CryptoNode::load_from_disc(&[0x0a, 9], "p", String::new()).err(),
        Some(LocShareError::ConfigParse)
    );
}

fn listener(code: &str) -> CryptoNode {
    CryptoNode { sym_key: vec![], invitation_code: code.to_string(), eph: vec![], port: 0 }
}

#[test]
fn connect_request_is_accepted_with_the_same_code() {
    let code = CryptoNode::generate_random_invitation_code();
    let msg = CryptoNode::create_encrypted_connect_request(code.clone()).unwrap();
    assert_eq!(listener(&code).check_connect_message(&msg), Ok(true));
}

#[test]
fn connect_request_with_other_code_is_not_accepted() {
    let msg = CryptoNode::create_encrypted_connect_request("0011223344556677".to_string()).unwrap();
    assert_ne!(listener("8899aabbccddeeff").check_connect_message(&msg), Ok(true));
    assert_eq!(listener("xyz").check_connect_message(&msg), Err(LocShareError::InvalidHex));
}

#[test]
fn connect_request_with_wrong_mac_is_refused() {
    let req = ConnectRequest { eph_key: vec![5u8; 32], inv_code_mac: vec![0u8; 32] };
    let msg = CryptoNode::encrypt_connect_request(&req, "a1b2".to_string()).unwrap();
    assert_eq!(listener("A1B2").check_connect_message(&msg), Ok(false));
    let good = CryptoNode::create_connect_request(vec![5u8; 32]);
    assert_eq!(good.eph_key, vec![5u8; 32]);
    let msg = CryptoNode::encrypt_connect_request(&good, "a1b2".to_string()).unwrap();
    assert_eq!(listener("a1b2").check_connect_message(&msg), Ok(true));
}

#[test]
fn connection_process_starts_empty() {
    let p = ConnectionProcess::new();
    assert!(p.invitation_code.is_empty());
    assert!(p.enc_pub_key.is_empty());
    assert_eq!(p.enc_g, 0);
}

#[test]
fn broadcast_code() {
    let b = BroadcastCode::new(&vec![1, 2, 3]);
    assert_eq!(b.encrypted_msg, vec![1, 2, 3]);
    assert_eq!(b.checksum(), 0x55bc801d);
    assert_eq!(b.serialize(), vec![1, 2, 3, 0x55, 0xbc, 0x80, 0x1d]);
}

#[test]
fn broadcast_checksum_is_crc32() {
    let b = BroadcastCode::new(&b"123456789".to_vec());
    assert_eq!(b.checksum(), 0xcbf43926);
    let e = BroadcastCode::new(&vec![]);
    assert_eq!(e.checksum(), 0);
    assert_eq!(e.serialize(), vec![0, 0, 0, 0]);
}

#[test]
fn addresses() {
    assert_eq!(find_my_ip(), [127, 0, 0, 1]);
    assert_eq!(find_free_port(), 5555);
    assert_eq!(find_broadcast_addr([10, 0, 0, 7]), [127, 0, 0, 1]);
    assert_eq!(make_ip_addr([127, 0, 0, 1], 5555), "127.0.0.1:5555");
    assert_eq!(make_ip_addr([255, 10, 0, 99], 0), "255.10.0.99:0");
}

#[test]
fn decimal_numbers() {
    assert_eq!(decimal_string(0), "0");
    assert_eq!(decimal_string(1234), "1234");
    assert_eq!(decimal_string(u128::MAX), u128::MAX.to_string());
    assert_eq!(parse_u128("1234"), Some(1234));
    assert_eq!(parse_u128("+12"), Some(12));
    assert_eq!(parse_u128("007"), Some(7));
    assert_eq!(parse_u128(""), None);
    assert_eq!(parse_u128("+"), None);
    assert_eq!(parse_u128("-1"), None);
    assert_eq!(parse_u128("12a"), None);
    assert_eq!(parse_u128(&u128::MAX.to_string()), Some(u128::MAX));
    assert_eq!(parse_u128("340282366920938463463374607431768211456"), None);
    assert_eq!(parse_u128(&decimal_string(987654321)), Some(987654321));
}

#[test]
fn joining_node_gets_the_group_key() {
    let code = CryptoNode::generate_random_invitation_code();
    let group_key = vec![0x42u8; 32];
    let existing = CryptoNode {
        sym_key: group_key.clone(),
        invitation_code: code.clone(),
        eph: vec![],
        port: NODE_PORT,
    };
    let mut joining = listener("");
    let request = joining.start_connecting(code.clone()).unwrap();
    assert_eq!(joining.invitation_code, code);
    assert_eq!(joining.eph.len(), 32);
    let answer = existing.answer_connect_message(&request).unwrap().unwrap();
    assert_ne!(answer, group_key);
    joining.accept_answer(&answer).unwrap();
    assert_eq!(joining.sym_key, group_key);
}

#[test]
fn wrong_mac_gets_no_answer() {
    let req = ConnectRequest { eph_key: vec![5u8; 32], inv_code_mac: vec![0u8; 32] };
    let msg = CryptoNode::encrypt_connect_request(&req, "a1b2".to_string()).unwrap();
    let existing = CryptoNode { sym_key: vec![1; 32], invitation_code: "a1b2".to_string(), eph: vec![], port: 0 };
    assert_eq!(existing.answer_connect_message(&msg), Ok(None));
}

#[test]
fn answer_with_wrong_key_is_refused() {
    let existing = listener("00");
    let req = CryptoNode::create_connect_request(vec![9u8; 32]);
    let answer = existing.answer_connect(&req).unwrap();
    let mut joining = CryptoNode { sym_key: vec![7], invitation_code: String::new(), eph: vec![8u8; 32], port: 0 };
    assert!(joining.accept_answer(&answer).is_err());
    assert_eq!(joining.sym_key, vec![7]);
}

#[test]
fn broadcast_framing_roundtrip_and_checksum() {
    let b = BroadcastCode::new(&vec![1, 2, 3]);
    let bytes = b.serialize();
    let r = BroadcastCode::from_bytes(&bytes).unwrap();
    assert_eq!(r.encrypted_msg, vec![1, 2, 3]);
    assert_eq!(r.checksum(), b.checksum());
    let mut bad = bytes.clone();
    bad[0] ^= 1;
    assert!(BroadcastCode::from_bytes(&bad).is_none());
    assert!(BroadcastCode::from_bytes(&[1, 2, 3]).is_none());
    assert_eq!(BroadcastCode::from_bytes(&[0, 0, 0, 0]).unwrap().encrypted_msg, Vec::<u8>::new());
}

#[test]
fn hex_validity() {
    assert!(is_valid_hex("00aAfF"));
    assert!(is_valid_hex(""));
    assert!(!is_valid_hex("abc"));
    assert!(!is_valid_hex("zz"));
}
