use prooftrie::Message;

#[test]
fn encode_request_bytes() {
    let m = Message::Request { prefix: 0x0102030405060708 };
    assert_eq!(m.encode(), vec![0, 0, 0, 0, 0, 0, 0, 38, 1, 2, 3, 4, 5, 6, 7, 8]);
}

#[test]
fn encode_expand_and_key_layout() {
    let e = Message::Expand { prefix: 1, h: 3, hl: 1, hr: 2 }.encode();
    assert_eq!(e.len(), 40);
    assert_eq!(e[7], 37);
    assert_eq!((e[15], e[23], e[31], e[39]), (1, 3, 1, 2));
    let k = Message::Key { k: 42, v: 7, ts: 256, seed: u64::MAX }.encode();
    assert_eq!(k.len(), 40);
    assert_eq!(k[7], 39);
    assert_eq!((k[15], k[23], k[30], k[31]), (42, 7, 1, 0));
    assert!(k[32..40].iter().all(|b| *b == 0xff));
}

#[test]
fn decode_round_trip() {
    let ms = [
        Message::Expand { prefix: 7, h: u64::MAX, hl: 0, hr: 1 << 40 },
        Message::Request { prefix: 12345 },
        Message::Key { k: 1, v: 2, ts: 3, seed: 0xdead_beef_0000_0001 },
    ];
    for m in ms.iter() {
        assert_eq!(Message::decode(&m.encode()), Some(*m));
    }
}

#[test]
fn decode_drops_short_datagrams() {
    let full = Message::Request { prefix: 9 }.encode();
    assert_eq!(Message::decode(&full[..15]), None);
    assert_eq!(Message::decode(&[]), None);
}

#[test]
fn decode_drops_wrong_lengths() {
    let mut req = Message::Request { prefix: 9 }.encode();
    req.push(0);
    assert_eq!(Message::decode(&req), None);
    let exp = Message::Expand { prefix: 1, h: 3, hl: 1, hr: 2 }.encode();
    assert_eq!(Message::decode(&exp[..16]), None);
    assert_eq!(Message::decode(&exp[..39]), None);
    let key = Message::Key { k: 1, v: 2, ts: 3, seed: 4 }.encode();
    assert_eq!(Message::decode(&key[..16]), None);
}

#[test]
fn decode_drops_unknown_opcodes() {
    let mut d = Message::Request { prefix: 9 }.encode();
    d[7] = 40;
    assert_eq!(Message::decode(&d), None);
    d[7] = 38;
    d[0] = 1;
    assert_eq!(Message::decode(&d), None);
}
