use safa_core::calculator::{EvalError, LexerData, Operation, Token};
use safa_core::net::{classify_ping_reply, EchoIcmpPacket, ICMPType, PingReply};

fn press(l: &mut LexerData, op: Operation) {
    l.execute(&op, Err(EvalError::UnexpectedToken)).unwrap();
}

#[test]
fn calculator_typing() {
    let mut l = LexerData::new();
    press(&mut l, Operation::Add); // nothing to operate on yet
    press(&mut l, Operation::Number(1));
    press(&mut l, Operation::Number(2));
    press(&mut l, Operation::Dot);
    press(&mut l, Operation::Number(5));
    press(&mut l, Operation::Mul);
    press(&mut l, Operation::Div); // an operator after an operator is ignored
    press(&mut l, Operation::Number(3));
    assert_eq!(l.view_to(), b"12.5 * 3 ".to_vec());
    press(&mut l, Operation::Remove);
    assert_eq!(l.view_to(), b"12.5 * ".to_vec());
    press(&mut l, Operation::Remove);
    assert_eq!(l.view_to(), b"12.5 ".to_vec());
    press(&mut l, Operation::Remove);
    assert_eq!(l.view_to(), b"12. ".to_vec());
    // the result of evaluation replaces the line
    l.execute(&Operation::Results, Ok(b"37.5".to_vec())).unwrap();
    assert_eq!(l.view_to(), b"37.5 ".to_vec());
    assert_eq!(l.execute(&Operation::Results, Err(EvalError::Inf)), Err(EvalError::Inf));
    assert_eq!(l.view_to(), b"37.5 ".to_vec());
    press(&mut l, Operation::Clear);
    assert_eq!(l.view_to(), Vec::<u8>::new());
    assert!(l.tokens.is_empty());
}

#[test]
fn calculator_back_key_undoes_keys() {
    let mut l = LexerData::new();
    press(&mut l, Operation::Number(4));
    press(&mut l, Operation::Remove);
    assert!(l.tokens.is_empty());
    press(&mut l, Operation::Number(4));
    press(&mut l, Operation::Number(2));
    press(&mut l, Operation::Remove);
    assert_eq!(l.view_to(), b"4 ".to_vec());
    press(&mut l, Operation::Sub);
    press(&mut l, Operation::Remove);
    assert_eq!(l.view_to(), b"4 ".to_vec());
    press(&mut l, Operation::Sub);
    press(&mut l, Operation::Number(7));
    press(&mut l, Operation::Remove);
    assert_eq!(l.view_to(), b"4 - ".to_vec());
}

#[test]
fn token_texts() {
    assert_eq!(Token::Plus.as_str(), b"+".to_vec());
    assert_eq!(Token::Minus.as_str(), b"-".to_vec());
    assert_eq!(Token::Mul.as_str(), b"*".to_vec());
    assert_eq!(Token::Div.as_str(), b"/".to_vec());
    assert_eq!(Token::Number(b"3.25".to_vec()).as_str(), b"3.25".to_vec());
}

#[test]
fn echo_packet_data() {
    let data: Vec<u8> = (0..56u8).collect();
    let p = EchoIcmpPacket::with_data(ICMPType(ICMPType::ECHO_REQUEST), 0, 9, &data);
    assert_eq!(p.data(), data);
    assert_eq!(p.seq_num(), 9);
}

#[test]
fn calculator_number_limit() {
    let mut l = LexerData::new();
    for _ in 0..20 {
        press(&mut l, Operation::Number(9));
    }
    assert_eq!(l.view_to(), b"999999999999999 ".to_vec());
    press(&mut l, Operation::Dot);
    assert_eq!(l.view_to(), b"999999999999999 ".to_vec());
    assert!(matches!(&l.tokens[0], Token::Number(n) if n.len() == 15));
}

#[test]
fn ping_packets() {
    let data: Vec<u8> = (0..56u8).map(|i| b'a' + i).collect();
    let mut p = EchoIcmpPacket::with_data(ICMPType(ICMPType::ECHO_REQUEST), 0, 1, &data);
    assert_eq!(p.seq_num(), 1);
    p.set_seq(0x1234);
    assert_eq!(p.seq_num(), 0x1234);
    assert_eq!(&p.0.0[..8], &[8, 0, 0, 0, 0, 0, 0x12, 0x34]);
    assert_eq!(&p.0.0[8..], &data[..]);

    let mut reply = p.0.0.clone();
    reply[0] = 0;
    assert_eq!(classify_ping_reply(&reply, &data), PingReply::EchoReply { seq: 0x1234, data_matches: true });
    reply[20] ^= 1;
    assert_eq!(classify_ping_reply(&reply, &data), PingReply::EchoReply { seq: 0x1234, data_matches: false });
    assert_eq!(classify_ping_reply(&p.0.0, &data), PingReply::Other);
    assert_eq!(classify_ping_reply(&reply[..63], &data), PingReply::Invalid);
}

#[test]
fn calculator_large_key_value_starts_a_number() {
    let mut l = LexerData::new();
    // a key value past 9 only appears in full when it starts a number
    press(&mut l, Operation::Number(200));
    assert_eq!(l.view_to(), b"200 ".to_vec());
}
