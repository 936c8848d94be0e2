use docker_dns::dns::DnsName;
use docker_dns::message::{Header, MessageType, OpCode, ResponseCode};
use hickory_proto::op;
use hickory_proto::rr::{LowerName, Name};

fn labels(l: &[&[u8]]) -> Vec<Vec<u8>> {
    l.iter().map(|x| x.to_vec()).collect()
}

fn name(l: &[&[u8]]) -> DnsName {
    DnsName::new(labels(l)).unwrap()
}

#[test]
fn names_are_as_long_as_they_may_be() {
    let long = [b'a'; 64];
    assert!(DnsName::new(vec![]).is_some());
    assert!(DnsName::new(labels(&[&long[..63]])).is_some());
    assert!(DnsName::new(labels(&[&long])).is_none());
    assert!(DnsName::new(labels(&[b"a", b"", b"b"])).is_none());
    // 255 octets and 256.
    let full = labels(&[&long[..63], &long[..63], &long[..63], &long[..62]]);
    let over = labels(&[&long[..63], &long[..63], &long[..63], &long[..63]]);
    assert!(Name::from_labels(full.iter().map(|l| l.as_slice())).is_ok());
    assert!(Name::from_labels(over.iter().map(|l| l.as_slice())).is_err());
    assert_eq!(DnsName::new(full).unwrap().to_lower_text().len(), 255);
    assert!(DnsName::new(over).is_none());
}

#[test]
fn name_text_is_lower_case_with_dots() {
    assert_eq!(name(&[b"_Http", b"_TCP", b"We-Ft9", b"XXX", b"yy"]).to_lower_text(), "_http._tcp.we-ft9.xxx.yy.");
    assert_eq!(name(&[]).to_lower_text(), ".");
    assert_eq!(name(&[b"a.b", b"c"]).to_lower_text(), "a\\.b.c.");
    assert_eq!(name(&[b"we ft"]).to_lower_text(), "we\\040ft.");
    // An IDNA label stands for other characters.
    assert_eq!(name(&[b"XN--zs9h", b"yy"]).to_lower_text(), "\u{1f980}.yy.");
}

#[test]
fn name_text_is_that_of_the_query_name() {
    for l in [labels(&[b"Weft", b"xxx", b"YY"]), labels(&[b"-a", b"*"]), labels(&[b"\xff\x00A"])] {
        let n = Name::from_labels(l.iter().map(|x| x.as_slice())).unwrap();
        assert_eq!(DnsName::new(l).unwrap().to_lower_text(), LowerName::new(&n).to_string());
    }
}

#[test]
fn names_are_read_from_ascii() {
    assert_eq!(DnsName::from_ascii("weft.xxx.yy."), Some(name(&[b"weft", b"xxx", b"yy"])));
    // Case is preserved.
    assert_eq!(
        DnsName::from_ascii("We_ft.xxx.yy.").unwrap().labels(),
        &labels(&[b"We_ft", b"xxx", b"yy"])
    );
    assert_eq!(DnsName::from_ascii("."), Some(name(&[])));
    for bad in ["a..b.", "\u{1f980}.xxx.yy.", "we\\040ft.xxx.yy.", "-a.yy.", "a b.yy."] {
        assert_eq!(DnsName::from_ascii(bad), None, "{bad:?}");
    }
    assert_eq!(DnsName::from_ascii(&format!("{}.", "a".repeat(64))), None);
    assert_eq!(DnsName::from_ascii(&"a.".repeat(128)), None);
    assert!(DnsName::from_ascii(&"a.".repeat(127)).is_some());
}

#[test]
fn names_are_copied_whole() {
    let n = name(&[b"Weft", b"xxx"]);
    assert_eq!(n.clone(), n);
    assert_ne!(n, name(&[b"weft", b"xxx"]));
}

#[test]
fn response_header_mirrors_the_request() {
    for bits in 0..64_u32 {
        let bit = |k: u32| bits & (1 << k) != 0;
        let request = Header {
            id: 4711,
            message_type: MessageType::Query,
            op_code: OpCode::Update,
            authoritative: bit(0),
            truncated: bit(1),
            recursion_desired: bit(2),
            recursion_available: bit(3),
            authentic_data: bit(4),
            checking_disabled: bit(5),
            response_code: ResponseCode::Other(9),
        };
        let mut reference = op::Header::new();
        reference
            .set_id(4711)
            .set_message_type(op::MessageType::Query)
            .set_op_code(op::OpCode::Update)
            .set_authoritative(bit(0))
            .set_truncated(bit(1))
            .set_recursion_desired(bit(2))
            .set_recursion_available(bit(3))
            .set_authentic_data(bit(4))
            .set_checking_disabled(bit(5))
            .set_response_code(op::ResponseCode::NotAuth);
        let expected = op::Header::response_from_request(&reference);
        let r = Header::response_from_request(&request);
        assert_eq!(r.id, expected.id());
        assert_eq!(r.message_type, MessageType::Response);
        assert_eq!(expected.message_type(), op::MessageType::Response);
        assert_eq!(r.op_code, OpCode::Update);
        assert_eq!(expected.op_code(), op::OpCode::Update);
        assert_eq!(r.authoritative, expected.authoritative());
        assert_eq!(r.truncated, expected.truncated());
        assert_eq!(r.recursion_desired, expected.recursion_desired());
        assert_eq!(r.recursion_available, expected.recursion_available());
        assert_eq!(r.authentic_data, expected.authentic_data());
        assert_eq!(r.checking_disabled, expected.checking_disabled());
        assert_eq!(r.response_code, ResponseCode::NoError);
        assert_eq!(expected.response_code(), op::ResponseCode::NoError);
    }
}
