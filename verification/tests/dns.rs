use diverge::dns::{
    decode, mk_msg, vet_reply, Header, MessageType, OpCode, Question, RawRecord, Record,
    ReplyHeader, ResponseCode,
};
use diverge::ip_map::IpAddr;
use hickory_proto::op::{Message, Query};
use hickory_proto::rr::rdata::{A, AAAA, MX};
use hickory_proto::rr::{Name, RData, RecordType};

fn header() -> ReplyHeader {
    ReplyHeader {
        id: 0xbeef,
        op_code: OpCode::Query,
        recursion_desired: true,
        recursion_available: true,
        checking_disabled: false,
        response_code: ResponseCode::NoError,
    }
}

#[test]
fn header_is_read_from_bytes() {
    let b = [0x12, 0x34, 0x01, 0x10, 0x00, 0x01, 0x00, 0x02, 0, 0, 0, 0];
    assert_eq!(
        Header::read(&b),
        Some(Header {
            id: 0x1234,
            message_type: MessageType::Query,
            op_code: OpCode::Query,
            recursion_desired: true,
            checking_disabled: true,
            query_count: 1,
            answer_count: 2,
        })
    );
    let b = [0xff, 0xff, 0xa8, 0x00, 0x01, 0x00, 0xff, 0xff, 0, 0, 0, 0, 9, 9];
    assert_eq!(
        Header::read(&b),
        Some(Header {
            id: 0xffff,
            message_type: MessageType::Response,
            op_code: OpCode::Update,
            recursion_desired: false,
            checking_disabled: false,
            query_count: 256,
            answer_count: 0xffff,
        })
    );
    assert_eq!(Header::read(&b[..11]), None);
    assert_eq!(Header::read(&[]), None);
    // an operation that is not known
    let b = [0, 0, 0x08, 0, 0, 0, 0, 0, 0, 0, 0, 0];
    assert_eq!(Header::read(&b), None);
}

#[test]
fn op_codes() {
    assert_eq!(OpCode::from_u8(0), Some(OpCode::Query));
    assert_eq!(OpCode::from_u8(2), Some(OpCode::Status));
    assert_eq!(OpCode::from_u8(4), Some(OpCode::Notify));
    assert_eq!(OpCode::from_u8(5), Some(OpCode::Update));
    assert_eq!(OpCode::from_u8(1), None);
    assert_eq!(OpCode::from_u8(15), None);
    assert_eq!(OpCode::Update.to_u8(), 5);
    assert_eq!(ResponseCode::NoError.to_u8(), 0);
    assert_eq!(ResponseCode::FormErr.to_u8(), 1);
    assert_eq!(ResponseCode::NotImp.to_u8(), 4);
}

#[test]
fn reply_header_starts_from_request() {
    let request = Header {
        id: 77,
        message_type: MessageType::Query,
        op_code: OpCode::Notify,
        recursion_desired: true,
        checking_disabled: true,
        query_count: 3,
        answer_count: 4,
    };
    assert_eq!(
        ReplyHeader::from_request(&request),
        ReplyHeader {
            id: 77,
            op_code: OpCode::Notify,
            recursion_desired: true,
            recursion_available: false,
            checking_disabled: true,
            response_code: ResponseCode::NoError,
        }
    );
}

#[test]
fn reply_header_bytes() {
    assert_eq!(
        header().to_bytes(1, 2),
        vec![0xbe, 0xef, 0x81, 0x80, 0, 1, 0, 2, 0, 0, 0, 0]
    );
    let h = ReplyHeader {
        id: 1,
        op_code: OpCode::Update,
        recursion_desired: false,
        recursion_available: false,
        checking_disabled: true,
        response_code: ResponseCode::NotImp,
    };
    assert_eq!(h.to_bytes(0, 0x0102), vec![0, 1, 0xa8, 0x14, 0, 0, 1, 2, 0, 0, 0, 0]);
}

#[test]
fn reply_is_vetted() {
    let h = header();
    let mut good = h.to_bytes(1, 0);
    good.extend_from_slice(&[1, 2, 3]);
    assert_eq!(vet_reply(good.clone(), &h, true, 0), Some(good.clone()));
    assert_eq!(vet_reply(good.clone(), &h, false, 0), None);
    assert_eq!(vet_reply(good.clone(), &h, true, 1), None);
    assert_eq!(vet_reply(good[..11].to_vec(), &h, true, 0), None);
    let mut truncated = good.clone();
    truncated[2] |= 0x02;
    assert_eq!(vet_reply(truncated, &h, true, 0), None);
    let mut other_id = good.clone();
    other_id[1] ^= 1;
    assert_eq!(vet_reply(other_id, &h, true, 0), None);
    let mut long = h.to_bytes(0, 0);
    long.resize(65535, 0);
    assert_eq!(vet_reply(long.clone(), &h, false, 0), Some(long.clone()));
    long.push(0);
    assert_eq!(vet_reply(long, &h, false, 0), None);
    assert_eq!(vet_reply(h.to_bytes(0, 0), &h, false, 65536), None);
}

#[test]
fn decode_takes_header_and_first_question() {
    let mut m = Message::new();
    m.set_id(0x4242).set_recursion_desired(true).set_checking_disabled(true);
    m.add_query(Query::query(Name::from_ascii("WWW.Example.COM.").unwrap(), RecordType::AAAA));
    m.add_query(Query::query(Name::from_ascii("second.example.").unwrap(), RecordType::A));
    let bytes = m.to_vec().unwrap();
    let req = decode(&bytes).unwrap();
    assert_eq!(req.header.id, 0x4242);
    assert_eq!(req.header.message_type, MessageType::Query);
    assert_eq!(req.header.op_code, OpCode::Query);
    assert!(req.header.recursion_desired);
    assert!(req.header.checking_disabled);
    assert_eq!(req.header.query_count, 2);
    assert_eq!(req.header.answer_count, 0);
    let q = req.question.as_ref().unwrap();
    assert_eq!(q.name_utf8(), "WWW.Example.COM.");
    assert_eq!(q.name_ascii(), "WWW.Example.COM.");
    assert_eq!(q.query_type(), 28);
    assert_eq!(q.query_class(), 1);
    assert_eq!(q.raw(), &m.queries()[0]);
}

#[test]
fn decode_refuses_garbage() {
    assert!(decode(&[]).is_none());
    assert!(decode(&[0; 11]).is_none());
    // one question announced, none there
    assert!(decode(&[0, 1, 1, 0, 0, 1, 0, 0, 0, 0, 0, 0]).is_none());
    // no question announced
    assert!(decode(&[0, 1, 1, 0, 0, 0, 0, 0, 0, 0, 0, 0]).is_some());
}

#[test]
fn question_facts() {
    let raw = Query::query(Name::from_ascii("a.b.").unwrap(), RecordType::PTR);
    let mut m = Message::new();
    m.add_query(raw.clone());
    let req = decode(&m.to_vec().unwrap()).unwrap();
    let q = req.question.unwrap();
    assert_eq!(q.name_utf8(), "a.b.");
    assert_eq!(q.name_ascii(), "a.b.");
    assert_eq!(q.query_type(), 12);
    assert_eq!(q.query_class(), 1);
    assert_eq!(q.raw(), &raw);
    let q = Question::new(raw.clone());
    assert_eq!(q.name_utf8(), "a.b.");
    assert_eq!(q.name_ascii(), "a.b.");
    assert_eq!(q.query_type(), 12);
    assert_eq!(q.query_class(), 1);
    assert_eq!(q.raw(), &raw);
    let q = Question::with_facts(raw.clone(), "x".to_string(), "y".to_string(), 2, 3);
    assert_eq!(q.name_utf8(), "x");
    assert_eq!(q.name_ascii(), "y");
    assert_eq!(q.query_type(), 2);
    assert_eq!(q.query_class(), 3);
    assert_eq!(q.raw(), &raw);
}

#[test]
fn record_facts() {
    let owner = Name::from_ascii("h.").unwrap();
    let raw = hickory_proto::rr::Record::from_rdata(owner.clone(), 60, RData::A(A::new(1, 2, 3, 4)));
    let r = Record::new(RawRecord(raw.clone()));
    assert_eq!(r.dns_class(), 1);
    assert_eq!(r.record_type(), 1);
    assert_eq!(r.address(), Some(IpAddr::V4(0x0102_0304)));
    assert!(r.has_address_type());
    assert_eq!(r.raw().0, raw);

    let raw = hickory_proto::rr::Record::from_rdata(
        owner.clone(),
        60,
        RData::AAAA(AAAA::new(0x2001, 0xdb8, 0, 0, 0, 0, 0, 1)),
    );
    let r = Record::new(RawRecord(raw));
    assert_eq!(r.record_type(), 28);
    assert_eq!(r.address(), Some(IpAddr::V6(0x2001_0db8_0000_0000_0000_0000_0000_0001)));

    let raw = hickory_proto::rr::Record::from_rdata(
        owner.clone(),
        60,
        RData::MX(MX::new(10, Name::from_ascii("mx.").unwrap())),
    );
    let r = Record::new(RawRecord(raw.clone()));
    assert_eq!(r.record_type(), 15);
    assert_eq!(r.address(), None);
    assert!(!r.has_address_type());

    let r = Record::with_facts(RawRecord(raw), 3, 28, Some(IpAddr::V6(9)));
    assert_eq!(r.dns_class(), 3);
    assert_eq!(r.record_type(), 28);
    assert_eq!(r.address(), Some(IpAddr::V6(9)));

    // an A record without data has no address
    let raw = hickory_proto::rr::Record::with(owner, RecordType::A, 60);
    let r = Record::new(RawRecord(raw));
    assert!(r.has_address_type());
    assert_eq!(r.address(), None);
}

#[test]
fn message_is_made() {
    let raw = Query::query(Name::from_ascii("h.example.").unwrap(), RecordType::A);
    let q = Question::with_facts(raw.clone(), "h.example.".into(), "h.example.".into(), 1, 1);
    let record = hickory_proto::rr::Record::from_rdata(
        Name::from_ascii("h.example.").unwrap(),
        60,
        RData::A(A::new(1, 2, 3, 4)),
    );
    let answers = vec![Record::new(RawRecord(record.clone()))];
    let bytes = mk_msg(header(), Some(&q), Some(answers)).unwrap();
    assert_eq!(&bytes[..12], &[0xbe, 0xef, 0x81, 0x80, 0, 1, 0, 1, 0, 0, 0, 0]);
    let m = Message::from_vec(&bytes).unwrap();
    assert_eq!(m.queries(), &[raw]);
    assert_eq!(m.answers(), &[record]);

    let bytes = mk_msg(header(), None, None).unwrap();
    assert_eq!(bytes, vec![0xbe, 0xef, 0x81, 0x80, 0, 0, 0, 0, 0, 0, 0, 0]);
    let bytes = mk_msg(header(), None, Some(vec![])).unwrap();
    assert_eq!(bytes.len(), 12);
}

#[test]
fn message_that_does_not_fit_is_not_made() {
    let record = hickory_proto::rr::Record::from_rdata(
        Name::from_ascii("a-rather-long-name-for-a-host.example.").unwrap(),
        60,
        RData::AAAA(AAAA::new(1, 2, 3, 4, 5, 6, 7, 8)),
    );
    let many = |n: usize| -> Vec<Record> {
        (0..n).map(|_| Record::new(RawRecord(record.clone()))).collect()
    };
    assert!(mk_msg(header(), None, Some(many(100))).is_some());
    assert!(mk_msg(header(), None, Some(many(5000))).is_none());
}
