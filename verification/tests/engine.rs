use diverge::diverge::{any_address, Ask, Diverge, Kind, Lists, Reply, Step, Upstream};
use diverge::dns::{
    decode, RawRecord, Record, Request, ResponseCode, CLASS_IN, TYPE_A, TYPE_AAAA, TYPE_PTR,
};
use diverge::ip_map::IpAddr;
use hickory_proto::op::{Message, MessageType, OpCode, Query};
use hickory_proto::rr::rdata::{A, AAAA, CNAME, PTR, TXT};
use hickory_proto::rr::{DNSClass, Name, RData, RecordType};

fn name(s: &str) -> Name {
    Name::from_ascii(s).unwrap()
}

fn query(qname: &str, rtype: RecordType) -> Message {
    let mut m = Message::new();
    m.set_id(0x1234)
        .set_message_type(MessageType::Query)
        .set_op_code(OpCode::Query)
        .set_recursion_desired(true);
    m.add_query(Query::query(name(qname), rtype));
    m
}

fn request(m: &Message) -> Request {
    decode(&m.to_vec().unwrap()).unwrap()
}

fn wire(owner: &str, data: RData) -> Record {
    Record::new(RawRecord(hickory_proto::rr::Record::from_rdata(name(owner), 300, data)))
}

fn a(owner: &str, ip: [u8; 4]) -> Record {
    wire(owner, RData::A(A::new(ip[0], ip[1], ip[2], ip[3])))
}

fn aaaa(owner: &str, ip: [u16; 8]) -> Record {
    wire(
        owner,
        RData::AAAA(AAAA::new(ip[0], ip[1], ip[2], ip[3], ip[4], ip[5], ip[6], ip[7])),
    )
}

fn cname(owner: &str, target: &str) -> Record {
    wire(owner, RData::CNAME(CNAME(name(target))))
}

fn lines(l: &[&str]) -> Vec<String> {
    l.iter().map(|s| s.to_string()).collect()
}

/// Two upstreams: "local" gets `home.lan` and `10.0.0.0/8`, "global" the rest.
fn engine(local_no_aaaa: bool, global_no_aaaa: bool) -> Diverge {
    let upstreams = vec![
        Upstream { name: "local".to_string(), disable_aaaa: local_no_aaaa },
        Upstream { name: "global".to_string(), disable_aaaa: global_no_aaaa },
    ];
    let lists = vec![
        Lists { domains: vec![lines(&["home.lan"])], ips: vec![lines(&["10.0.0.0/8"])] },
        Lists { domains: vec![], ips: vec![] },
    ];
    Diverge::build(upstreams, &lists).unwrap()
}

/// Drives the engine, answering for the upstreams, and notes who was heard.
fn run(
    d: &Diverge,
    req: &Request,
    answers: &dyn Fn(u8, &Ask) -> Option<Vec<Record>>,
) -> (Reply, Vec<u8>) {
    let mut heard = Vec::new();
    let mut step = d.start(req);
    loop {
        match step {
            Step::Reply(r) => return (r, heard),
            Step::Wait(p) => {
                let id = p.upstreams[p.turn];
                heard.push(id);
                let answer = answers(id, &p.ask);
                step = d.resume(p, answer);
            }
        }
    }
}

fn addresses(reply: &Reply) -> Vec<IpAddr> {
    reply.answers.as_ref().unwrap().iter().filter_map(|r| r.address()).collect()
}

fn v4(ip: [u8; 4]) -> IpAddr {
    IpAddr::V4(u32::from_be_bytes(ip))
}

#[test]
fn local_name_is_answered_by_local_upstream() {
    let d = engine(false, false);
    let q = query("host.home.lan.", RecordType::A);
    let req = request(&q);
    let (reply, heard) = run(&d, &req, &|id, ask| {
        assert_eq!(id, 0);
        match ask {
            Ask::Forward { name, rtype } => {
                assert_eq!(name, "host.home.lan.");
                assert_eq!(*rtype, TYPE_A);
            }
            Ask::Reverse { .. } => panic!("reverse"),
        }
        Some(vec![a("host.home.lan.", [10, 1, 2, 3])])
    });
    assert_eq!(heard, vec![0]);
    assert_eq!(reply.header.response_code, ResponseCode::NoError);
    assert!(reply.echo);
    assert_eq!(addresses(&reply), vec![v4([10, 1, 2, 3])]);

    let bytes = reply.encode(&req).unwrap();
    let m = Message::from_vec(&bytes).unwrap();
    assert_eq!(m.id(), 0x1234);
    assert_eq!(m.message_type(), MessageType::Response);
    assert_eq!(m.response_code(), hickory_proto::op::ResponseCode::NoError);
    assert!(m.recursion_available());
    assert_eq!(m.queries(), q.queries());
    assert_eq!(m.answers().len(), 1);
    assert_eq!(m.answers()[0].data(), Some(&RData::A(A::new(10, 1, 2, 3))));
    assert_eq!(m.answers()[0].dns_class(), DNSClass::IN);
    assert_eq!(m.answers()[0].ttl(), 300);
}

#[test]
fn foreign_address_for_local_name_is_pruned() {
    let d = engine(false, false);
    let req = request(&query("evil.home.lan.", RecordType::A));
    let (reply, heard) = run(&d, &req, &|_, _| Some(vec![a("evil.home.lan.", [8, 8, 8, 8])]));
    assert_eq!(heard, vec![0]);
    assert_eq!(reply.header.response_code, ResponseCode::NoError);
    assert_eq!(reply.answers.as_ref().unwrap().len(), 0);
    let m = Message::from_vec(&reply.encode(&req).unwrap()).unwrap();
    assert_eq!(m.answers().len(), 0);
    assert_eq!(m.queries().len(), 1);
    assert_eq!(m.response_code(), hickory_proto::op::ResponseCode::NoError);
}

#[test]
fn unknown_name_is_raced_in_order() {
    let d = engine(false, false);
    let req = request(&query("www.example.com.", RecordType::A));
    match d.start(&req) {
        Step::Wait(p) => {
            assert_eq!(p.kind, Kind::Race);
            assert_eq!(p.upstreams, vec![0, 1]);
            assert_eq!(p.turn, 0);
        }
        Step::Reply(_) => panic!("reply"),
    }
    let (reply, heard) = run(&d, &req, &|id, _| match id {
        0 => Some(vec![a("www.example.com.", [8, 8, 8, 8])]),
        _ => Some(vec![a("www.example.com.", [93, 184, 216, 34])]),
    });
    assert_eq!(heard, vec![0, 1]);
    assert_eq!(addresses(&reply), vec![v4([93, 184, 216, 34])]);
}

#[test]
fn earlier_upstream_wins_the_race() {
    let d = engine(false, false);
    let req = request(&query("www.example.com.", RecordType::A));
    let (reply, heard) = run(&d, &req, &|id, _| match id {
        0 => Some(vec![a("www.example.com.", [10, 9, 9, 9])]),
        _ => Some(vec![a("www.example.com.", [93, 184, 216, 34])]),
    });
    assert_eq!(heard, vec![0]);
    assert_eq!(addresses(&reply), vec![v4([10, 9, 9, 9])]);
}

#[test]
fn aaaa_skips_upstream_without_aaaa() {
    let d = engine(false, true);
    let req = request(&query("www.example.com.", RecordType::AAAA));
    match d.start(&req) {
        Step::Wait(p) => assert_eq!(p.upstreams, vec![0]),
        Step::Reply(_) => panic!("reply"),
    }
    let (reply, heard) = run(&d, &req, &|id, ask| {
        assert_eq!(id, 0);
        match ask {
            Ask::Forward { rtype, .. } => assert_eq!(*rtype, TYPE_AAAA),
            Ask::Reverse { .. } => panic!("reverse"),
        }
        Some(vec![aaaa("www.example.com.", [0x2404, 0, 0, 0, 0, 0, 0, 1])])
    });
    assert_eq!(heard, vec![0]);
    assert_eq!(reply.header.response_code, ResponseCode::NoError);
    assert_eq!(reply.answers.as_ref().unwrap().len(), 0);
}

#[test]
fn reverse_lookup_goes_to_owner_of_address() {
    let d = engine(false, false);
    let req = request(&query("3.2.1.10.in-addr.arpa.", RecordType::PTR));
    let (reply, heard) = run(&d, &req, &|id, ask| {
        assert_eq!(id, 0);
        match ask {
            Ask::Reverse { addr } => assert_eq!(*addr, v4([10, 1, 2, 3])),
            Ask::Forward { .. } => panic!("forward"),
        }
        Some(vec![wire("3.2.1.10.in-addr.arpa.", RData::PTR(PTR(name("host.home.lan."))))])
    });
    assert_eq!(heard, vec![0]);
    let answers = reply.answers.as_ref().unwrap();
    assert_eq!(answers.len(), 1);
    assert_eq!(answers[0].record_type(), TYPE_PTR);
    assert_eq!(answers[0].dns_class(), CLASS_IN);
    assert_eq!(answers[0].address(), None);
    let m = Message::from_vec(&reply.encode(&req).unwrap()).unwrap();
    assert_eq!(m.answers()[0].data(), Some(&RData::PTR(PTR(name("host.home.lan.")))));

    let far = request(&query("8.8.8.8.in-addr.arpa.", RecordType::PTR));
    let (_, heard) = run(&d, &far, &|_, _| None);
    assert_eq!(heard, vec![1]);
}

#[test]
fn update_is_refused() {
    let d = engine(false, false);
    let mut q = query("host.home.lan.", RecordType::A);
    q.set_op_code(OpCode::Update);
    let req = request(&q);
    let (reply, heard) = run(&d, &req, &|_, _| panic!("asked"));
    assert!(heard.is_empty());
    assert_eq!(reply.header.response_code, ResponseCode::FormErr);
    assert!(!reply.echo);
    assert!(reply.answers.is_none());
    assert!(!reply.header.recursion_available);
    let m = Message::from_vec(&reply.encode(&req).unwrap()).unwrap();
    assert_eq!(m.response_code(), hickory_proto::op::ResponseCode::FormErr);
    assert_eq!(m.op_code(), OpCode::Update);
    assert_eq!(m.queries().len(), 0);
    assert_eq!(m.id(), 0x1234);
}

#[test]
fn response_is_refused() {
    let d = engine(false, false);
    let mut q = query("host.home.lan.", RecordType::A);
    q.set_message_type(MessageType::Response);
    let (reply, _) = run(&d, &request(&q), &|_, _| panic!("asked"));
    assert_eq!(reply.header.response_code, ResponseCode::FormErr);
    assert!(!reply.echo);
}

#[test]
fn no_question_is_refused() {
    let d = engine(false, false);
    let mut q = Message::new();
    q.set_id(7).set_message_type(MessageType::Query).set_op_code(OpCode::Query);
    let req = request(&q);
    assert!(req.question.is_none());
    let (reply, heard) = run(&d, &req, &|_, _| panic!("asked"));
    assert!(heard.is_empty());
    assert_eq!(reply.header.response_code, ResponseCode::FormErr);
    assert_eq!(reply.header.id, 7);
    assert!(!reply.echo);
    assert!(reply.answers.is_none());
    let m = Message::from_vec(&reply.encode(&req).unwrap()).unwrap();
    assert_eq!(m.queries().len(), 0);
}

#[test]
fn two_questions_are_not_implemented() {
    let d = engine(false, false);
    let mut q = query("host.home.lan.", RecordType::A);
    q.add_query(Query::query(name("other.home.lan."), RecordType::A));
    let req = request(&q);
    let (reply, heard) = run(&d, &req, &|_, _| panic!("asked"));
    assert!(heard.is_empty());
    assert_eq!(reply.header.response_code, ResponseCode::NotImp);
    assert!(reply.echo);
    assert!(reply.answers.is_none());
    let m = Message::from_vec(&reply.encode(&req).unwrap()).unwrap();
    assert_eq!(m.response_code(), hickory_proto::op::ResponseCode::NotImp);
    assert_eq!(m.queries().len(), 1);
    assert_eq!(m.queries()[0], q.queries()[0]);
}

#[test]
fn request_with_answers_is_refused() {
    let d = engine(false, false);
    let mut q = query("host.home.lan.", RecordType::A);
    q.add_answer(hickory_proto::rr::Record::from_rdata(
        name("host.home.lan."),
        1,
        RData::A(A::new(1, 2, 3, 4)),
    ));
    let req = request(&q);
    let (reply, heard) = run(&d, &req, &|_, _| panic!("asked"));
    assert!(heard.is_empty());
    assert_eq!(reply.header.response_code, ResponseCode::FormErr);
    assert!(reply.echo);
    assert!(reply.answers.is_none());
}

#[test]
fn aaaa_for_pinned_upstream_without_aaaa_is_empty() {
    let d = engine(true, false);
    let req = request(&query("host.home.lan.", RecordType::AAAA));
    let (reply, heard) = run(&d, &req, &|_, _| panic!("asked"));
    assert!(heard.is_empty());
    assert_eq!(reply.header.response_code, ResponseCode::NoError);
    assert!(reply.echo);
    assert_eq!(reply.answers.as_ref().unwrap().len(), 0);
    // an A question still goes to it
    let (_, heard) = run(&d, &request(&query("host.home.lan.", RecordType::A)), &|_, _| None);
    assert_eq!(heard, vec![0]);
}

#[test]
fn malformed_reverse_name_is_refused() {
    let d = engine(false, false);
    for q in ["3.2.1.in-addr.arpa.", "3.2.1.10.in-addr.example.", "300.2.1.10.in-addr.arpa."] {
        let req = request(&query(q, RecordType::PTR));
        let (reply, heard) = run(&d, &req, &|_, _| panic!("asked"));
        assert!(heard.is_empty());
        assert_eq!(reply.header.response_code, ResponseCode::FormErr);
        assert!(reply.echo);
        assert!(reply.answers.is_none());
        assert!(reply.header.recursion_available);
    }
}

#[test]
fn failed_race_is_empty() {
    let d = engine(false, false);
    let req = request(&query("www.example.com.", RecordType::A));
    let (reply, heard) = run(&d, &req, &|_, _| None);
    assert_eq!(heard, vec![0, 1]);
    assert_eq!(reply.header.response_code, ResponseCode::NoError);
    assert!(reply.echo);
    assert_eq!(reply.answers.as_ref().unwrap().len(), 0);
    let m = Message::from_vec(&reply.encode(&req).unwrap()).unwrap();
    assert_eq!(m.response_code(), hickory_proto::op::ResponseCode::NoError);
    assert_eq!(m.answers().len(), 0);
}

#[test]
fn failed_pinned_lookup_is_empty() {
    let d = engine(false, false);
    let req = request(&query("host.home.lan.", RecordType::A));
    let (reply, heard) = run(&d, &req, &|_, _| None);
    assert_eq!(heard, vec![0]);
    assert_eq!(reply.header.response_code, ResponseCode::NoError);
    assert_eq!(reply.answers.as_ref().unwrap().len(), 0);
}

#[test]
fn other_records_stay_when_addresses_are_kept() {
    let d = engine(false, false);
    let req = request(&query("www.home.lan.", RecordType::A));
    let (reply, _) = run(&d, &req, &|_, _| {
        Some(vec![
            cname("www.home.lan.", "host.home.lan."),
            a("host.home.lan.", [8, 8, 8, 8]),
            a("host.home.lan.", [10, 1, 2, 3]),
            aaaa("host.home.lan.", [0x2404, 0, 0, 0, 0, 0, 0, 1]),
        ])
    });
    let answers = reply.answers.as_ref().unwrap();
    assert_eq!(answers.len(), 2);
    assert_eq!(answers[0].record_type(), 5);
    assert_eq!(answers[1].address(), Some(v4([10, 1, 2, 3])));
}

#[test]
fn pinned_answer_without_addresses_is_kept() {
    let d = engine(false, false);
    let req = request(&query("www.home.lan.", RecordType::A));
    let (reply, _) = run(&d, &req, &|_, _| Some(vec![cname("www.home.lan.", "host.home.lan.")]));
    assert_eq!(reply.answers.as_ref().unwrap().len(), 1);
    // with an address that is pruned, the other records go as well
    let (reply, _) = run(&d, &req, &|_, _| {
        Some(vec![cname("www.home.lan.", "host.home.lan."), a("host.home.lan.", [8, 8, 8, 8])])
    });
    assert_eq!(reply.answers.as_ref().unwrap().len(), 0);
}

#[test]
fn race_answer_without_addresses_loses() {
    let d = engine(false, false);
    let req = request(&query("www.example.com.", RecordType::A));
    let (reply, heard) = run(&d, &req, &|id, _| match id {
        0 => Some(vec![cname("www.example.com.", "x.example.com.")]),
        _ => None,
    });
    assert_eq!(heard, vec![0, 1]);
    assert_eq!(reply.answers.as_ref().unwrap().len(), 0);
}

#[test]
fn other_types_go_to_domain_or_first_upstream() {
    let d = engine(false, false);
    let txt = || Some(vec![wire("x.", RData::TXT(TXT::new(vec!["hello".to_string()])))]);
    let req = request(&query("www.example.com.", RecordType::TXT));
    match d.start(&req) {
        Step::Wait(p) => {
            assert_eq!(p.kind, Kind::Verbatim);
            assert_eq!(p.upstreams, vec![0]);
            match &p.ask {
                Ask::Forward { name, rtype } => {
                    assert_eq!(name, "www.example.com.");
                    assert_eq!(*rtype, 16);
                }
                Ask::Reverse { .. } => panic!("reverse"),
            }
        }
        Step::Reply(_) => panic!("reply"),
    }
    let (reply, heard) = run(&d, &req, &|_, _| txt());
    assert_eq!(heard, vec![0]);
    assert_eq!(reply.answers.as_ref().unwrap().len(), 1);
    // a failure leaves the reply without an answer section
    let (reply, _) = run(&d, &req, &|_, _| None);
    assert!(reply.answers.is_none());
    assert!(reply.echo);
    assert_eq!(reply.header.response_code, ResponseCode::NoError);
    let m = Message::from_vec(&reply.encode(&req).unwrap()).unwrap();
    assert_eq!(m.queries().len(), 1);
    assert_eq!(m.answers().len(), 0);
}

#[test]
fn other_types_follow_the_domain_map() {
    let upstreams = vec![
        Upstream { name: "first".to_string(), disable_aaaa: false },
        Upstream { name: "second".to_string(), disable_aaaa: false },
    ];
    let lists = vec![
        Lists { domains: vec![], ips: vec![] },
        Lists { domains: vec![lines(&["# names", "corp.example"])], ips: vec![] },
    ];
    let d = Diverge::build(upstreams, &lists).unwrap();
    let (_, heard) = run(&d, &request(&query("mail.corp.example.", RecordType::MX)), &|_, _| None);
    assert_eq!(heard, vec![1]);
    let (_, heard) = run(&d, &request(&query("mail.example.", RecordType::MX)), &|_, _| None);
    assert_eq!(heard, vec![0]);
}

#[test]
fn chaos_class_is_not_implemented() {
    let d = engine(false, false);
    let mut q = Message::new();
    q.set_id(9).set_recursion_desired(false);
    let mut question = Query::query(name("version.bind."), RecordType::TXT);
    question.set_query_class(DNSClass::CH);
    q.add_query(question);
    let (reply, heard) = run(&d, &request(&q), &|_, _| panic!("asked"));
    assert!(heard.is_empty());
    assert_eq!(reply.header.response_code, ResponseCode::NotImp);
    assert!(reply.echo);
    assert!(reply.answers.is_none());
    assert!(!reply.header.recursion_available);
}

#[test]
fn recursion_available_follows_recursion_desired() {
    let d = engine(false, false);
    let mut q = query("www.example.com.", RecordType::A);
    q.set_recursion_desired(false);
    let (reply, _) = run(&d, &request(&q), &|_, _| None);
    assert!(!reply.header.recursion_available);
    assert!(!reply.header.recursion_desired);
    q.set_recursion_desired(true);
    let (reply, _) = run(&d, &request(&q), &|_, _| None);
    assert!(reply.header.recursion_available);
    assert!(reply.header.recursion_desired);
}

#[test]
fn same_inputs_same_reply() {
    let d = engine(false, false);
    let req = request(&query("www.example.com.", RecordType::A));
    let answers = |id: u8, _: &Ask| match id {
        0 => Some(vec![a("www.example.com.", [8, 8, 8, 8])]),
        _ => Some(vec![a("www.example.com.", [1, 1, 1, 1]), a("www.example.com.", [1, 0, 0, 1])]),
    };
    let (first, _) = run(&d, &req, &answers);
    let (second, _) = run(&d, &req, &answers);
    assert_eq!(first.encode(&req).unwrap(), second.encode(&req).unwrap());
}

#[test]
fn prune_counts_and_appends() {
    let d = engine(false, false);
    let mut out = vec![cname("a.", "b.")];
    let records = vec![
        a("x.", [10, 0, 0, 1]),
        a("x.", [11, 0, 0, 1]),
        cname("x.", "y."),
        aaaa("x.", [1, 2, 3, 4, 5, 6, 7, 8]),
        a("x.", [10, 255, 255, 255]),
    ];
    assert!(any_address(&records));
    assert_eq!(d.prune(&mut out, records, 0), 2);
    assert_eq!(out.len(), 4);
    assert_eq!(out[1].address(), Some(v4([10, 0, 0, 1])));
    assert_eq!(out[2].record_type(), 5);
    assert_eq!(out[3].address(), Some(v4([10, 255, 255, 255])));

    let mut out = Vec::new();
    let records = vec![
        a("x.", [10, 0, 0, 1]),
        a("x.", [11, 0, 0, 1]),
        aaaa("x.", [1, 2, 3, 4, 5, 6, 7, 8]),
    ];
    assert_eq!(d.prune(&mut out, records, 1), 2);
    assert_eq!(out[0].address(), Some(v4([11, 0, 0, 1])));
    assert_eq!(out[1].record_type(), TYPE_AAAA);
    assert!(!any_address(&vec![cname("x.", "y.")]));
}

#[test]
fn address_record_of_other_class_is_left_alone() {
    let d = engine(false, false);
    let mut raw = hickory_proto::rr::Record::from_rdata(name("x."), 1, RData::A(A::new(8, 8, 8, 8)));
    raw.set_dns_class(DNSClass::CH);
    let r = Record::new(RawRecord(raw));
    assert_eq!(r.dns_class(), 3);
    assert_eq!(r.record_type(), TYPE_A);
    assert!(!r.has_address_type());
    let mut out = Vec::new();
    assert_eq!(d.prune(&mut out, vec![r], 0), 0);
    assert_eq!(out.len(), 1);
}

#[test]
fn engine_needs_upstreams_and_lists() {
    assert!(Diverge::build(vec![], &vec![]).is_none());
    let one = || vec![Upstream { name: "u".to_string(), disable_aaaa: false }];
    assert!(Diverge::build(one(), &vec![]).is_none());
    let d = Diverge::build(one(), &vec![Lists { domains: vec![], ips: vec![] }]).unwrap();
    assert_eq!(d.upstream_count(), 1);
    assert_eq!(d.upstream(0).unwrap().name, "u");
    assert!(d.upstream(1).is_none());
    let many: Vec<Upstream> =
        (0..257).map(|i| Upstream { name: i.to_string(), disable_aaaa: false }).collect();
    let lists: Vec<Lists> = (0..257).map(|_| Lists { domains: vec![], ips: vec![] }).collect();
    assert!(Diverge::build(many, &lists).is_none());
}

#[test]
fn later_upstream_takes_over_a_name() {
    let upstreams = vec![
        Upstream { name: "a".to_string(), disable_aaaa: false },
        Upstream { name: "b".to_string(), disable_aaaa: false },
        Upstream { name: "c".to_string(), disable_aaaa: false },
    ];
    let lists = vec![
        Lists { domains: vec![lines(&["x.example", "y.example"])], ips: vec![lines(&["1.0.0.0/8"])] },
        Lists {
            domains: vec![lines(&["y.example"]), lines(&["z.example"])],
            ips: vec![lines(&["1.2.0.0/16", "bad"]), lines(&["1.0.0.0/8"])],
        },
        Lists { domains: vec![], ips: vec![] },
    ];
    let d = Diverge::build(upstreams, &lists).unwrap();
    let heard = |q: &str, t: RecordType| run(&d, &request(&query(q, t)), &|_, _| None).1;
    assert_eq!(heard("www.x.example.", RecordType::A), vec![0]);
    assert_eq!(heard("www.y.example.", RecordType::A), vec![1]);
    assert_eq!(heard("www.z.example.", RecordType::A), vec![1]);
    assert_eq!(heard("www.w.example.", RecordType::A), vec![0, 1, 2]);
    assert_eq!(heard("4.3.2.1.in-addr.arpa.", RecordType::PTR), vec![1]);
    assert_eq!(heard("4.3.9.1.in-addr.arpa.", RecordType::PTR), vec![1]);
    assert_eq!(heard("4.3.2.2.in-addr.arpa.", RecordType::PTR), vec![2]);
}

#[test]
fn sizes() {
    println!("Duration: {}", std::mem::size_of::<std::time::Duration>());
    println!("Message: {}", std::mem::size_of::<Message>());
    println!(
        "TokioAsyncResolver: {}",
        std::mem::size_of::<hickory_resolver::TokioAsyncResolver>()
    );
    println!("Diverge: {}", std::mem::size_of::<Diverge>());
}
