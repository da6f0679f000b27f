//! DNS messages as the engine sees them.
//!
//! Messages are decoded and encoded by `hickory_proto`. The engine decides on
//! plain values: a request's header fields and question, and for each record
//! its class, its type and the address it carries. The question and the
//! records themselves are carried through unread.
//!
//! The twelve bytes of a message header are read here as well: a request's
//! header is taken from its bytes, and an encoded reply is handed on only if
//! its header spells what the engine decided.

use crate::ip_map::IpAddr;
use hickory_proto::op::{Message, Query};
use hickory_proto::rr::RData;
use hickory_proto::serialize::binary::BinDecodable;
use vstd::prelude::*;

verus! {

/// `hickory_proto::op::Query`. Nothing is known of what it holds.
#[verifier::external_type_specification]
#[verifier::external_body]
pub struct ExQuery(Query);

/// A resource record as `hickory_proto` holds it. The verifier cannot take
/// the declaration of that type, so the record stands in this struct, and
/// nothing is known of it here.
#[verifier::external_body]
pub struct RawRecord(pub hickory_proto::rr::Record);

/// The class IN.
pub const CLASS_IN: u16 = 1;

/// The class CH.
pub const CLASS_CH: u16 = 3;

/// The record type A.
pub const TYPE_A: u16 = 1;

/// The record type PTR.
pub const TYPE_PTR: u16 = 12;

/// The record type AAAA.
pub const TYPE_AAAA: u16 = 28;

/// The length of a message header in bytes.
pub const HEADER_LEN: usize = 12;

/// The longest message that can be sent.
pub const MAX_MESSAGE_LEN: usize = 65535;

/// Whether a message is a query or a response: the QR bit.
#[derive(Clone, Copy, Debug, PartialEq, Eq, Structural)]
pub enum MessageType {
    Query,
    Response,
}

/// The kind of operation that a message asks for.
#[derive(Clone, Copy, Debug, PartialEq, Eq, Structural)]
pub enum OpCode {
    Query,
    Status,
    Notify,
    Update,
}

/// The response codes that the engine gives.
#[derive(Clone, Copy, Debug, PartialEq, Eq, Structural)]
pub enum ResponseCode {
    NoError,
    FormErr,
    NotImp,
}

impl OpCode {
    /// The operation that the number `n` stands for.
    pub open spec fn of(n: int) -> Option<OpCode> {
        if n == 0 {
            Some(OpCode::Query)
        } else if n == 2 {
            Some(OpCode::Status)
        } else if n == 4 {
            Some(OpCode::Notify)
        } else if n == 5 {
            Some(OpCode::Update)
        } else {
            None
        }
    }

    /// The number that stands for the operation.
    pub open spec fn number(self) -> int {
        match self {
            OpCode::Query => 0,
            OpCode::Status => 2,
            OpCode::Notify => 4,
            OpCode::Update => 5,
        }
    }

    /// The operation that the number `n` stands for.
    pub fn from_u8(n: u8) -> (r: Option<OpCode>)
        ensures
            r == OpCode::of(n as int),
    {
        if n == 0 {
            Some(OpCode::Query)
        } else if n == 2 {
            Some(OpCode::Status)
        } else if n == 4 {
            Some(OpCode::Notify)
        } else if n == 5 {
            Some(OpCode::Update)
        } else {
            None
        }
    }

    /// The number that stands for the operation.
    pub fn to_u8(self) -> (n: u8)
        ensures
            n == self.number(),
    {
        match self {
            OpCode::Query => 0,
            OpCode::Status => 2,
            OpCode::Notify => 4,
            OpCode::Update => 5,
        }
    }
}

impl ResponseCode {
    /// The number that stands for the code.
    pub open spec fn number(self) -> int {
        match self {
            ResponseCode::NoError => 0,
            ResponseCode::FormErr => 1,
            ResponseCode::NotImp => 4,
        }
    }

    /// The number that stands for the code.
    pub fn to_u8(self) -> (n: u8)
        ensures
            n == self.number(),
    {
        match self {
            ResponseCode::NoError => 0,
            ResponseCode::FormErr => 1,
            ResponseCode::NotImp => 4,
        }
    }
}

/// The header fields of a request that the engine reads or hands back.
#[derive(Clone, Copy, Debug, PartialEq, Eq, Structural)]
pub struct Header {
    pub id: u16,
    pub message_type: MessageType,
    pub op_code: OpCode,
    pub recursion_desired: bool,
    pub checking_disabled: bool,
    pub query_count: u16,
    pub answer_count: u16,
}

/// The header of a reply. The section counts are left to the encoder.
#[derive(Clone, Copy, Debug, PartialEq, Eq, Structural)]
pub struct ReplyHeader {
    pub id: u16,
    pub op_code: OpCode,
    pub recursion_desired: bool,
    pub recursion_available: bool,
    pub checking_disabled: bool,
    pub response_code: ResponseCode,
}

/// The number that two bytes spell, the first being the high one.
pub open spec fn be16(hi: u8, lo: u8) -> u16 {
    (hi * 256 + lo) as u16
}

/// The header fields that the first twelve bytes of a message spell, where
/// there are twelve and the operation is a known one.
pub open spec fn request_header(b: Seq<u8>) -> Option<Header> {
    if b.len() < HEADER_LEN {
        None
    } else {
        match OpCode::of(((b[2] / 8) % 16) as int) {
            None => None,
            Some(op_code) => Some(
                Header {
                    id: be16(b[0], b[1]),
                    message_type: if b[2] >= 128 {
                        MessageType::Response
                    } else {
                        MessageType::Query
                    },
                    op_code,
                    recursion_desired: b[2] % 2 == 1,
                    checking_disabled: (b[3] / 16) % 2 == 1,
                    query_count: be16(b[4], b[5]),
                    answer_count: be16(b[6], b[7]),
                },
            ),
        }
    }
}

/// The twelve bytes that spell the header of a reply with `questions`
/// questions, `answers` answers and nothing else: a response, neither
/// authoritative nor truncated.
pub open spec fn reply_header_bytes(h: ReplyHeader, questions: u16, answers: u16) -> Seq<u8> {
    seq![
        (h.id / 256) as u8,
        (h.id % 256) as u8,
        (128 + h.op_code.number() * 8 + if h.recursion_desired { 1int } else { 0int }) as u8,
        ((if h.recursion_available { 128int } else { 0int })
            + (if h.checking_disabled { 16int } else { 0int })
            + h.response_code.number()) as u8,
        (questions / 256) as u8,
        (questions % 256) as u8,
        (answers / 256) as u8,
        (answers % 256) as u8,
        0u8,
        0u8,
        0u8,
        0u8,
    ]
}

/// The header with which a reply to `request` starts out: the id, the
/// operation and the RD and CD flags of the request, no error, and recursion
/// not available.
pub open spec fn response_from_request(request: Header) -> ReplyHeader {
    ReplyHeader {
        id: request.id,
        op_code: request.op_code,
        recursion_desired: request.recursion_desired,
        recursion_available: false,
        checking_disabled: request.checking_disabled,
        response_code: ResponseCode::NoError,
    }
}

impl Header {
    /// Reads the header fields off the front of a message.
    pub fn read(b: &[u8]) -> (r: Option<Header>)
        ensures
            r == request_header(b@),
    {
        if b.len() < HEADER_LEN {
            return None;
        }
        let op_code = match OpCode::from_u8((b[2] / 8) % 16) {
            Some(op_code) => op_code,
            None => {
                return None;
            },
        };
        Some(
            Header {
                id: (b[0] as u16) * 256 + (b[1] as u16),
                message_type: if b[2] >= 128 {
                    MessageType::Response
                } else {
                    MessageType::Query
                },
                op_code,
                recursion_desired: b[2] % 2 == 1,
                checking_disabled: (b[3] / 16) % 2 == 1,
                query_count: (b[4] as u16) * 256 + (b[5] as u16),
                answer_count: (b[6] as u16) * 256 + (b[7] as u16),
            },
        )
    }
}

impl ReplyHeader {
    /// The header with which a reply to `request` starts out.
    pub fn from_request(request: &Header) -> (r: ReplyHeader)
        ensures
            r == response_from_request(*request),
    {
        ReplyHeader {
            id: request.id,
            op_code: request.op_code,
            recursion_desired: request.recursion_desired,
            recursion_available: false,
            checking_disabled: request.checking_disabled,
            response_code: ResponseCode::NoError,
        }
    }

    /// The twelve bytes that spell this header, with the given counts.
    pub fn to_bytes(&self, questions: u16, answers: u16) -> (b: Vec<u8>)
        ensures
            b@ == reply_header_bytes(*self, questions, answers),
    {
        let rd: u8 = if self.recursion_desired {
            1
        } else {
            0
        };
        let ra: u8 = if self.recursion_available {
            128
        } else {
            0
        };
        let cd: u8 = if self.checking_disabled {
            16
        } else {
            0
        };
        let mut b: Vec<u8> = Vec::new();
        b.push((self.id / 256) as u8);
        b.push((self.id % 256) as u8);
        b.push(128 + self.op_code.to_u8() * 8 + rd);
        b.push(ra + cd + self.response_code.to_u8());
        b.push((questions / 256) as u8);
        b.push((questions % 256) as u8);
        b.push((answers / 256) as u8);
        b.push((answers % 256) as u8);
        b.push(0);
        b.push(0);
        b.push(0);
        b.push(0);
        assert(b@ =~= reply_header_bytes(*self, questions, answers));
        b
    }
}

/// A question: the name asked for, in both of its written forms, the type
/// and the class, and the question as it was decoded.
pub struct Question {
    name: String,
    ascii: String,
    qtype: u16,
    qclass: u16,
    raw: Query,
}

impl Question {
    /// The name with its labels as UTF-8.
    pub closed spec fn name(&self) -> Seq<char> {
        self.name@
    }

    /// The name with its labels as ASCII.
    pub closed spec fn ascii(&self) -> Seq<char> {
        self.ascii@
    }

    /// The type asked for.
    pub closed spec fn qtype(&self) -> u16 {
        self.qtype
    }

    /// The class asked in.
    pub closed spec fn qclass(&self) -> u16 {
        self.qclass
    }

    /// The question as it was decoded.
    pub closed spec fn wire(&self) -> Query {
        self.raw
    }

    /// A question with the given name, type and class, which stand for
    /// `raw`.
    pub fn with_facts(raw: Query, name: String, ascii: String, qtype: u16, qclass: u16) -> (q:
        Question)
        ensures
            q.wire() == raw,
            q.name() == name@,
            q.ascii() == ascii@,
            q.qtype() == qtype,
            q.qclass() == qclass,
    {
        Question { name, ascii, qtype, qclass, raw }
    }

    /// Reads the name, the type and the class off a decoded question.
    pub fn new(raw: Query) -> (q: Question)
        ensures
            q.wire() == raw,
            q.name() == utf8_of(raw),
            q.ascii() == ascii_of(raw),
            q.qtype() == qtype_of(raw),
            q.qclass() == qclass_of(raw),
    {
        let name = query_name_utf8(&raw);
        let ascii = query_name_ascii(&raw);
        let qtype = query_type(&raw);
        let qclass = query_class(&raw);
        Question::with_facts(raw, name, ascii, qtype, qclass)
    }

    /// What is known of the question is what the decoder reads off it.
    pub open spec fn is_read(&self) -> bool {
        &&& self.name() == utf8_of(self.wire())
        &&& self.ascii() == ascii_of(self.wire())
        &&& self.qtype() == qtype_of(self.wire())
        &&& self.qclass() == qclass_of(self.wire())
    }

    /// The name with its labels as UTF-8.
    pub fn name_utf8(&self) -> (r: &str)
        ensures
            r@ == self.name(),
    {
        self.name.as_str()
    }

    /// The name with its labels as ASCII.
    pub fn name_ascii(&self) -> (r: &str)
        ensures
            r@ == self.ascii(),
    {
        self.ascii.as_str()
    }

    /// The type asked for.
    pub fn query_type(&self) -> (r: u16)
        ensures
            r == self.qtype(),
    {
        self.qtype
    }

    /// The class asked in.
    pub fn query_class(&self) -> (r: u16)
        ensures
            r == self.qclass(),
    {
        self.qclass
    }

    /// The question as it was decoded.
    pub fn raw(&self) -> (r: &Query)
        ensures
            *r == self.wire(),
    {
        &self.raw
    }
}

/// A request: its header and its first question, if it has one.
pub struct Request {
    pub header: Header,
    pub question: Option<Question>,
}

/// A resource record: its class, its type, the address that it carries if
/// it is an address record, and the record as the upstream gave it.
pub struct Record {
    class: u16,
    rtype: u16,
    addr: Option<IpAddr>,
    raw: RawRecord,
}

impl Record {
    /// The record's class.
    pub closed spec fn class(&self) -> u16 {
        self.class
    }

    /// The record's type.
    pub closed spec fn rtype(&self) -> u16 {
        self.rtype
    }

    /// The address in the record's data, if the data is an A or AAAA one.
    pub closed spec fn addr(&self) -> Option<IpAddr> {
        self.addr
    }

    /// The record as the upstream gave it.
    pub closed spec fn wire(&self) -> RawRecord {
        self.raw
    }

    /// An address record of the class IN: one that pruning looks at.
    pub open spec fn is_address(&self) -> bool {
        self.class() == CLASS_IN && (self.rtype() == TYPE_A || self.rtype() == TYPE_AAAA)
    }

    /// A record with the given class, type and address, which stand for
    /// `raw`.
    pub fn with_facts(raw: RawRecord, class: u16, rtype: u16, addr: Option<IpAddr>) -> (r: Record)
        ensures
            r.wire() == raw,
            r.class() == class,
            r.rtype() == rtype,
            r.addr() == addr,
    {
        Record { class, rtype, addr, raw }
    }

    /// Reads the class, the type and the address off a record.
    pub fn new(raw: RawRecord) -> (r: Record)
        ensures
            r.wire() == raw,
            r.class() == class_of(raw),
            r.rtype() == rtype_of(raw),
            r.addr() == address_of(raw),
    {
        let class = record_class(&raw);
        let rtype = record_type(&raw);
        let addr = record_address(&raw);
        Record::with_facts(raw, class, rtype, addr)
    }

    /// The record's class.
    pub fn dns_class(&self) -> (r: u16)
        ensures
            r == self.class(),
    {
        self.class
    }

    /// The record's type.
    pub fn record_type(&self) -> (r: u16)
        ensures
            r == self.rtype(),
    {
        self.rtype
    }

    /// The address in the record's data, if the data is an A or AAAA one.
    pub fn address(&self) -> (r: Option<IpAddr>)
        ensures
            r == self.addr(),
    {
        self.addr
    }

    /// The record as the upstream gave it.
    pub fn raw(&self) -> (r: &RawRecord)
        ensures
            *r == self.wire(),
    {
        &self.raw
    }

    /// Whether this is an address record of the class IN.
    pub fn has_address_type(&self) -> (r: bool)
        ensures
            r == self.is_address(),
    {
        self.class == CLASS_IN && (self.rtype == TYPE_A || self.rtype == TYPE_AAAA)
    }
}

/// The questions of the message that `hickory_proto` decodes from `bytes`,
/// in their order. Nothing where it decodes no message.
pub uninterp spec fn decoded_queries(bytes: Seq<u8>) -> Option<Seq<Query>>;

/// The name of a question with its labels as UTF-8, as `hickory_proto`
/// writes it.
pub uninterp spec fn utf8_of(q: Query) -> Seq<char>;

/// The name of a question with its labels as ASCII, as `hickory_proto`
/// writes it.
pub uninterp spec fn ascii_of(q: Query) -> Seq<char>;

/// The number of the type that a question asks for.
pub uninterp spec fn qtype_of(q: Query) -> u16;

/// The number of the class that a question asks in.
pub uninterp spec fn qclass_of(q: Query) -> u16;

/// The number of a record's class.
pub uninterp spec fn class_of(r: RawRecord) -> u16;

/// The number of a record's type.
pub uninterp spec fn rtype_of(r: RawRecord) -> u16;

/// The address in a record's data, where the data is A or AAAA data.
pub uninterp spec fn address_of(r: RawRecord) -> Option<IpAddr>;

/// The bytes that `hickory_proto` encodes a message as, which has the header
/// that `header` spells, the question `question` if there is one, and the
/// answers `answers`. Nothing where the header cannot be read or the encoder
/// fails.
pub uninterp spec fn encoded(
    header: Seq<u8>,
    question: Option<Query>,
    answers: Seq<RawRecord>,
) -> Option<Seq<u8>>;

/// What the engine reads of a question, if there is one: the name in both
/// forms, the type and the class.
pub open spec fn facts_of(q: Option<Question>) -> Option<(Seq<char>, Seq<char>, u16, u16)> {
    match q {
        Some(q) => Some((q.name(), q.ascii(), q.qtype(), q.qclass())),
        None => None,
    }
}

/// The request that `bytes` hold: the header that they spell and the first
/// of the questions that the decoder finds. None where they spell no header
/// or the decoder does not take them.
pub open spec fn request_of(bytes: Seq<u8>) -> Option<(Header, Option<Query>)> {
    match (request_header(bytes), decoded_queries(bytes)) {
        (Some(header), Some(queries)) => Some(
            (
                header,
                if queries.len() > 0 {
                    Some(queries[0])
                } else {
                    None
                },
            ),
        ),
        _ => None,
    }
}

/// The question as it was decoded, if there is one.
pub open spec fn wire_of(q: Option<Question>) -> Option<Query> {
    match q {
        Some(q) => Some(q.wire()),
        None => None,
    }
}

/// Decodes a request. A request comes back for the bytes that start with a
/// header and that the decoder takes. It has the header that the bytes
/// spell and the first question that the decoder found, with the name, the
/// type and the class that the decoder reads off that question.
pub fn decode(bytes: &[u8]) -> (r: Option<Request>)
    ensures
        match r {
            Some(request) => request_of(bytes@) == Some((request.header, wire_of(request.question)))
                && (request.question matches Some(q) ==> q.is_read()),
            None => request_of(bytes@) is None,
        },
{
    let header = match Header::read(bytes) {
        Some(header) => header,
        None => {
            return None;
        },
    };
    match message_queries(bytes) {
        Some(queries) => {
            let mut queries = queries;
            let question = if queries.len() > 0 {
                Some(Question::new(queries.swap_remove(0)))
            } else {
                None
            };
            Some(Request { header, question })
        },
        None => None,
    }
}

/// Whether `bytes` may be sent as the reply with header `header`, which
/// echoes a question if `echo` is set and holds `answers` answers: they are
/// no longer than a message may be, and they start with that header.
pub open spec fn is_reply(bytes: Seq<u8>, header: ReplyHeader, echo: bool, answers: int) -> bool {
    &&& HEADER_LEN <= bytes.len() <= MAX_MESSAGE_LEN
    &&& 0 <= answers <= u16::MAX
    &&& bytes.subrange(0, HEADER_LEN as int) == reply_header_bytes(
        header,
        if echo {
            1
        } else {
            0
        },
        answers as u16,
    )
}

/// A reply whose header was made from that of a request answers that
/// request: it starts with the id of the request, it is marked as a response
/// to the same kind of operation, with the RD and CD flags of the request,
/// and it is neither authoritative nor truncated. Its response code and its
/// RA flag are those that were decided.
pub proof fn lemma_reply_answers_request(
    request: Seq<u8>,
    reply: Seq<u8>,
    code: ResponseCode,
    recursion_available: bool,
    echo: bool,
    answers: int,
)
    requires
        request_header(request) is Some,
        is_reply(
            reply,
            ReplyHeader {
                response_code: code,
                recursion_available,
                ..response_from_request(request_header(request)->0)
            },
            echo,
            answers,
        ),
    ensures
        reply[0] == request[0],
        reply[1] == request[1],
        reply[2] >= 128,
        (reply[2] / 8) % 16 == (request[2] / 8) % 16,
        (reply[2] / 4) % 2 == 0,
        (reply[2] / 2) % 2 == 0,
        reply[2] % 2 == request[2] % 2,
        (reply[3] >= 128) == recursion_available,
        (reply[3] / 16) % 2 == (request[3] / 16) % 2,
        reply[3] % 16 == code.number(),
        be16(reply[4], reply[5]) == (if echo {
            1u16
        } else {
            0u16
        }),
        be16(reply[6], reply[7]) == answers,
{
    let h = request_header(request)->0;
    let header = ReplyHeader {
        response_code: code,
        recursion_available,
        ..response_from_request(h)
    };
    let questions = if echo {
        1u16
    } else {
        0u16
    };
    let expected = reply_header_bytes(header, questions, answers as u16);
    let front = reply.subrange(0, HEADER_LEN as int);
    assert(front[0] == reply[0] && front[1] == reply[1] && front[2] == reply[2] && front[3]
        == reply[3] && front[4] == reply[4] && front[5] == reply[5] && front[6] == reply[6]
        && front[7] == reply[7]);
    assert(expected[0] == (h.id / 256) as u8 && expected[1] == (h.id % 256) as u8);
    assert(expected[2] == (128 + h.op_code.number() * 8 + if h.recursion_desired {
        1int
    } else {
        0int
    }) as u8);
    assert(expected[3] == ((if recursion_available {
        128int
    } else {
        0int
    }) + (if h.checking_disabled {
        16int
    } else {
        0int
    }) + code.number()) as u8);
    assert(expected[4] == (questions / 256) as u8 && expected[5] == (questions % 256) as u8);
    assert(expected[6] == ((answers as u16) / 256) as u8 && expected[7] == ((answers as u16)
        % 256) as u8);
}

/// Tests an encoded reply against what was to be encoded.
pub fn vet_reply(bytes: Vec<u8>, header: &ReplyHeader, echo: bool, answers: usize) -> (r: Option<
    Vec<u8>,
>)
    ensures
        r == (if is_reply(bytes@, *header, echo, answers as int) {
            Some(bytes)
        } else {
            None
        }),
{
    if bytes.len() < HEADER_LEN || bytes.len() > MAX_MESSAGE_LEN || answers > 0xffff {
        return None;
    }
    let expected = header.to_bytes(
        if echo {
            1
        } else {
            0
        },
        answers as u16,
    );
    let mut i: usize = 0;
    while i < HEADER_LEN
        invariant
            i <= HEADER_LEN,
            expected@.len() == HEADER_LEN,
            expected@ == reply_header_bytes(
                *header,
                if echo {
                    1
                } else {
                    0
                },
                answers as u16,
            ),
            HEADER_LEN <= bytes@.len() <= MAX_MESSAGE_LEN,
            answers <= 0xffff,
            forall|j: int| 0 <= j < i ==> bytes@[j] == expected@[j],
        decreases HEADER_LEN - i,
    {
        if bytes[i] != expected[i] {
            assert(bytes@.subrange(0, HEADER_LEN as int)[i as int] != expected@[i as int]);
            return None;
        }
        i += 1;
    }
    assert(bytes@.subrange(0, HEADER_LEN as int) =~= expected@);
    Some(bytes)
}

/// The records as the upstream gave them.
pub open spec fn wires(records: Seq<Record>) -> Seq<RawRecord> {
    Seq::new(records.len(), |i: int| records[i].wire())
}

/// The bytes of the reply with the header `header`, the question `question`
/// if there is one, and the answers `answers`: what the encoder writes for a
/// message made of these, where it writes the whole of it. Nothing where the
/// encoder fails, or where what it wrote is not the whole reply, as when the
/// answers do not fit into one message.
pub open spec fn reply_of(
    header: ReplyHeader,
    question: Option<Query>,
    answers: Seq<RawRecord>,
) -> Option<Seq<u8>> {
    match encoded(reply_header_bytes(header, 0, 0), question, answers) {
        Some(bytes) => if is_reply(bytes, header, question is Some, answers.len() as int) {
            Some(bytes)
        } else {
            None
        },
        None => None,
    }
}

/// The bytes that a vector holds, if there is one.
pub open spec fn bytes_of(r: Option<Vec<u8>>) -> Option<Seq<u8>> {
    match r {
        Some(b) => Some(b@),
        None => None,
    }
}

/// Encodes a reply: the header, the question if one is echoed, and the
/// answers if there are any. Nothing comes back where the encoder fails, or
/// where what it wrote is not the whole reply, as when the answers do not
/// fit into one message.
pub fn mk_msg(header: ReplyHeader, q: Option<&Question>, answers: Option<Vec<Record>>) -> (r:
    Option<Vec<u8>>)
    ensures
        bytes_of(r) == reply_of(
            header,
            match q {
                Some(q) => Some(q.wire()),
                None => None,
            },
            match answers {
                Some(a) => wires(a@),
                None => Seq::empty(),
            },
        ),
{
    let records = match answers {
        Some(records) => records,
        None => {
            let none: Vec<Record> = Vec::new();
            assert(wires(none@) =~= Seq::<RawRecord>::empty());
            none
        },
    };
    let (question, echo) = match q {
        Some(q) => (Some(q.raw()), true),
        None => (None, false),
    };
    let n = records.len();
    match encode_message(&header.to_bytes(0, 0), question, &records) {
        Some(bytes) => vet_reply(bytes, &header, echo, n),
        None => None,
    }
}

/// `Message::from_vec`, without the error, and `Message::queries` of what
/// it gives. What comes back depends on the bytes alone.
#[verifier::external_body]
fn message_queries(bytes: &[u8]) -> (r: Option<Vec<Query>>)
    ensures
        (match r {
            Some(queries) => Some(queries@),
            None => None,
        }) == decoded_queries(bytes@),
{
    Message::from_vec(bytes).ok().map(|m| m.queries().to_vec())
}

/// `Name::to_utf8` of the question's name.
#[verifier::external_body]
fn query_name_utf8(q: &Query) -> (name: String)
    ensures
        name@ == utf8_of(*q),
{
    q.name().to_utf8()
}

/// `Name::to_ascii` of the question's name.
#[verifier::external_body]
fn query_name_ascii(q: &Query) -> (name: String)
    ensures
        name@ == ascii_of(*q),
{
    q.name().to_ascii()
}

/// `Query::query_type`, as its number.
#[verifier::external_body]
fn query_type(q: &Query) -> (code: u16)
    ensures
        code == qtype_of(*q),
{
    u16::from(q.query_type())
}

/// `Query::query_class`, as its number.
#[verifier::external_body]
fn query_class(q: &Query) -> (code: u16)
    ensures
        code == qclass_of(*q),
{
    u16::from(q.query_class())
}

/// `Record::dns_class`, as its number.
#[verifier::external_body]
fn record_class(r: &RawRecord) -> (code: u16)
    ensures
        code == class_of(*r),
{
    u16::from(r.0.dns_class())
}

/// `Record::record_type`, as its number.
#[verifier::external_body]
fn record_type(r: &RawRecord) -> (code: u16)
    ensures
        code == rtype_of(*r),
{
    u16::from(r.0.record_type())
}

/// `Record::data`: the address of A or AAAA data, nothing for other data or
/// for a record without data.
#[verifier::external_body]
fn record_address(r: &RawRecord) -> (a: Option<IpAddr>)
    ensures
        a == address_of(*r),
{
    match r.0.data() {
        Some(RData::A(a)) => Some(IpAddr::V4(u32::from(a.0))),
        Some(RData::AAAA(a)) => Some(IpAddr::V6(u128::from(a.0))),
        _ => None,
    }
}

/// `Message::to_vec`, without the error, of the message that `Message::new`
/// gives once `Message::set_header` has set the header that
/// `Header::from_bytes` reads from `header`, `Message::add_queries` has added
/// the question, and `Message::add_answers` has added the answers. What
/// comes back depends on these three alone.
#[verifier::external_body]
fn encode_message(header: &Vec<u8>, q: Option<&Query>, answers: &Vec<Record>) -> (r: Option<
    Vec<u8>,
>)
    ensures
        bytes_of(r) == encoded(
            header@,
            match q {
                Some(q) => Some(*q),
                None => None,
            },
            wires(answers@),
        ),
{
    let mut m = Message::new();
    m.set_header(hickory_proto::op::Header::from_bytes(header).ok()?);
    m.add_queries(q.cloned());
    m.add_answers(answers.iter().map(|r| r.raw.0.clone()));
    m.to_vec().ok()
}

} // verus!
