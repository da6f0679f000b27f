//! The engine: which upstream answers a question, and which of its records
//! are handed on.
//!
//! The engine asks nothing itself. `Diverge::start` looks at a request and
//! says either what to reply at once or whom to ask; `Diverge::resume` takes
//! an upstream's answer and says either what to reply or whose answer to
//! wait for next. Whoever drives the engine does the asking.

use crate::conf::DivergeConf;
use crate::dns::{
    bytes_of, facts_of, lemma_reply_answers_request, mk_msg, reply_of, request_header, request_of,
    response_from_request, wire_of, wires, MessageType, OpCode, Question, Record, ReplyHeader,
    Request, ResponseCode, CLASS_IN, TYPE_A, TYPE_AAAA, TYPE_PTR,
};
use hickory_proto::op::Query;
use crate::domain_map::{canonical, lemma_lookup_is_value, lookup, DomainMap};
use crate::ip_map::{lookup4, lookup6, IpAddr, IpMap, IpMapView};
use crate::net::cidr_text;
use crate::ptr::{parse_ptr_verbose, ptr_address};
use crate::text::lines_of;
use crate::utils::{fold_lines, lemma_fold_lines_agree, lemma_fold_lines_keeps, FromLst};
use vstd::prelude::*;

verus! {

/// An upstream resolver, as far as the engine knows it: its name for the
/// log, and whether it is left out of AAAA lookups. Its place in the
/// engine's list is its id.
pub struct Upstream {
    pub name: String,
    pub disable_aaaa: bool,
}

/// A reply, ready to be encoded: the header, whether the request's first
/// question is echoed, and the answers, if there is an answer section.
pub struct Reply {
    pub header: ReplyHeader,
    pub echo: bool,
    pub answers: Option<Vec<Record>>,
}

/// A reply as the contracts speak of it.
pub ghost struct ReplyView {
    pub header: ReplyHeader,
    pub echo: bool,
    pub answers: Option<Seq<Record>>,
}

impl ReplyView {
    /// The bytes of the reply to a request whose first question is
    /// `question`: those of the header, of the question if it is echoed and
    /// there is one, and of the answers, where no answer section counts as an
    /// empty one. Nothing where the encoder fails or the reply does not fit
    /// into one message.
    pub open spec fn bytes(self, question: Option<Query>) -> Option<Seq<u8>> {
        reply_of(
            self.header,
            if self.echo {
                question
            } else {
                None
            },
            match self.answers {
                Some(a) => wires(a),
                None => Seq::empty(),
            },
        )
    }
}

impl View for Reply {
    type V = ReplyView;

    open spec fn view(&self) -> ReplyView {
        ReplyView {
            header: self.header,
            echo: self.echo,
            answers: match self.answers {
                Some(a) => Some(a@),
                None => None,
            },
        }
    }
}

impl Reply {
    /// Encodes the reply to `req`. The question that is echoed is the first
    /// one of `req`, as it was decoded. Nothing comes back where the encoder
    /// fails or the reply does not fit into one message.
    pub fn encode(self, req: &Request) -> (r: Option<Vec<u8>>)
        ensures
            bytes_of(r) == self@.bytes(wire_of(req.question)),
    {
        let q = if self.echo {
            req.question.as_ref()
        } else {
            None
        };
        mk_msg(self.header, q, self.answers)
    }
}

/// What is done with an upstream's answer.
#[derive(Clone, Copy, Debug, PartialEq, Eq, Structural)]
pub enum Kind {
    /// The domain map chose the upstream. Its answer is pruned against it;
    /// where that leaves none of its address records, the answer is empty.
    Pinned,
    /// No upstream was chosen. The upstreams are heard in their order, and
    /// the first whose pruned answer holds an address record gives the answer.
    Race,
    /// The answer is handed on as it is.
    Verbatim,
}

/// What the upstreams are asked.
pub enum Ask {
    /// The records of type `rtype` for `name`.
    Forward { name: String, rtype: u16 },
    /// The names of the address `addr`.
    Reverse { addr: IpAddr },
}

/// A question to the upstreams as the contracts speak of it.
pub ghost enum AskView {
    Forward { name: Seq<char>, rtype: u16 },
    Reverse { addr: IpAddr },
}

impl View for Ask {
    type V = AskView;

    open spec fn view(&self) -> AskView {
        match self {
            Ask::Forward { name, rtype } => AskView::Forward { name: name@, rtype: *rtype },
            Ask::Reverse { addr } => AskView::Reverse { addr: *addr },
        }
    }
}

/// A request that waits for an upstream.
///
/// Where `turn` is 0, nothing was asked yet: every upstream in `upstreams`
/// is to be asked `ask`, all at once. The answer that is waited for is that
/// of `upstreams[turn]`; it goes to `Diverge::resume`.
pub struct Pending {
    pub kind: Kind,
    pub ask: Ask,
    pub upstreams: Vec<u8>,
    pub turn: usize,
    pub header: ReplyHeader,
}

/// A waiting request as the contracts speak of it.
pub ghost struct PendingView {
    pub kind: Kind,
    pub ask: AskView,
    pub upstreams: Seq<u8>,
    pub turn: int,
    pub header: ReplyHeader,
}

impl View for Pending {
    type V = PendingView;

    open spec fn view(&self) -> PendingView {
        PendingView {
            kind: self.kind,
            ask: self.ask@,
            upstreams: self.upstreams@,
            turn: self.turn as int,
            header: self.header,
        }
    }
}

/// What the engine wants done next.
pub enum Step {
    /// Send this reply.
    Reply(Reply),
    /// Wait for an upstream's answer.
    Wait(Pending),
}

/// A step as the contracts speak of it.
pub ghost enum StepView {
    Reply(ReplyView),
    Wait(PendingView),
}

impl View for Step {
    type V = StepView;

    open spec fn view(&self) -> StepView {
        match self {
            Step::Reply(r) => StepView::Reply(r@),
            Step::Wait(p) => StepView::Wait(p@),
        }
    }
}

/// The reply that refuses a request with `code`.
pub open spec fn refusal(header: ReplyHeader, code: ResponseCode, echo: bool) -> StepView {
    StepView::Reply(
        ReplyView { header: ReplyHeader { response_code: code, ..header }, echo, answers: None },
    )
}

/// The reply that answers a request with `answers`.
pub open spec fn answer(header: ReplyHeader, answers: Seq<Record>) -> StepView {
    StepView::Reply(ReplyView { header, echo: true, answers: Some(answers) })
}

/// The upstream `id` takes part in a lookup: it is one of the upstreams, and
/// the lookup is not an AAAA one that it is left out of.
pub open spec fn takes_part(disable_aaaa: Seq<bool>, aaaa: bool, id: int) -> bool {
    0 <= id < disable_aaaa.len() && !(disable_aaaa[id] && aaaa)
}

/// The ids below `upto` of the upstreams that take part in a lookup, in
/// their order: all of them, but for an AAAA lookup those that are left out
/// of such.
pub open spec fn candidates(disable_aaaa: Seq<bool>, aaaa: bool, upto: int) -> Seq<u8>
    decreases upto,
{
    if upto <= 0 {
        Seq::empty()
    } else if takes_part(disable_aaaa, aaaa, upto - 1) {
        candidates(disable_aaaa, aaaa, upto - 1).push((upto - 1) as u8)
    } else {
        candidates(disable_aaaa, aaaa, upto - 1)
    }
}

/// The address of the record `r` belongs to upstream `v`: `r` is an A record
/// of the class IN whose IPv4 address the map gives to `v`, or an AAAA record
/// of the class IN whose IPv6 address the map gives to `v`.
pub open spec fn owned(ips: IpMapView<u8>, r: Record, v: u8) -> bool {
    r.class() == CLASS_IN && match r.addr() {
        Some(IpAddr::V4(a)) => r.rtype() == TYPE_A && lookup4(ips.v4, ips.default, a) == v,
        Some(IpAddr::V6(a)) => r.rtype() == TYPE_AAAA && lookup6(ips.v6, ips.default, a) == v,
        None => false,
    }
}

/// Pruning against `v` keeps `r`: it is no address record, or its address
/// belongs to `v`.
pub open spec fn keeps(ips: IpMapView<u8>, r: Record, v: u8) -> bool {
    !r.is_address() || owned(ips, r, v)
}

/// The records of `recs` that pruning against `v` keeps, in their order.
pub open spec fn pruned(ips: IpMapView<u8>, recs: Seq<Record>, v: u8) -> Seq<Record>
    decreases recs.len(),
{
    if recs.len() == 0 {
        Seq::empty()
    } else if keeps(ips, recs.last(), v) {
        pruned(ips, recs.drop_last(), v).push(recs.last())
    } else {
        pruned(ips, recs.drop_last(), v)
    }
}

/// How many address records of `recs` pruning against `v` keeps.
pub open spec fn count_owned(ips: IpMapView<u8>, recs: Seq<Record>, v: u8) -> nat
    decreases recs.len(),
{
    if recs.len() == 0 {
        0
    } else if owned(ips, recs.last(), v) {
        count_owned(ips, recs.drop_last(), v) + 1
    } else {
        count_owned(ips, recs.drop_last(), v)
    }
}

/// Whether `recs` holds an address record.
pub open spec fn has_address(recs: Seq<Record>) -> bool {
    exists|i: int| 0 <= i < recs.len() && (#[trigger] recs[i]).is_address()
}

/// The records of `recs` that are no address records, in their order.
pub open spec fn others(recs: Seq<Record>) -> Seq<Record>
    decreases recs.len(),
{
    if recs.len() == 0 {
        Seq::empty()
    } else if recs.last().is_address() {
        others(recs.drop_last())
    } else {
        others(recs.drop_last()).push(recs.last())
    }
}

/// Every address record that pruning against `v` has kept has an address
/// that the map gives to `v`.
pub proof fn lemma_pruned_owned(ips: IpMapView<u8>, recs: Seq<Record>, v: u8)
    ensures
        forall|i: int|
            0 <= i < pruned(ips, recs, v).len() && (#[trigger] pruned(ips, recs, v)[i]).is_address()
                ==> owned(ips, pruned(ips, recs, v)[i], v),
        forall|i: int|
            0 <= i < pruned(ips, recs, v).len() && (#[trigger] pruned(ips, recs, v)[i]).is_address()
                ==> pruned(ips, recs, v)[i].addr() is Some && ips.lookup(
                pruned(ips, recs, v)[i].addr()->0,
            ) == v,
    decreases recs.len(),
{
    if recs.len() > 0 {
        lemma_pruned_owned(ips, recs.drop_last(), v);
    }
}

/// Pruning leaves the records that are no address records as they are: all
/// of them stay, in their order.
pub proof fn lemma_prune_keeps_others(ips: IpMapView<u8>, recs: Seq<Record>, v: u8)
    ensures
        others(pruned(ips, recs, v)) == others(recs),
        !has_address(recs) ==> pruned(ips, recs, v) == recs,
    decreases recs.len(),
{
    if recs.len() > 0 {
        let front = recs.drop_last();
        lemma_prune_keeps_others(ips, front, v);
        if keeps(ips, recs.last(), v) {
            assert(pruned(ips, recs, v).drop_last() == pruned(ips, front, v));
        }
        if !has_address(recs) {
            if has_address(front) {
                let i = choose|i: int| 0 <= i < front.len() && (#[trigger] front[i]).is_address();
                assert(recs[i].is_address());
            }
            assert(!recs[recs.len() - 1].is_address());
            assert(front.push(recs.last()) == recs);
        }
    } else {
        assert(pruned(ips, recs, v) == recs);
    }
}

/// Pruning keeps as many address records as it counts, and no more records
/// than it was given.
pub proof fn lemma_pruned_count(ips: IpMapView<u8>, recs: Seq<Record>, v: u8)
    ensures
        count_owned(ips, recs, v) <= pruned(ips, recs, v).len() <= recs.len(),
        count_owned(ips, recs, v) > 0 ==> has_address(pruned(ips, recs, v)),
        count_owned(ips, recs, v) == 0 ==> !has_address(pruned(ips, recs, v)),
        has_address(pruned(ips, recs, v)) ==> has_address(recs),
    decreases recs.len(),
{
    if recs.len() > 0 {
        let front = recs.drop_last();
        let last = recs.last();
        lemma_pruned_count(ips, front, v);
        let p = pruned(ips, recs, v);
        let pf = pruned(ips, front, v);
        if has_address(pf) {
            let i = choose|i: int| 0 <= i < pf.len() && (#[trigger] pf[i]).is_address();
            assert(p[i].is_address());
        }
        if owned(ips, last, v) {
            assert(p[p.len() - 1].is_address());
        }
        if has_address(p) {
            let i = choose|i: int| 0 <= i < p.len() && (#[trigger] p[i]).is_address();
            if i < pf.len() {
                assert(pf[i].is_address());
            } else {
                assert(recs[recs.len() - 1].is_address());
            }
            if has_address(front) {
                let j = choose|j: int| 0 <= j < front.len() && (#[trigger] front[j]).is_address();
                assert(recs[j].is_address());
            }
        }
    }
}

/// The lines of the list files of one upstream: those that list names, and
/// those that list prefixes. A file that cannot be read is left out.
pub struct Lists {
    pub domains: Vec<Vec<String>>,
    pub ips: Vec<Vec<String>>,
}

/// The lines of each file.
pub open spec fn files_of(files: Seq<Vec<String>>) -> Seq<Seq<Seq<char>>> {
    Seq::new(files.len(), |i: int| lines_of(files[i]@))
}

/// What becomes of `m` as the entries of the first `n` of `files` are
/// appended to it by `step`, file after file.
pub open spec fn fold_files<M>(
    step: spec_fn(M, Seq<char>) -> Option<M>,
    m: M,
    files: Seq<Seq<Seq<char>>>,
    n: int,
) -> M
    decreases n,
{
    if n <= 0 {
        m
    } else {
        fold_lines(step, fold_files(step, m, files, n - 1), files[n - 1], files[n - 1].len() as int).0
    }
}

/// A line of a list of names gives its name to the upstream `id`.
pub open spec fn domain_step(id: u8) -> spec_fn(Map<Seq<char>, u8>, Seq<char>) -> Option<
    Map<Seq<char>, u8>,
> {
    |m: Map<Seq<char>, u8>, l: Seq<char>| Some(m.insert(canonical(l), id))
}

/// A line of a list of prefixes gives its prefix to the upstream `id`, where
/// it spells one.
pub open spec fn ip_step(id: u8) -> spec_fn(IpMapView<u8>, Seq<char>) -> Option<IpMapView<u8>> {
    |m: IpMapView<u8>, l: Seq<char>|
        match cidr_text(l) {
            Some((addr, len)) => Some(m.insert(addr, len, id)),
            None => None,
        }
}

/// The domain map once the lists of the first `upto` upstreams are loaded.
pub open spec fn loaded_domains(lists: Seq<Lists>, upto: int) -> Map<Seq<char>, u8>
    decreases upto,
{
    if upto <= 0 {
        Map::empty()
    } else {
        fold_files(
            domain_step((upto - 1) as u8),
            loaded_domains(lists, upto - 1),
            files_of(lists[upto - 1].domains@),
            lists[upto - 1].domains@.len() as int,
        )
    }
}

/// The IP map once the lists of the first `upto` upstreams are loaded. Its
/// default is the last upstream.
pub open spec fn loaded_ips(lists: Seq<Lists>, upto: int) -> IpMapView<u8>
    decreases upto,
{
    if upto <= 0 {
        IpMapView { v4: Map::empty(), v6: Map::empty(), default: (lists.len() - 1) as u8 }
    } else {
        fold_files(
            ip_step((upto - 1) as u8),
            loaded_ips(lists, upto - 1),
            files_of(lists[upto - 1].ips@),
            lists[upto - 1].ips@.len() as int,
        )
    }
}

/// Every value of a domain map is below `n`.
pub open spec fn domains_below(n: int) -> spec_fn(Map<Seq<char>, u8>) -> bool {
    |m: Map<Seq<char>, u8>| forall|k: Seq<char>| #[trigger] m.contains_key(k) ==> m[k] < n
}

/// Every value of an IP map is below `n`, and its default is `n - 1`.
pub open spec fn ips_below(n: int) -> spec_fn(IpMapView<u8>) -> bool {
    |m: IpMapView<u8>|
        {
            &&& forall|k: (u32, u32)| #[trigger] m.v4.contains_key(k) ==> m.v4[k] < n
            &&& forall|k: (u128, u32)| #[trigger] m.v6.contains_key(k) ==> m.v6[k] < n
            &&& m.default == n - 1
        }
}

/// What an engine holds: the domain map, the IP map, and for each upstream
/// its name and whether it is left out of AAAA lookups.
pub ghost struct DivergeView {
    pub domains: Map<Seq<char>, u8>,
    pub ips: IpMapView<u8>,
    pub names: Seq<Seq<char>>,
    pub disable_aaaa: Seq<bool>,
}

/// The names of the upstreams, in their order.
pub open spec fn names_of(upstreams: Seq<Upstream>) -> Seq<Seq<char>> {
    Seq::new(upstreams.len(), |i: int| upstreams[i].name@)
}

/// For each upstream, in their order, whether it is left out of AAAA
/// lookups.
pub open spec fn flags_of(upstreams: Seq<Upstream>) -> Seq<bool> {
    Seq::new(upstreams.len(), |i: int| upstreams[i].disable_aaaa)
}

/// The names of the upstreams that a configuration declares, in their order.
pub open spec fn section_names(conf: DivergeConf) -> Seq<Seq<char>> {
    Seq::new(conf.upstreams@.len(), |i: int| conf.upstreams@[i].name@)
}

/// For each upstream that a configuration declares, in their order, whether
/// it is left out of AAAA lookups.
pub open spec fn section_flags(conf: DivergeConf) -> Seq<bool> {
    Seq::new(conf.upstreams@.len(), |i: int| conf.upstreams@[i].disable_aaaa)
}

impl DivergeView {
    /// The number of upstreams.
    pub open spec fn n(self) -> int {
        self.disable_aaaa.len() as int
    }

    /// There are between 1 and 256 upstreams, each with a name, both maps
    /// give ids of upstreams only, and the IP map's default is the last
    /// upstream.
    pub open spec fn wf(self) -> bool {
        &&& 1 <= self.n() <= 256
        &&& self.names.len() == self.n()
        &&& forall|k: Seq<char>| #[trigger] self.domains.contains_key(k) ==> self.domains[k] < self.n()
        &&& forall|k: (u32, u32)| #[trigger] self.ips.v4.contains_key(k) ==> self.ips.v4[k] < self.n()
        &&& forall|k: (u128, u32)| #[trigger]
            self.ips.v6.contains_key(k) ==> self.ips.v6[k] < self.n()
        &&& self.ips.default == self.n() - 1
    }

    /// What is done about a lookup of the addresses of `name`, which is
    /// asked of the upstreams as `ascii`.
    pub open spec fn start_ip(
        self,
        header: ReplyHeader,
        name: Seq<char>,
        ascii: Seq<char>,
        rtype: u16,
    ) -> StepView {
        let ask = AskView::Forward { name: ascii, rtype };
        match lookup(self.domains, name) {
            Some(i) => if 0 <= i < self.n() && self.disable_aaaa[i as int] && rtype == TYPE_AAAA {
                answer(header, Seq::empty())
            } else {
                StepView::Wait(
                    PendingView { kind: Kind::Pinned, ask, upstreams: seq![i], turn: 0, header },
                )
            },
            None => {
                let c = candidates(self.disable_aaaa, rtype == TYPE_AAAA, self.n());
                if c.len() == 0 {
                    answer(header, Seq::empty())
                } else {
                    StepView::Wait(
                        PendingView { kind: Kind::Race, ask, upstreams: c, turn: 0, header },
                    )
                }
            },
        }
    }

    /// What is done about a request, before any upstream was asked.
    pub open spec fn start(self, req: Request) -> StepView {
        let h = req.header;
        let base = response_from_request(h);
        if h.message_type != MessageType::Query || h.op_code != OpCode::Query {
            refusal(base, ResponseCode::FormErr, false)
        } else if h.query_count == 0 || req.question is None {
            refusal(base, ResponseCode::FormErr, false)
        } else if h.query_count > 1 {
            refusal(base, ResponseCode::NotImp, true)
        } else if h.answer_count != 0 {
            refusal(base, ResponseCode::FormErr, true)
        } else {
            let q = req.question->0;
            let header = ReplyHeader { recursion_available: h.recursion_desired, ..base };
            if q.qclass() != CLASS_IN {
                refusal(header, ResponseCode::NotImp, true)
            } else if q.qtype() == TYPE_A || q.qtype() == TYPE_AAAA {
                self.start_ip(header, q.name(), q.ascii(), q.qtype())
            } else if q.qtype() == TYPE_PTR {
                match ptr_address(q.ascii()) {
                    Some(addr) => StepView::Wait(
                        PendingView {
                            kind: Kind::Verbatim,
                            ask: AskView::Reverse { addr },
                            upstreams: seq![self.ips.lookup(addr)],
                            turn: 0,
                            header,
                        },
                    ),
                    None => refusal(header, ResponseCode::FormErr, true),
                }
            } else {
                StepView::Wait(
                    PendingView {
                        kind: Kind::Verbatim,
                        ask: AskView::Forward { name: q.ascii(), rtype: q.qtype() },
                        upstreams: seq![
                            match lookup(self.domains, q.name()) {
                                Some(i) => i,
                                None => 0u8,
                            },
                        ],
                        turn: 0,
                        header,
                    },
                )
            }
        }
    }

    /// What is done once the upstream that `p` waits for has answered with
    /// `answer`, or has failed, in which case `answer` is `None`.
    pub open spec fn resume(self, p: PendingView, answer: Option<Seq<Record>>) -> StepView {
        if !(0 <= p.turn < p.upstreams.len()) {
            self::answer(p.header, Seq::empty())
        } else {
            let v = p.upstreams[p.turn];
            match p.kind {
                Kind::Verbatim => StepView::Reply(
                    ReplyView { header: p.header, echo: true, answers: answer },
                ),
                Kind::Pinned => match answer {
                    Some(recs) => if count_owned(self.ips, recs, v) == 0 && has_address(recs) {
                        self::answer(p.header, Seq::empty())
                    } else {
                        self::answer(p.header, pruned(self.ips, recs, v))
                    },
                    None => self::answer(p.header, Seq::empty()),
                },
                Kind::Race => if answer is Some && count_owned(self.ips, answer->0, v) > 0 {
                    self::answer(p.header, pruned(self.ips, answer->0, v))
                } else if p.turn + 1 < p.upstreams.len() {
                    StepView::Wait(PendingView { turn: p.turn + 1, ..p })
                } else {
                    self::answer(p.header, Seq::empty())
                },
            }
        }
    }
}

/// The engine: the two maps and the list of upstreams.
pub struct Diverge {
    domain_map: DomainMap<u8>,
    ip_map: IpMap<u8>,
    upstreams: Vec<Upstream>,
}

impl View for Diverge {
    type V = DivergeView;

    closed spec fn view(&self) -> DivergeView {
        DivergeView {
            domains: self.domain_map@,
            ips: self.ip_map@,
            names: names_of(self.upstreams@),
            disable_aaaa: flags_of(self.upstreams@),
        }
    }
}

impl Diverge {
    /// There is an upstream for every id that the maps give.
    #[verifier::type_invariant]
    spec fn inv(&self) -> bool {
        self@.wf()
    }

    /// An engine with the given upstreams, whose maps hold what `lists`
    /// lists: `lists[i]` holds the lines of the list files of upstream `i`.
    /// The upstreams are taken in their order, and so are the files of each.
    /// An address that no prefix covers belongs to the last upstream.
    ///
    /// Nothing comes back where there is no upstream, where there are more
    /// than 256, or where `lists` is not as long as `upstreams`.
    pub fn build(upstreams: Vec<Upstream>, lists: &Vec<Lists>) -> (r: Option<Diverge>)
        ensures
            r is Some <==> 1 <= upstreams@.len() <= 256 && lists@.len() == upstreams@.len(),
            r matches Some(d) ==> {
                &&& d@.wf()
                &&& d@.domains == loaded_domains(lists@, lists@.len() as int)
                &&& d@.ips == loaded_ips(lists@, lists@.len() as int)
                &&& d@.names == names_of(upstreams@)
                &&& d@.disable_aaaa == flags_of(upstreams@)
            },
    {
        let n = upstreams.len();
        if n == 0 || n > 256 || lists.len() != n {
            return None;
        }
        let mut domain_map: DomainMap<u8> = DomainMap::new();
        let mut ip_map: IpMap<u8> = IpMap::new((n - 1) as u8);
        assert(ip_map@ == loaded_ips(lists@, 0));
        let mut i: usize = 0;
        while i < n
            invariant
                i <= n,
                1 <= n <= 256,
                n == lists@.len(),
                domain_map@ == loaded_domains(lists@, i as int),
                ip_map@ == loaded_ips(lists@, i as int),
                domains_below(n as int)(domain_map@),
                ips_below(n as int)(ip_map@),
            decreases n - i,
        {
            let id = i as u8;
            let names = &lists[i].domains;
            let mut j: usize = 0;
            while j < names.len()
                invariant
                    j <= names@.len(),
                    i < n <= 256,
                    id == i,
                    domain_map@ == fold_files(
                        domain_step(id),
                        loaded_domains(lists@, i as int),
                        files_of(names@),
                        j as int,
                    ),
                    domains_below(n as int)(domain_map@),
                decreases names@.len() - j,
            {
                let ghost before = domain_map@;
                proof {
                    let lines = lines_of(names@[j as int]@);
                    assert(files_of(names@)[j as int] == lines);
                    lemma_fold_lines_agree(
                        |m: Map<Seq<char>, u8>, l: Seq<char>| DomainMap::<u8>::with_line(m, l, id),
                        domain_step(id),
                        before,
                        lines,
                        lines.len() as int,
                    );
                    lemma_fold_lines_keeps(
                        domain_step(id),
                        before,
                        lines,
                        lines.len() as int,
                        domains_below(n as int),
                    );
                }
                domain_map.append_from(&names[j], id);
                j += 1;
            }
            let prefixes = &lists[i].ips;
            let mut k: usize = 0;
            while k < prefixes.len()
                invariant
                    k <= prefixes@.len(),
                    i < n <= 256,
                    id == i,
                    ip_map@ == fold_files(
                        ip_step(id),
                        loaded_ips(lists@, i as int),
                        files_of(prefixes@),
                        k as int,
                    ),
                    ips_below(n as int)(ip_map@),
                decreases prefixes@.len() - k,
            {
                let ghost before = ip_map@;
                proof {
                    let lines = lines_of(prefixes@[k as int]@);
                    assert(files_of(prefixes@)[k as int] == lines);
                    lemma_fold_lines_agree(
                        |m: IpMapView<u8>, l: Seq<char>| IpMap::<u8>::with_line(m, l, id),
                        ip_step(id),
                        before,
                        lines,
                        lines.len() as int,
                    );
                    lemma_fold_lines_keeps(
                        ip_step(id),
                        before,
                        lines,
                        lines.len() as int,
                        ips_below(n as int),
                    );
                }
                ip_map.append_from(&prefixes[k], id);
                k += 1;
            }
            i += 1;
        }
        Some(Diverge { domain_map, ip_map, upstreams })
    }

    /// The engine that `conf` describes: an upstream for each of its
    /// upstream sections, in their order, with the maps filled from `lists`
    /// as `build` fills them.
    pub fn from(conf: &DivergeConf, lists: &Vec<Lists>) -> (r: Option<Diverge>)
        ensures
            r is Some <==> 1 <= conf.upstreams@.len() <= 256 && lists@.len()
                == conf.upstreams@.len(),
            r matches Some(d) ==> {
                &&& d@.wf()
                &&& d@.domains == loaded_domains(lists@, lists@.len() as int)
                &&& d@.ips == loaded_ips(lists@, lists@.len() as int)
                &&& d@.names == section_names(*conf)
                &&& d@.disable_aaaa == section_flags(*conf)
            },
    {
        let mut upstreams: Vec<Upstream> = Vec::new();
        let mut i: usize = 0;
        while i < conf.upstreams.len()
            invariant
                i <= conf.upstreams@.len(),
                upstreams@.len() == i,
                forall|j: int|
                    0 <= j < i ==> (#[trigger] upstreams@[j]).disable_aaaa
                        == conf.upstreams@[j].disable_aaaa && upstreams@[j].name@
                        == conf.upstreams@[j].name@,
            decreases conf.upstreams@.len() - i,
        {
            let section = &conf.upstreams[i];
            upstreams.push(
                Upstream { name: section.name.clone(), disable_aaaa: section.disable_aaaa },
            );
            i += 1;
        }
        assert(names_of(upstreams@) =~= section_names(*conf));
        assert(flags_of(upstreams@) =~= section_flags(*conf));
        Diverge::build(upstreams, lists)
    }

    /// The number of upstreams.
    pub fn upstream_count(&self) -> (n: usize)
        ensures
            n == self@.n(),
            self@.wf(),
    {
        proof {
            use_type_invariant(self);
        }
        self.upstreams.len()
    }

    /// The upstream with the id `i`.
    pub fn upstream(&self, i: u8) -> (r: Option<&Upstream>)
        ensures
            r is Some <==> i < self@.n(),
            r matches Some(u) ==> u.name@ == self@.names[i as int] && u.disable_aaaa
                == self@.disable_aaaa[i as int],
    {
        if (i as usize) < self.upstreams.len() {
            Some(&self.upstreams[i as usize])
        } else {
            None
        }
    }

    /// Appends to `ret` the records of `records` that pruning against the
    /// upstream `v` keeps: every record that is no address record, and the
    /// address records whose address the IP map gives to `v`. Returns how many
    /// address records were kept.
    pub fn prune(&self, ret: &mut Vec<Record>, records: Vec<Record>, v: u8) -> (c: usize)
        ensures
            final(ret)@ == old(ret)@ + pruned(self@.ips, records@, v),
            c == count_owned(self@.ips, records@, v),
    {
        let mut c: usize = 0;
        let ghost before = ret@;
        let n = records.len();
        assert(records@.take(0) == Seq::<Record>::empty());
        for r in it: records
            invariant
                it.seq() == records@,
                records@.len() == n,
                c <= it.index(),
                c == count_owned(self@.ips, records@.take(it.index() as int), v),
                ret@ == before + pruned(self@.ips, records@.take(it.index() as int), v),
        {
            let ghost k = it.index() as int;
            proof {
                assert(records@.take(k + 1).drop_last() == records@.take(k));
                assert(records@.take(k + 1).last() == r);
            }
            let keep_address = r.dns_class() == CLASS_IN && match r.address() {
                Some(IpAddr::V4(a)) => r.record_type() == TYPE_A && self.ip_map.get4(a) == v,
                Some(IpAddr::V6(a)) => r.record_type() == TYPE_AAAA && self.ip_map.get6(a) == v,
                None => false,
            };
            if keep_address {
                ret.push(r);
                c += 1;
            } else if !r.has_address_type() {
                ret.push(r);
            }
            assert(ret@ =~= before + pruned(self@.ips, records@.take(k + 1), v));
        }
        assert(records@.take(records@.len() as int) == records@);
        c
    }

    /// The ids of the upstreams that take part in a lookup, in their order.
    fn candidates(&self, aaaa: bool) -> (c: Vec<u8>)
        ensures
            c@ == candidates(self@.disable_aaaa, aaaa, self@.n()),
    {
        proof {
            use_type_invariant(self);
        }
        let n = self.upstreams.len();
        let mut c: Vec<u8> = Vec::new();
        let mut i: usize = 0;
        while i < n
            invariant
                i <= n,
                n == self.upstreams@.len(),
                n <= 256,
                c@ == candidates(self@.disable_aaaa, aaaa, i as int),
            decreases n - i,
        {
            if !(self.upstreams[i].disable_aaaa && aaaa) {
                c.push(i as u8);
            }
            i += 1;
        }
        c
    }

    /// What is done about a lookup of the addresses that `q` asks for.
    fn start_ip(&self, header: ReplyHeader, q: &Question) -> (s: Step)
        ensures
            s@ == self@.start_ip(header, q.name(), q.ascii(), q.qtype()),
    {
        proof {
            use_type_invariant(self);
        }
        let rtype = q.query_type();
        let ask = Ask::Forward { name: q.name_ascii().to_owned(), rtype };
        match self.domain_map.get(q.name_utf8()) {
            Some(i) => {
                proof {
                    lemma_lookup_is_value(self@.domains, q.name());
                }
                if self.upstreams[i as usize].disable_aaaa && rtype == TYPE_AAAA {
                    Step::Reply(Reply { header, echo: true, answers: Some(Vec::new()) })
                } else {
                    let mut upstreams: Vec<u8> = Vec::new();
                    upstreams.push(i);
                    assert(upstreams@ =~= seq![i]);
                    Step::Wait(Pending { kind: Kind::Pinned, ask, upstreams, turn: 0, header })
                }
            },
            None => {
                let upstreams = self.candidates(rtype == TYPE_AAAA);
                if upstreams.len() == 0 {
                    Step::Reply(Reply { header, echo: true, answers: Some(Vec::new()) })
                } else {
                    Step::Wait(Pending { kind: Kind::Race, ask, upstreams, turn: 0, header })
                }
            },
        }
    }

    /// Looks at a request and says what is done about it: the reply to
    /// send at once, or the upstreams to ask.
    ///
    /// A request that is no standard query, or that has no question, is
    /// refused as malformed, without its question. One with more than one
    /// question is refused as not implemented, one that brings answers as
    /// malformed, both with the first question. Beyond that the reply says
    /// that recursion is available where the request asked for it. A
    /// question in a class other than IN is refused as not implemented, and
    /// a PTR question whose name is no reverse-lookup name as malformed.
    pub fn start(&self, req: &Request) -> (s: Step)
        ensures
            s@ == self@.start(*req),
            self@.wf(),
    {
        proof {
            use_type_invariant(self);
        }
        let h = &req.header;
        let base = ReplyHeader::from_request(h);
        if h.message_type != MessageType::Query || h.op_code != OpCode::Query {
            return refuse(base, ResponseCode::FormErr, false);
        }
        let q = match &req.question {
            Some(q) => q,
            None => {
                return refuse(base, ResponseCode::FormErr, false);
            },
        };
        if h.query_count == 0 {
            return refuse(base, ResponseCode::FormErr, false);
        }
        if h.query_count > 1 {
            return refuse(base, ResponseCode::NotImp, true);
        }
        if h.answer_count != 0 {
            return refuse(base, ResponseCode::FormErr, true);
        }
        let header = ReplyHeader { recursion_available: h.recursion_desired, ..base };
        if q.query_class() != CLASS_IN {
            return refuse(header, ResponseCode::NotImp, true);
        }
        let rtype = q.query_type();
        if rtype == TYPE_A || rtype == TYPE_AAAA {
            self.start_ip(header, q)
        } else if rtype == TYPE_PTR {
            match parse_ptr_verbose(q.name_ascii()) {
                Some(addr) => {
                    let mut upstreams: Vec<u8> = Vec::new();
                    upstreams.push(self.ip_map.get(addr));
                    assert(upstreams@ =~= seq![self@.ips.lookup(addr)]);
                    Step::Wait(
                        Pending {
                            kind: Kind::Verbatim,
                            ask: Ask::Reverse { addr },
                            upstreams,
                            turn: 0,
                            header,
                        },
                    )
                },
                None => refuse(header, ResponseCode::FormErr, true),
            }
        } else {
            let i = match self.domain_map.get(q.name_utf8()) {
                Some(i) => i,
                None => 0,
            };
            let mut upstreams: Vec<u8> = Vec::new();
            upstreams.push(i);
            assert(upstreams@ =~= seq![i]);
            Step::Wait(
                Pending {
                    kind: Kind::Verbatim,
                    ask: Ask::Forward { name: q.name_ascii().to_owned(), rtype },
                    upstreams,
                    turn: 0,
                    header,
                },
            )
        }
    }

    /// Takes the answer of the upstream that `p` waits for, or `None` where
    /// that upstream failed, and says what is done next: the reply to send,
    /// or the next upstream to wait for.
    pub fn resume(&self, p: Pending, answer: Option<Vec<Record>>) -> (s: Step)
        ensures
            s@ == self@.resume(
                p@,
                match answer {
                    Some(a) => Some(a@),
                    None => None,
                },
            ),
    {
        if p.turn >= p.upstreams.len() {
            return Step::Reply(Reply { header: p.header, echo: true, answers: Some(Vec::new()) });
        }
        let v = p.upstreams[p.turn];
        match p.kind {
            Kind::Verbatim => Step::Reply(Reply { header: p.header, echo: true, answers: answer }),
            Kind::Pinned => {
                let mut ret: Vec<Record> = Vec::new();
                match answer {
                    Some(records) => {
                        let some = any_address(&records);
                        let c = self.prune(&mut ret, records, v);
                        assert(ret@ =~= pruned(self@.ips, records@, v));
                        if c == 0 && some {
                            ret.clear();
                        }
                    },
                    None => {},
                }
                Step::Reply(Reply { header: p.header, echo: true, answers: Some(ret) })
            },
            Kind::Race => {
                let mut ret: Vec<Record> = Vec::new();
                let won = match answer {
                    Some(records) => {
                        let c = self.prune(&mut ret, records, v);
                        assert(ret@ =~= pruned(self@.ips, records@, v));
                        c > 0
                    },
                    None => false,
                };
                if won {
                    Step::Reply(Reply { header: p.header, echo: true, answers: Some(ret) })
                } else if p.turn + 1 < p.upstreams.len() {
                    Step::Wait(Pending { turn: p.turn + 1, ..p })
                } else {
                    ret.clear();
                    Step::Reply(Reply { header: p.header, echo: true, answers: Some(ret) })
                }
            },
        }
    }
}

/// The reply that refuses a request with `code`.
fn refuse(header: ReplyHeader, code: ResponseCode, echo: bool) -> (s: Step)
    ensures
        s@ == refusal(header, code, echo),
{
    Step::Reply(Reply { header: ReplyHeader { response_code: code, ..header }, echo, answers: None })
}

/// The candidates of a lookup are the ids of the upstreams that take part in
/// it, each once, in rising order.
pub proof fn lemma_candidates(disable_aaaa: Seq<bool>, aaaa: bool, upto: int)
    requires
        0 <= upto <= disable_aaaa.len(),
        upto <= 256,
    ensures
        candidates(disable_aaaa, aaaa, upto).len() <= upto,
        forall|j: int|
            0 <= j < candidates(disable_aaaa, aaaa, upto).len() ==> {
                let id = #[trigger] candidates(disable_aaaa, aaaa, upto)[j];
                id < upto && takes_part(disable_aaaa, aaaa, id as int)
            },
        forall|i: int, j: int|
            0 <= i < j < candidates(disable_aaaa, aaaa, upto).len() ==> candidates(
                disable_aaaa,
                aaaa,
                upto,
            )[i] < candidates(disable_aaaa, aaaa, upto)[j],
        forall|id: int|
            0 <= id < upto && #[trigger] takes_part(disable_aaaa, aaaa, id) ==> candidates(
                disable_aaaa,
                aaaa,
                upto,
            ).contains(id as u8),
    decreases upto,
{
    if upto > 0 {
        lemma_candidates(disable_aaaa, aaaa, upto - 1);
        let front = candidates(disable_aaaa, aaaa, upto - 1);
        let c = candidates(disable_aaaa, aaaa, upto);
        assert forall|id: int| 0 <= id < upto && #[trigger] takes_part(
            disable_aaaa,
            aaaa,
            id,
        ) implies c.contains(id as u8) by {
            if id < upto - 1 {
                assert(front.contains(id as u8));
                let j = choose|j: int| 0 <= j < front.len() && front[j] == id as u8;
                assert(c[j] == front[j]);
            } else {
                assert(c[c.len() - 1] == id as u8);
            }
        }
    }
}

/// A request that the engine answers with addresses: a standard query with
/// one question, which is in the class IN and asks for A or AAAA records,
/// and with no answers.
pub open spec fn asks_address(req: Request) -> bool {
    &&& req.header.message_type == MessageType::Query
    &&& req.header.op_code == OpCode::Query
    &&& req.header.query_count == 1
    &&& req.header.answer_count == 0
    &&& req.question matches Some(q) && q.qclass() == CLASS_IN && (q.qtype() == TYPE_A || q.qtype()
        == TYPE_AAAA)
}

/// The header of every reply to a request that passed the tests on its
/// header: that of the request, as a response without error, with recursion
/// available where it was desired.
pub open spec fn open_header(h: crate::dns::Header) -> ReplyHeader {
    ReplyHeader { recursion_available: h.recursion_desired, ..response_from_request(h) }
}

/// Whoever is asked is an upstream, and the first of them is waited for.
pub proof fn lemma_start_asks_upstreams(d: DivergeView, req: Request)
    requires
        d.wf(),
    ensures
        d.start(req) matches StepView::Wait(p) ==> {
            &&& p.turn == 0
            &&& p.upstreams.len() > 0
            &&& forall|j: int| 0 <= j < p.upstreams.len() ==> #[trigger] p.upstreams[j] < d.n()
            &&& p.header == open_header(req.header)
        },
{
    if d.start(req) is Wait {
        let p = d.start(req)->Wait_0;
        let q = req.question->0;
        lemma_lookup_is_value(d.domains, q.name());
        lemma_candidates(d.disable_aaaa, q.qtype() == TYPE_AAAA, d.n());
        if q.qtype() == TYPE_PTR {
            let addr = ptr_address(q.ascii())->0;
            crate::ip_map::lemma_lookup_is_value(d.ips, addr);
        }
    }
}

/// A request for addresses is never refused: either it is answered at once
/// with no records, or upstreams are asked for the name and the type of its
/// question, and what they say will be pruned.
pub proof fn lemma_address_question_is_taken(d: DivergeView, req: Request)
    requires
        asks_address(req),
    ensures
        match d.start(req) {
            StepView::Reply(r) => r == ReplyView {
                header: open_header(req.header),
                echo: true,
                answers: Some(Seq::empty()),
            },
            StepView::Wait(p) => {
                &&& p.kind != Kind::Verbatim
                &&& p.header == open_header(req.header)
                &&& p.ask == AskView::Forward {
                    name: req.question->0.ascii(),
                    rtype: req.question->0.qtype(),
                }
            },
        },
{
}

/// Every record of `part` is one of `whole`.
pub open spec fn taken_from(part: Seq<Record>, whole: Seq<Record>) -> bool {
    forall|i: int| 0 <= i < part.len() ==> whole.contains(#[trigger] part[i])
}

/// What pruning keeps was there before.
pub proof fn lemma_pruned_taken(ips: IpMapView<u8>, recs: Seq<Record>, v: u8)
    ensures
        taken_from(pruned(ips, recs, v), recs),
    decreases recs.len(),
{
    if recs.len() > 0 {
        let front = recs.drop_last();
        lemma_pruned_taken(ips, front, v);
        let p = pruned(ips, recs, v);
        assert forall|i: int| 0 <= i < p.len() implies recs.contains(#[trigger] p[i]) by {
            if i < pruned(ips, front, v).len() {
                let j = choose|j: int| 0 <= j < front.len() && front[j] == pruned(ips, front, v)[i];
                assert(recs[j] == p[i]);
            } else {
                assert(recs[recs.len() - 1] == p[i]);
            }
        }
    }
}

/// Where an answer is pruned, the reply keeps the header that was decided
/// at the start and echoes the question; its records are records of the
/// upstream's answer, and each address record among them has an address that
/// the IP map gives to the upstream that answered.
pub proof fn lemma_pruned_reply(d: DivergeView, p: PendingView, answer: Option<Seq<Record>>)
    requires
        p.kind != Kind::Verbatim,
    ensures
        match d.resume(p, answer) {
            StepView::Reply(r) => {
                &&& r.header == p.header
                &&& r.echo
                &&& r.answers matches Some(a) && match answer {
                    Some(recs) => taken_from(a, recs),
                    None => a.len() == 0,
                }
                &&& forall|i: int|
                    0 <= i < r.answers->0.len() && (#[trigger] r.answers->0[i]).is_address() ==> {
                        &&& 0 <= p.turn < p.upstreams.len()
                        &&& owned(d.ips, r.answers->0[i], p.upstreams[p.turn])
                        &&& r.answers->0[i].addr() is Some
                        &&& d.ips.lookup(r.answers->0[i].addr()->0) == p.upstreams[p.turn]
                    }
            },
            StepView::Wait(next) => {
                &&& p.kind == Kind::Race
                &&& next == PendingView { turn: p.turn + 1, ..p }
                &&& 0 < next.turn < next.upstreams.len()
            },
        },
{
    if 0 <= p.turn < p.upstreams.len() && answer is Some {
        let v = p.upstreams[p.turn];
        lemma_pruned_owned(d.ips, answer->0, v);
        lemma_pruned_taken(d.ips, answer->0, v);
    }
}

/// Where the domain map holds a suffix of the name asked for, the upstream
/// that is asked is the one that it gives for the longest such suffix, and no
/// other is asked. (For an AAAA question to an upstream that is left out of
/// AAAA lookups nobody is asked, and the reply holds no records.)
pub proof fn lemma_longest_suffix_decides(d: DivergeView, req: Request, key: Seq<char>)
    requires
        asks_address(req),
        d.domains.contains_key(key),
        crate::domain_map::is_label_suffix(
            key,
            crate::domain_map::canonical(req.question->0.name()),
        ),
        forall|other: Seq<char>|
            d.domains.contains_key(other) && #[trigger] crate::domain_map::is_label_suffix(
                other,
                crate::domain_map::canonical(req.question->0.name()),
            ) ==> other.len() <= key.len(),
    ensures
        match d.start(req) {
            StepView::Reply(r) => {
                &&& req.question->0.qtype() == TYPE_AAAA
                &&& 0 <= d.domains[key] < d.n() && d.disable_aaaa[d.domains[key] as int]
                &&& r.answers == Some(Seq::<Record>::empty())
            },
            StepView::Wait(p) => p.kind == Kind::Pinned && p.upstreams == seq![d.domains[key]],
        },
{
    crate::domain_map::lemma_longest_suffix_wins(d.domains, req.question->0.name(), key);
}

/// What is done about a request depends on its header and on the name, the
/// type and the class of its first question, and on nothing else: requests
/// that are decoded from the same bytes are treated alike.
pub proof fn lemma_start_reads_facts(d: DivergeView, a: Request, b: Request)
    requires
        a.header == b.header,
        facts_of(a.question) == facts_of(b.question),
    ensures
        d.start(a) == d.start(b),
{
}

/// A request whose answer is handed on as it is: a standard query with one
/// question, which is in the class IN and asks for records other than A,
/// AAAA and PTR ones, and with no answers.
pub open spec fn asks_other(req: Request) -> bool {
    &&& req.header.message_type == MessageType::Query
    &&& req.header.op_code == OpCode::Query
    &&& req.header.query_count == 1
    &&& req.header.answer_count == 0
    &&& req.question matches Some(q) && q.qclass() == CLASS_IN && q.qtype() != TYPE_A && q.qtype()
        != TYPE_AAAA && q.qtype() != TYPE_PTR
}

/// For records other than addresses as well, the upstream that is asked is
/// the one that the domain map gives for the longest suffix of the name that
/// it holds. Where it holds none, the first upstream is asked.
pub proof fn lemma_other_question_is_routed(d: DivergeView, req: Request)
    requires
        asks_other(req),
    ensures
        d.start(req) matches StepView::Wait(p) && p.kind == Kind::Verbatim && p.turn == 0
            && p.header == open_header(req.header) && p.ask == (AskView::Forward {
            name: req.question->0.ascii(),
            rtype: req.question->0.qtype(),
        }) && p.upstreams.len() == 1,
        forall|key: Seq<char>|
            d.domains.contains_key(key) && crate::domain_map::is_label_suffix(
                key,
                crate::domain_map::canonical(req.question->0.name()),
            ) && (forall|other: Seq<char>|
                d.domains.contains_key(other) && #[trigger] crate::domain_map::is_label_suffix(
                    other,
                    crate::domain_map::canonical(req.question->0.name()),
                ) ==> other.len() <= key.len()) ==> d.start(req)->Wait_0.upstreams[0]
                == d.domains[key],
        (forall|key: Seq<char>|
            d.domains.contains_key(key) ==> !#[trigger] crate::domain_map::is_label_suffix(
                key,
                crate::domain_map::canonical(req.question->0.name()),
            )) ==> d.start(req)->Wait_0.upstreams[0] == 0,
{
    let name = req.question->0.name();
    assert forall|key: Seq<char>|
        d.domains.contains_key(key) && crate::domain_map::is_label_suffix(
            key,
            crate::domain_map::canonical(name),
        ) && (forall|other: Seq<char>|
            d.domains.contains_key(other) && #[trigger] crate::domain_map::is_label_suffix(
                other,
                crate::domain_map::canonical(name),
            ) ==> other.len() <= key.len()) implies d.start(req)->Wait_0.upstreams[0]
        == d.domains[key] by {
        crate::domain_map::lemma_longest_suffix_wins(d.domains, name, key);
    }
    crate::domain_map::lemma_lookup_some_iff(d.domains, name);
}

/// The reply that a waiting request ends with, where `answers` says what
/// each upstream answers.
pub open spec fn finish(
    d: DivergeView,
    p: PendingView,
    answers: spec_fn(u8) -> Option<Seq<Record>>,
) -> ReplyView
    decreases p.upstreams.len() - p.turn,
{
    if !(0 <= p.turn < p.upstreams.len()) {
        ReplyView { header: p.header, echo: true, answers: Some(Seq::empty()) }
    } else {
        match d.resume(p, answers(p.upstreams[p.turn])) {
            StepView::Reply(r) => r,
            StepView::Wait(next) => if next.turn == p.turn + 1 && next.upstreams == p.upstreams {
                finish(d, next, answers)
            } else {
                ReplyView { header: p.header, echo: true, answers: Some(Seq::empty()) }
            },
        }
    }
}

/// The `w`-th upstream of `p` has an answer of which pruning keeps an
/// address record.
pub open spec fn wins(
    d: DivergeView,
    p: PendingView,
    answers: spec_fn(u8) -> Option<Seq<Record>>,
    w: int,
) -> bool {
    &&& 0 <= w < p.upstreams.len()
    &&& answers(p.upstreams[w]) is Some
    &&& count_owned(d.ips, answers(p.upstreams[w])->0, p.upstreams[w]) > 0
}

/// In a race the upstreams are heard in the order of the list: the first
/// one whose pruned answer holds an address record gives the reply, whatever
/// those after it answer.
pub proof fn lemma_race_first_wins(
    d: DivergeView,
    p: PendingView,
    answers: spec_fn(u8) -> Option<Seq<Record>>,
    w: int,
)
    requires
        p.kind == Kind::Race,
        0 <= p.turn <= w,
        wins(d, p, answers, w),
        forall|j: int| p.turn <= j < w ==> !wins(d, p, answers, j),
    ensures
        finish(d, p, answers) == (ReplyView {
            header: p.header,
            echo: true,
            answers: Some(pruned(d.ips, answers(p.upstreams[w])->0, p.upstreams[w])),
        }),
    decreases w - p.turn,
{
    if p.turn < w {
        assert(!wins(d, p, answers, p.turn));
        let next = PendingView { turn: p.turn + 1, ..p };
        assert forall|j: int| next.turn <= j < w implies !wins(d, next, answers, j) by {
            assert(!wins(d, p, answers, j));
        }
        assert(wins(d, next, answers, w));
        lemma_race_first_wins(d, next, answers, w);
    }
}

/// In a race in which no upstream has an answer of which pruning keeps an
/// address record, be it that they fail, the reply holds no records.
pub proof fn lemma_race_none_wins(
    d: DivergeView,
    p: PendingView,
    answers: spec_fn(u8) -> Option<Seq<Record>>,
)
    requires
        p.kind == Kind::Race,
        0 <= p.turn,
        forall|j: int| p.turn <= j < p.upstreams.len() ==> !wins(d, p, answers, j),
    ensures
        finish(d, p, answers) == (ReplyView {
            header: p.header,
            echo: true,
            answers: Some(Seq::empty()),
        }),
    decreases p.upstreams.len() - p.turn,
{
    if p.turn < p.upstreams.len() {
        assert(!wins(d, p, answers, p.turn));
        if p.turn + 1 < p.upstreams.len() {
            let next = PendingView { turn: p.turn + 1, ..p };
            assert forall|j: int| next.turn <= j < next.upstreams.len() implies !wins(
                d,
                next,
                answers,
                j,
            ) by {
                assert(!wins(d, p, answers, j));
            }
            lemma_race_none_wins(d, next, answers);
        }
    }
}

/// The reply that a request ends with, where `answers` says what each
/// upstream answers.
pub open spec fn outcome(
    d: DivergeView,
    req: Request,
    answers: spec_fn(u8) -> Option<Seq<Record>>,
) -> ReplyView {
    match d.start(req) {
        StepView::Reply(r) => r,
        StepView::Wait(p) => finish(d, p, answers),
    }
}

/// The header `h` was made from the header `request` of a request: but for
/// the response code and the RA flag it is the one that a reply starts out
/// with.
pub open spec fn made_from(h: ReplyHeader, request: crate::dns::Header) -> bool {
    h == (ReplyHeader {
        response_code: h.response_code,
        recursion_available: h.recursion_available,
        ..response_from_request(request)
    })
}

/// A waiting request ends with a reply that has the header that was decided
/// at the start.
pub proof fn lemma_finish_keeps_header(
    d: DivergeView,
    p: PendingView,
    answers: spec_fn(u8) -> Option<Seq<Record>>,
)
    ensures
        finish(d, p, answers).header == p.header,
    decreases p.upstreams.len() - p.turn,
{
    if 0 <= p.turn < p.upstreams.len() {
        match d.resume(p, answers(p.upstreams[p.turn])) {
            StepView::Reply(r) => {},
            StepView::Wait(next) => {
                if next.turn == p.turn + 1 && next.upstreams == p.upstreams {
                    lemma_finish_keeps_header(d, next, answers);
                }
            },
        }
    }
}

/// Whatever the upstreams answer, the bytes of the reply to a request, where
/// any come back, start with the id of the request and are marked as a
/// response.
pub proof fn lemma_reply_bytes_answer_request(
    d: DivergeView,
    bytes: Seq<u8>,
    req: Request,
    answers: spec_fn(u8) -> Option<Seq<Record>>,
)
    requires
        request_header(bytes) == Some(req.header),
    ensures
        made_from(outcome(d, req, answers).header, req.header),
        outcome(d, req, answers).bytes(wire_of(req.question)) matches Some(reply) ==> reply.len()
            >= 12 && reply[0] == bytes[0] && reply[1] == bytes[1] && reply[2] >= 128,
{
    let r = outcome(d, req, answers);
    match d.start(req) {
        StepView::Reply(_) => {},
        StepView::Wait(p) => {
            lemma_finish_keeps_header(d, p, answers);
        },
    }
    assert(made_from(r.header, req.header));
    if r.bytes(wire_of(req.question)) is Some {
        let reply = r.bytes(wire_of(req.question))->0;
        let question = if r.echo {
            wire_of(req.question)
        } else {
            None
        };
        let records = match r.answers {
            Some(a) => wires(a),
            None => Seq::empty(),
        };
        lemma_reply_answers_request(
            bytes,
            reply,
            r.header.response_code,
            r.header.recursion_available,
            question is Some,
            records.len() as int,
        );
    }
}

/// Requests that are decoded from the same bytes end alike: whatever the
/// upstreams answer, as long as they answer the same, the replies are the
/// same, and so are their bytes. The engine keeps nothing from one request to
/// the next.
pub proof fn lemma_same_bytes_same_reply(
    d: DivergeView,
    bytes: Seq<u8>,
    a: Request,
    b: Request,
    answers: spec_fn(u8) -> Option<Seq<Record>>,
)
    requires
        request_of(bytes) == Some((a.header, wire_of(a.question))),
        request_of(bytes) == Some((b.header, wire_of(b.question))),
        a.question matches Some(q) ==> q.is_read(),
        b.question matches Some(q) ==> q.is_read(),
    ensures
        outcome(d, a, answers) == outcome(d, b, answers),
        outcome(d, a, answers).bytes(wire_of(a.question)) == outcome(d, b, answers).bytes(
            wire_of(b.question),
        ),
{
    lemma_start_reads_facts(d, a, b);
}

/// Whether `records` holds an address record.
pub fn any_address(records: &Vec<Record>) -> (r: bool)
    ensures
        r == has_address(records@),
{
    let mut i: usize = 0;
    while i < records.len()
        invariant
            i <= records@.len(),
            forall|j: int| 0 <= j < i ==> !(#[trigger] records@[j]).is_address(),
        decreases records@.len() - i,
    {
        if records[i].has_address_type() {
            return true;
        }
        i += 1;
    }
    false
}

} // verus!
