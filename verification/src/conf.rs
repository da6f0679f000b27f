//! The configuration: where to listen, and the upstreams in the order in
//! which they are declared.
//!
//! A configuration is written in lines. `[name]` opens a section, and the
//! lines `key = value` that follow it set the keys of that section. Empty
//! lines and lines that start with `#` are passed over, and so are lines
//! before the first section. The section `global` says where to listen; every
//! other section declares an upstream of that name.

use crate::ip_map::IpAddr;
use crate::net::{ip_text, parse_ip_chars, parse_socket, socket_text, SocketAddr};
use crate::text::{
    chars_of, drop_spaces_at, find, find_at, lines_of, lower, lower_of, parse_plus_number,
    plus_number, same, skip_spaces_at, slice_of, split, split_chars, split_lines, split_words,
    string_of, texts, trim, trim_end, trim_start, words,
};
use vstd::prelude::*;

verus! {

/// Why a configuration is refused.
#[derive(Clone, Copy, Debug, PartialEq, Eq, Structural)]
pub enum ConfError {
    /// A line in a section is neither a comment nor of the form `key = value`.
    Line,
    /// The value of `listen` spells no address and port.
    Listen,
    /// A value of `addresses` spells no address.
    Address,
    /// The value of `protocol` names no protocol.
    Protocol,
    /// The value of `port` spells no port.
    Port,
    /// The value of `disable_aaaa` is neither `true` nor `false`.
    Flag,
}

/// How an upstream is spoken to.
#[derive(Clone, Copy, Debug, PartialEq, Eq, Structural)]
pub enum Protocol {
    Udp,
    Tcp,
    Tls,
    Https,
    H3,
}

/// What a line of a configuration says.
pub ghost enum LineKind {
    /// Nothing: the line is empty or a comment.
    Blank,
    /// A section opens.
    Section { name: Seq<char> },
    /// A key is set.
    Pair { key: Seq<char>, value: Seq<char> },
    /// Neither of these.
    Bare,
}

/// What a line of a configuration says.
pub enum Line {
    Blank,
    Section { name: String },
    Pair { key: String, value: String },
    Bare,
}

impl View for Line {
    type V = LineKind;

    open spec fn view(&self) -> LineKind {
        match self {
            Line::Blank => LineKind::Blank,
            Line::Section { name } => LineKind::Section { name: name@ },
            Line::Pair { key, value } => LineKind::Pair { key: key@, value: value@ },
            Line::Bare => LineKind::Bare,
        }
    }
}

/// What the line `l` says. Whitespace around the line, around the name of a
/// section, and around the `=` between a key and its value does not count.
pub open spec fn line_kind(l: Seq<char>) -> LineKind {
    let t = trim(l);
    if t.len() == 0 || t[0] == '#' {
        LineKind::Blank
    } else if t[0] == '[' && t.last() == ']' {
        LineKind::Section { name: trim(t.subrange(1, t.len() - 1)) }
    } else {
        match find(t, '=', 0) {
            Some(i) => LineKind::Pair { key: trim_end(t.take(i)), value: trim_start(t.skip(i + 1)) },
            None => LineKind::Bare,
        }
    }
}

/// What the line `l` says.
pub fn parse_line(l: &str) -> (r: Line)
    ensures
        r@ == line_kind(l@),
{
    let v = chars_of(l);
    let lo = skip_spaces_at(&v, 0);
    let hi = drop_spaces_at(&v, lo, v.len());
    if lo == hi || v[lo] == '#' {
        return Line::Blank;
    }
    let t = slice_of(&v, lo, hi);
    let n = t.len();
    if t[0] == '[' && t[n - 1] == ']' {
        let inner = slice_of(&t, 1, n - 1);
        let a = skip_spaces_at(&inner, 0);
        let b = drop_spaces_at(&inner, a, inner.len());
        return Line::Section { name: string_of(&inner, a, b) };
    }
    match find_at(&t, '=', 0) {
        Some(i) => {
            let key = slice_of(&t, 0, i);
            let value = slice_of(&t, i + 1, n);
            assert(t@.subrange(0, i as int) == t@.take(i as int));
            assert(t@.subrange(i + 1, n as int) == t@.skip(i + 1));
            let key_end = drop_spaces_at(&key, 0, key.len());
            let value_start = skip_spaces_at(&value, 0);
            Line::Pair {
                key: string_of(&key, 0, key_end),
                value: string_of(&value, value_start, value.len()),
            }
        },
        None => Line::Bare,
    }
}

/// The configuration that the first `n` of `lines` give, read into `m`, and
/// the section that is open after them. `open` opens a section and `assign`
/// sets a key in one.
pub open spec fn read_lines<M, H>(
    open: spec_fn(M, Seq<char>) -> (M, H),
    assign: spec_fn(M, H, Seq<char>, Seq<char>) -> Result<M, ConfError>,
    m: M,
    lines: Seq<Seq<char>>,
    n: int,
) -> Result<(M, Option<H>), ConfError>
    decreases n,
{
    if n <= 0 {
        Ok((m, None))
    } else {
        match read_lines(open, assign, m, lines, n - 1) {
            Err(e) => Err(e),
            Ok((before, section)) => match line_kind(lines[n - 1]) {
                LineKind::Blank => Ok((before, section)),
                LineKind::Section { name } => Ok((open(before, name).0, Some(open(before, name).1))),
                LineKind::Pair { key, value } => match section {
                    Some(h) => match assign(before, h, key, value) {
                        Ok(after) => Ok((after, section)),
                        Err(e) => Err(e),
                    },
                    None => Ok((before, section)),
                },
                LineKind::Bare => match section {
                    Some(_) => Err(ConfError::Line),
                    None => Ok((before, section)),
                },
            },
        }
    }
}

/// A section of a configuration: a set of keys that can be set.
pub trait Section {
    /// What the contracts say the section holds.
    type Model;

    /// What the section holds.
    spec fn model(&self) -> Self::Model;

    /// What a section that held `m` holds once the key `k` was set to `v`,
    /// or why it cannot be set so.
    spec fn assigned(m: Self::Model, k: Seq<char>, v: Seq<char>) -> Result<Self::Model, ConfError>;

    /// Sets the key `k` to `v`. Where that fails, the section stays as it
    /// is.
    fn set(&mut self, k: &str, v: &str) -> (r: Result<(), ConfError>)
        ensures
            match Self::assigned(old(self).model(), k@, v@) {
                Ok(m) => r is Ok && final(self).model() == m,
                Err(e) => r matches Err(x) && x == e && final(self).model() == old(self).model(),
            },
    ;
}

/// A configuration that is read from lines.
pub trait Conf: Sized {
    /// What the contracts say the configuration holds.
    type Model;

    /// What names a section of the configuration.
    type Handle: Copy;

    /// What the configuration holds.
    spec fn model(&self) -> Self::Model;

    /// What a configuration holds before anything is read.
    spec fn fresh() -> Self::Model;

    /// What a configuration that held `m` holds once the section `name` was
    /// opened, and what names that section.
    spec fn opened(m: Self::Model, name: Seq<char>) -> (Self::Model, Self::Handle);

    /// What a configuration that held `m` holds once the key `k` of the
    /// section `h` was set to `v`, or why it cannot be set so.
    spec fn assigned(m: Self::Model, h: Self::Handle, k: Seq<char>, v: Seq<char>) -> Result<
        Self::Model,
        ConfError,
    >;

    /// The configuration before anything is read.
    fn new() -> (r: Self)
        ensures
            r.model() == Self::fresh(),
    ;

    /// Opens the section `name`.
    fn sec_mut(&mut self, name: &str) -> (h: Self::Handle)
        ensures
            (final(self).model(), h) == Self::opened(old(self).model(), name@),
    ;

    /// Sets the key `k` of the section `h` to `v`.
    fn set(&mut self, h: &Self::Handle, k: &str, v: &str) -> (r: Result<(), ConfError>)
        ensures
            match Self::assigned(old(self).model(), *h, k@, v@) {
                Ok(m) => r is Ok && final(self).model() == m,
                Err(e) => r matches Err(x) && x == e,
            },
    ;

    /// Reads a configuration from its lines. The first line that cannot be
    /// read gives the error.
    fn from(conf: &Vec<String>) -> (r: Result<Self, ConfError>)
        ensures
            match read_lines(
                |m: Self::Model, name: Seq<char>| Self::opened(m, name),
                |m: Self::Model, h: Self::Handle, k: Seq<char>, v: Seq<char>|
                    Self::assigned(m, h, k, v),
                Self::fresh(),
                lines_of(conf@),
                conf@.len() as int,
            ) {
                Ok((m, _)) => r matches Ok(c) && c.model() == m,
                Err(e) => r matches Err(x) && x == e,
            },
    {
        let mut ret = Self::new();
        let mut sec: Option<Self::Handle> = None;
        let mut i: usize = 0;
        while i < conf.len()
            invariant
                i <= conf@.len(),
                read_lines(
                    |m: Self::Model, name: Seq<char>| Self::opened(m, name),
                    |m: Self::Model, h: Self::Handle, k: Seq<char>, v: Seq<char>|
                        Self::assigned(m, h, k, v),
                    Self::fresh(),
                    lines_of(conf@),
                    i as int,
                ) == Ok::<(Self::Model, Option<Self::Handle>), ConfError>((ret.model(), sec)),
            decreases conf@.len() - i,
        {
            assert(lines_of(conf@)[i as int] == conf@[i as int]@);
            match parse_line(conf[i].as_str()) {
                Line::Blank => {},
                Line::Section { name } => {
                    sec = Some(ret.sec_mut(name.as_str()));
                },
                Line::Pair { key, value } => {
                    match &sec {
                        Some(h) => {
                            match ret.set(h, key.as_str(), value.as_str()) {
                                Ok(()) => {},
                                Err(e) => {
                                    proof {
                                        lemma_read_lines_stays_failed(
                                            |m: Self::Model, name: Seq<char>|
                                                Self::opened(m, name),
                                            |
                                                m: Self::Model,
                                                h: Self::Handle,
                                                k: Seq<char>,
                                                v: Seq<char>,
                                            | Self::assigned(m, h, k, v),
                                            Self::fresh(),
                                            lines_of(conf@),
                                            i + 1,
                                            conf@.len() as int,
                                        );
                                    }
                                    return Err(e);
                                },
                            }
                        },
                        None => {},
                    }
                },
                Line::Bare => {
                    if sec.is_some() {
                        proof {
                            lemma_read_lines_stays_failed(
                                |m: Self::Model, name: Seq<char>| Self::opened(m, name),
                                |m: Self::Model, h: Self::Handle, k: Seq<char>, v: Seq<char>|
                                    Self::assigned(m, h, k, v),
                                Self::fresh(),
                                lines_of(conf@),
                                i + 1,
                                conf@.len() as int,
                            );
                        }
                        return Err(ConfError::Line);
                    }
                },
            }
            i += 1;
        }
        Ok(ret)
    }
}

/// Once a line cannot be read, the lines after it change nothing.
pub proof fn lemma_read_lines_stays_failed<M, H>(
    open: spec_fn(M, Seq<char>) -> (M, H),
    assign: spec_fn(M, H, Seq<char>, Seq<char>) -> Result<M, ConfError>,
    m: M,
    lines: Seq<Seq<char>>,
    n: int,
    later: int,
)
    requires
        n <= later,
        read_lines(open, assign, m, lines, n) is Err,
    ensures
        read_lines(open, assign, m, lines, later) == read_lines(open, assign, m, lines, n),
    decreases later - n,
{
    if n < later {
        lemma_read_lines_stays_failed(open, assign, m, lines, n, later - 1);
    }
}

/// A configuration that is read from a text.
pub trait ConfSized: Conf + Sized {
    /// Reads a configuration from a text, line by line.
    fn from_str(conf: &str) -> (r: Result<Self, ConfError>)
        ensures
            match read_lines(
                |m: Self::Model, name: Seq<char>| Self::opened(m, name),
                |m: Self::Model, h: Self::Handle, k: Seq<char>, v: Seq<char>|
                    Self::assigned(m, h, k, v),
                Self::fresh(),
                split(conf@, '\n'),
                split(conf@, '\n').len() as int,
            ) {
                Ok((m, _)) => r matches Ok(c) && c.model() == m,
                Err(e) => r matches Err(x) && x == e,
            },
    {
        let lines = split_lines(conf);
        Self::from(&lines)
    }
}

impl<T: Conf + Sized> ConfSized for T {

}

/// The protocol that `v` names, in upper or lower case.
pub open spec fn protocol_text(v: Seq<char>) -> Option<Protocol> {
    let l = lower(v);
    if l == "udp"@ {
        Some(Protocol::Udp)
    } else if l == "tcp"@ {
        Some(Protocol::Tcp)
    } else if l == "tls"@ {
        Some(Protocol::Tls)
    } else if l == "https"@ {
        Some(Protocol::Https)
    } else if l == "h3"@ {
        Some(Protocol::H3)
    } else {
        None
    }
}

/// Whether `v` holds the text `text`.
fn is_text(v: &Vec<char>, text: &str) -> (r: bool)
    ensures
        r == (v@ == text@),
{
    same(v, &chars_of(text))
}

/// The protocol that `v` names.
fn protocol_of(v: &Vec<char>) -> (r: Option<Protocol>)
    ensures
        r == protocol_text(v@),
{
    let l = lower_of(v);
    if is_text(&l, "udp") {
        Some(Protocol::Udp)
    } else if is_text(&l, "tcp") {
        Some(Protocol::Tcp)
    } else if is_text(&l, "tls") {
        Some(Protocol::Tls)
    } else if is_text(&l, "https") {
        Some(Protocol::Https)
    } else if is_text(&l, "h3") {
        Some(Protocol::H3)
    } else {
        None
    }
}

/// The protocol that `proto` names, or nothing where it names none that is
/// supported.
pub fn parse_proto(proto: &str) -> (r: Option<Protocol>)
    ensures
        r == protocol_text(proto@),
{
    protocol_of(&chars_of(proto))
}

/// The addresses that the first `n` of `pieces` spell. A piece that holds
/// nothing but whitespace spells none; one that holds anything else must
/// spell an address, once the whitespace around it is taken off.
pub open spec fn addresses_of(pieces: Seq<Seq<char>>, n: int) -> Option<Seq<IpAddr>>
    decreases n,
{
    if n <= 0 {
        Some(Seq::empty())
    } else {
        match addresses_of(pieces, n - 1) {
            None => None,
            Some(front) => {
                let t = trim(pieces[n - 1]);
                if t.len() == 0 {
                    Some(front)
                } else {
                    match ip_text(t) {
                        Some(a) => Some(front.push(a)),
                        None => None,
                    }
                }
            },
        }
    }
}

/// The addresses that `v` lists, with spaces between them.
pub open spec fn addresses_text(v: Seq<char>) -> Option<Seq<IpAddr>> {
    addresses_of(split(v, ' '), split(v, ' ').len() as int)
}

/// Once a piece spells no address, the pieces after it change nothing.
proof fn lemma_addresses_stay_failed(pieces: Seq<Seq<char>>, n: int, later: int)
    requires
        n <= later,
        addresses_of(pieces, n) is None,
    ensures
        addresses_of(pieces, later) is None,
    decreases later - n,
{
    if n < later {
        lemma_addresses_stay_failed(pieces, n, later - 1);
    }
}

/// The addresses that `v` lists.
fn addresses(v: &Vec<char>) -> (r: Option<Vec<IpAddr>>)
    ensures
        match r {
            Some(a) => addresses_text(v@) == Some(a@),
            None => addresses_text(v@) is None,
        },
{
    let pieces = split_chars(v, ' ');
    let mut r: Vec<IpAddr> = Vec::new();
    let mut i: usize = 0;
    while i < pieces.len()
        invariant
            i <= pieces@.len(),
            texts(pieces@) == split(v@, ' '),
            addresses_of(texts(pieces@), i as int) == Some(r@),
        decreases pieces@.len() - i,
    {
        assert(texts(pieces@)[i as int] == pieces@[i as int]@);
        let piece = &pieces[i];
        let lo = skip_spaces_at(piece, 0);
        let hi = drop_spaces_at(piece, lo, piece.len());
        if lo < hi {
            let t = slice_of(piece, lo, hi);
            match parse_ip_chars(&t) {
                Some(a) => {
                    r.push(a);
                },
                None => {
                    proof {
                        lemma_addresses_stay_failed(
                            texts(pieces@),
                            i + 1,
                            pieces@.len() as int,
                        );
                    }
                    return None;
                },
            }
        }
        i += 1;
    }
    Some(r)
}

/// The flag that `v` spells.
pub open spec fn flag_text(v: Seq<char>) -> Option<bool> {
    if v == "true"@ {
        Some(true)
    } else if v == "false"@ {
        Some(false)
    } else {
        None
    }
}

/// The strings that hold the texts of `v`.
fn strings_of(v: &Vec<Vec<char>>) -> (r: Vec<String>)
    ensures
        lines_of(r@) == texts(v@),
{
    let mut r: Vec<String> = Vec::new();
    let mut i: usize = 0;
    while i < v.len()
        invariant
            i <= v@.len(),
            r@.len() == i,
            forall|j: int| 0 <= j < i ==> (#[trigger] r@[j])@ == v@[j]@,
        decreases v@.len() - i,
    {
        let piece = &v[i];
        assert(piece@.subrange(0, piece@.len() as int) == piece@);
        r.push(string_of(piece, 0, piece.len()));
        i += 1;
    }
    assert(lines_of(r@) =~= texts(v@));
    r
}

/// The section `global`.
pub struct GlobalSec {
    pub listen: SocketAddr,
}

/// The section of one upstream.
pub struct UpstreamSec {
    pub name: String,
    pub protocol: Protocol,
    pub addrs: Vec<IpAddr>,
    pub port: Option<u16>,
    pub tls_dns_name: Option<String>,
    pub ips: Vec<String>,
    pub domains: Vec<String>,
    pub disable_aaaa: bool,
}

/// The section of one upstream as the contracts speak of it.
pub ghost struct UpstreamView {
    pub name: Seq<char>,
    pub protocol: Protocol,
    pub addrs: Seq<IpAddr>,
    pub port: Option<u16>,
    pub tls_dns_name: Option<Seq<char>>,
    pub ips: Seq<Seq<char>>,
    pub domains: Seq<Seq<char>>,
    pub disable_aaaa: bool,
}

impl View for UpstreamSec {
    type V = UpstreamView;

    open spec fn view(&self) -> UpstreamView {
        UpstreamView {
            name: self.name@,
            protocol: self.protocol,
            addrs: self.addrs@,
            port: self.port,
            tls_dns_name: match self.tls_dns_name {
                Some(n) => Some(n@),
                None => None,
            },
            ips: lines_of(self.ips@),
            domains: lines_of(self.domains@),
            disable_aaaa: self.disable_aaaa,
        }
    }
}

impl UpstreamView {
    /// The section of an upstream of which nothing is set: it is spoken to
    /// over UDP, and it takes part in AAAA lookups.
    pub open spec fn named(name: Seq<char>) -> UpstreamView {
        UpstreamView {
            name,
            protocol: Protocol::Udp,
            addrs: Seq::empty(),
            port: None,
            tls_dns_name: None,
            ips: Seq::empty(),
            domains: Seq::empty(),
            disable_aaaa: false,
        }
    }

    /// The section once the key `k` was set to `v`. The key is taken in
    /// upper or lower case; a key that is not known changes nothing.
    pub open spec fn with(self, k: Seq<char>, v: Seq<char>) -> Result<UpstreamView, ConfError> {
        let key = lower(k);
        if key == "addresses"@ {
            match addresses_text(v) {
                Some(addrs) => Ok(UpstreamView { addrs, ..self }),
                None => Err(ConfError::Address),
            }
        } else if key == "protocol"@ {
            match protocol_text(v) {
                Some(protocol) => Ok(UpstreamView { protocol, ..self }),
                None => Err(ConfError::Protocol),
            }
        } else if key == "port"@ {
            match plus_number(v, 65535) {
                Some(port) => Ok(UpstreamView { port: Some(port as u16), ..self }),
                None => Err(ConfError::Port),
            }
        } else if key == "tls_dns_name"@ {
            Ok(UpstreamView { tls_dns_name: Some(v), ..self })
        } else if key == "ips"@ {
            Ok(UpstreamView { ips: words(v), ..self })
        } else if key == "domains"@ {
            Ok(UpstreamView { domains: words(v), ..self })
        } else if key == "disable_aaaa"@ {
            match flag_text(v) {
                Some(disable_aaaa) => Ok(UpstreamView { disable_aaaa, ..self }),
                None => Err(ConfError::Flag),
            }
        } else {
            Ok(self)
        }
    }
}

impl UpstreamSec {
    /// The section of an upstream of which nothing is set.
    pub fn new(name: &str) -> (r: UpstreamSec)
        ensures
            r@ == UpstreamView::named(name@),
    {
        let r = UpstreamSec {
            name: name.to_owned(),
            protocol: Protocol::Udp,
            addrs: Vec::new(),
            port: None,
            tls_dns_name: None,
            ips: Vec::new(),
            domains: Vec::new(),
            disable_aaaa: false,
        };
        assert(r@.ips =~= Seq::<Seq<char>>::empty());
        assert(r@.domains =~= Seq::<Seq<char>>::empty());
        r
    }
}

impl Section for UpstreamSec {
    type Model = UpstreamView;

    open spec fn model(&self) -> UpstreamView {
        self@
    }

    open spec fn assigned(m: UpstreamView, k: Seq<char>, v: Seq<char>) -> Result<
        UpstreamView,
        ConfError,
    > {
        m.with(k, v)
    }

    fn set(&mut self, k: &str, v: &str) -> (r: Result<(), ConfError>) {
        let key = lower_of(&chars_of(k));
        let value = chars_of(v);
        assert(Self::assigned(old(self).model(), k@, v@) == old(self)@.with(k@, v@));
        if is_text(&key, "addresses") {
            match addresses(&value) {
                Some(addrs) => {
                    self.addrs = addrs;
                },
                None => {
                    return Err(ConfError::Address);
                },
            }
        } else if is_text(&key, "protocol") {
            match protocol_of(&value) {
                Some(protocol) => {
                    self.protocol = protocol;
                },
                None => {
                    return Err(ConfError::Protocol);
                },
            }
        } else if is_text(&key, "port") {
            match parse_plus_number(&value, 65535) {
                Some(port) => {
                    self.port = Some(port as u16);
                },
                None => {
                    return Err(ConfError::Port);
                },
            }
        } else if is_text(&key, "tls_dns_name") {
            self.tls_dns_name = Some(v.to_owned());
        } else if is_text(&key, "ips") {
            self.ips = strings_of(&split_words(&value));
        } else if is_text(&key, "domains") {
            self.domains = strings_of(&split_words(&value));
        } else if is_text(&key, "disable_aaaa") {
            if is_text(&value, "true") {
                self.disable_aaaa = true;
            } else if is_text(&value, "false") {
                self.disable_aaaa = false;
            } else {
                return Err(ConfError::Flag);
            }
        }
        Ok(())
    }
}

/// Where to listen where the configuration does not say: port 1054 of the
/// local host.
pub open spec fn default_listen() -> SocketAddr {
    SocketAddr { ip: IpAddr::V4(0x7f00_0001), port: 1054 }
}

/// What the section `global` holds once the key `k` was set to `v`.
pub open spec fn global_with(listen: SocketAddr, k: Seq<char>, v: Seq<char>) -> Result<
    SocketAddr,
    ConfError,
> {
    if lower(k) == "listen"@ {
        match socket_text(v) {
            Some(listen) => Ok(listen),
            None => Err(ConfError::Listen),
        }
    } else {
        Ok(listen)
    }
}

impl GlobalSec {
    /// The section `global` of which nothing is set.
    pub fn new() -> (r: GlobalSec)
        ensures
            r.listen == default_listen(),
    {
        GlobalSec { listen: SocketAddr { ip: IpAddr::V4(0x7f00_0001), port: 1054 } }
    }
}

impl Section for GlobalSec {
    type Model = SocketAddr;

    open spec fn model(&self) -> SocketAddr {
        self.listen
    }

    open spec fn assigned(m: SocketAddr, k: Seq<char>, v: Seq<char>) -> Result<
        SocketAddr,
        ConfError,
    > {
        global_with(m, k, v)
    }

    fn set(&mut self, k: &str, v: &str) -> (r: Result<(), ConfError>) {
        let key = lower_of(&chars_of(k));
        assert(Self::assigned(old(self).model(), k@, v@) == global_with(old(self).listen, k@, v@));
        if is_text(&key, "listen") {
            match parse_socket(v) {
                Some(listen) => {
                    self.listen = listen;
                },
                None => {
                    return Err(ConfError::Listen);
                },
            }
        }
        Ok(())
    }
}

/// The whole configuration.
pub struct DivergeConf {
    pub global: GlobalSec,
    pub upstreams: Vec<UpstreamSec>,
}

/// The whole configuration as the contracts speak of it.
pub ghost struct DivergeConfView {
    pub listen: SocketAddr,
    pub upstreams: Seq<UpstreamView>,
}

impl View for DivergeConf {
    type V = DivergeConfView;

    open spec fn view(&self) -> DivergeConfView {
        DivergeConfView {
            listen: self.global.listen,
            upstreams: Seq::new(self.upstreams@.len(), |i: int| self.upstreams@[i]@),
        }
    }
}

/// What names a section of the configuration.
#[derive(Clone, Copy, Debug, PartialEq, Eq, Structural)]
pub enum SectionId {
    Global,
    Upstream(usize),
}

impl Conf for DivergeConf {
    type Model = DivergeConfView;

    type Handle = SectionId;

    open spec fn model(&self) -> DivergeConfView {
        self@
    }

    open spec fn fresh() -> DivergeConfView {
        DivergeConfView { listen: default_listen(), upstreams: Seq::empty() }
    }

    /// The section `global`, in upper or lower case, is there from the
    /// start. Any other name declares one more upstream.
    open spec fn opened(m: DivergeConfView, name: Seq<char>) -> (DivergeConfView, SectionId) {
        if lower(name) == "global"@ {
            (m, SectionId::Global)
        } else {
            (
                DivergeConfView { upstreams: m.upstreams.push(UpstreamView::named(name)), ..m },
                SectionId::Upstream(m.upstreams.len() as usize),
            )
        }
    }

    open spec fn assigned(m: DivergeConfView, h: SectionId, k: Seq<char>, v: Seq<char>) -> Result<
        DivergeConfView,
        ConfError,
    > {
        match h {
            SectionId::Global => match global_with(m.listen, k, v) {
                Ok(listen) => Ok(DivergeConfView { listen, ..m }),
                Err(e) => Err(e),
            },
            SectionId::Upstream(i) => if i < m.upstreams.len() {
                match m.upstreams[i as int].with(k, v) {
                    Ok(u) => Ok(DivergeConfView { upstreams: m.upstreams.update(i as int, u), ..m }),
                    Err(e) => Err(e),
                }
            } else {
                Ok(m)
            },
        }
    }

    fn new() -> (r: Self) {
        let r = DivergeConf { global: GlobalSec::new(), upstreams: Vec::new() };
        assert(r@.upstreams =~= Seq::<UpstreamView>::empty());
        r
    }

    fn sec_mut(&mut self, name: &str) -> (h: SectionId) {
        let l = lower_of(&chars_of(name));
        if is_text(&l, "global") {
            SectionId::Global
        } else {
            let i = self.upstreams.len();
            self.upstreams.push(UpstreamSec::new(name));
            assert(self@.upstreams =~= old(self)@.upstreams.push(UpstreamView::named(name@)));
            SectionId::Upstream(i)
        }
    }

    fn set(&mut self, h: &SectionId, k: &str, v: &str) -> (r: Result<(), ConfError>) {
        match *h {
            SectionId::Global => self.global.set(k, v),
            SectionId::Upstream(i) => {
                if i < self.upstreams.len() {
                    let r = self.upstreams[i].set(k, v);
                    proof {
                        if r is Ok {
                            assert(self@.upstreams =~= old(self)@.upstreams.update(
                                i as int,
                                self.upstreams@[i as int]@,
                            ));
                        }
                    }
                    r
                } else {
                    Ok(())
                }
            },
        }
    }
}

} // verus!
