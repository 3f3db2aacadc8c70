//! References to locations of the store, and references with query parameters.
use vstd::prelude::*;
use crate::address::{
    Address, AddressView, texts, text_pairs, extended, with_param, url_text, extend_path,
    copy_pairs, copy_strings, set_param, render,
};
use crate::request::{Method, Request};
use crate::util::same_text;
use url::ParseError as UrlError;

verus! {

#[verifier::external_type_specification]
#[verifier::external_body]
pub struct ExUrlError(UrlError);

/// An address taken apart: its scheme, the text before the path, the path segments
/// (absent for an address that cannot have a path) and the decoded query pairs.
pub struct UrlParts {
    pub scheme: String,
    pub prefix: String,
    pub segments: Option<Vec<String>>,
    pub query: Vec<(String, String)>,
}

pub struct UrlPartsView {
    pub scheme: Seq<char>,
    pub prefix: Seq<char>,
    pub segments: Option<Seq<Seq<char>>>,
    pub query: Seq<(Seq<char>, Seq<char>)>,
}

impl View for UrlParts {
    type V = UrlPartsView;

    open spec fn view(&self) -> UrlPartsView {
        UrlPartsView {
            scheme: self.scheme@,
            prefix: self.prefix@,
            segments: match self.segments {
                Some(v) => Some(texts(v@)),
                None => None,
            },
            query: text_pairs(self.query@),
        }
    }
}

/// What parsing `s` as an absolute address gives, if it is one.
pub uninterp spec fn parsed_url(s: Seq<char>) -> Option<UrlPartsView>;

/// Relies on url's `Url::parse`, then `scheme`, the text before the path,
/// `path_segments` and `query_pairs` of the parsed address.
#[verifier::external_body]
fn parse_url(s: &str) -> (r: Result<UrlParts, UrlError>)
    ensures
        r is Ok <==> parsed_url(s@) is Some,
        r matches Ok(p) ==> parsed_url(s@) == Some(p@),
{
    let u = url::Url::parse(s)?;
    Ok(UrlParts {
        scheme: u.scheme().to_string(),
        prefix: u[..url::Position::BeforePath].to_string(),
        segments: u.path_segments().map(|it| it.map(|x| x.to_string()).collect()),
        query: u.query_pairs().map(|(k, v)| (k.into_owned(), v.into_owned())).collect(),
    })
}

/// Why an address cannot be the root of a reference.
#[derive(Debug)]
pub enum ParseError {
    /// The address cannot have a path.
    UrlHasNoPath,
    /// The scheme is not `https`.
    UrlIsNotHTTPS,
    /// The text is not an absolute address.
    Parser(UrlError),
}

pub open spec fn https_name() -> Seq<char> {
    seq!['h', 't', 't', 'p', 's']
}

/// The parts have a path of at least one segment.
pub open spec fn has_path(p: UrlPartsView) -> bool {
    p.segments matches Some(s) && s.len() >= 1
}

/// The address of a root reference made from parts that have a path.
pub open spec fn root_of(p: UrlPartsView) -> AddressView {
    AddressView { prefix: p.prefix, segments: p.segments.unwrap(), query: p.query }
}

/// `a` with the query parameter `k` set to `v`.
pub open spec fn param_set(a: AddressView, k: Seq<char>, v: Seq<char>) -> AddressView {
    AddressView { prefix: a.prefix, segments: a.segments, query: with_param(a.query, k, v) }
}

/// `a` extended by the relative path `p`; its query is kept as it is.
pub open spec fn derived(a: AddressView, p: Seq<char>) -> AddressView {
    AddressView { prefix: a.prefix, segments: extended(a.segments, p), query: a.query }
}

/// The query parameters that the store understands.
#[derive(Clone, Copy, Debug, PartialEq, Eq, Structural)]
pub enum Param {
    OrderBy,
    LimitToFirst,
    LimitToLast,
    StartAt,
    EndAt,
    EqualTo,
    Shallow,
    Format,
    Auth,
}

impl Param {
    /// The key of the parameter in an address.
    pub open spec fn name(self) -> Seq<char> {
        match self {
            Param::OrderBy => seq!['o', 'r', 'd', 'e', 'r', 'B', 'y'],
            Param::LimitToFirst => seq!['l', 'i', 'm', 'i', 't', 'T', 'o', 'F', 'i', 'r', 's', 't'],
            Param::LimitToLast => seq!['l', 'i', 'm', 'i', 't', 'T', 'o', 'L', 'a', 's', 't'],
            Param::StartAt => seq!['s', 't', 'a', 'r', 't', 'A', 't'],
            Param::EndAt => seq!['e', 'n', 'd', 'A', 't'],
            Param::EqualTo => seq!['e', 'q', 'u', 'a', 'l', 'T', 'o'],
            Param::Shallow => seq!['s', 'h', 'a', 'l', 'l', 'o', 'w'],
            Param::Format => seq!['f', 'o', 'r', 'm', 'a', 't'],
            Param::Auth => seq!['a', 'u', 't', 'h'],
        }
    }

    /// The key of the parameter in an address.
    pub fn as_str(&self) -> (r: &'static str)
        ensures
            r@ == self.name(),
    {
        let r = match self {
            Param::OrderBy => "orderBy",
            Param::LimitToFirst => "limitToFirst",
            Param::LimitToLast => "limitToLast",
            Param::StartAt => "startAt",
            Param::EndAt => "endAt",
            Param::EqualTo => "equalTo",
            Param::Shallow => "shallow",
            Param::Format => "format",
            Param::Auth => "auth",
        };
        proof {
            reveal_strlit("orderBy");
            reveal_strlit("limitToFirst");
            reveal_strlit("limitToLast");
            reveal_strlit("startAt");
            reveal_strlit("endAt");
            reveal_strlit("equalTo");
            reveal_strlit("shallow");
            reveal_strlit("format");
            reveal_strlit("auth");
            assert(r@ =~= self.name());
        }
        r
    }
}

/// The only value of the `format` parameter.
pub open spec fn export_text() -> Seq<char> {
    seq!['e', 'x', 'p', 'o', 'r', 't']
}

pub open spec fn digit(d: nat) -> char {
    if d == 0 {
        '0'
    } else if d == 1 {
        '1'
    } else if d == 2 {
        '2'
    } else if d == 3 {
        '3'
    } else if d == 4 {
        '4'
    } else if d == 5 {
        '5'
    } else if d == 6 {
        '6'
    } else if d == 7 {
        '7'
    } else if d == 8 {
        '8'
    } else {
        '9'
    }
}

/// The decimal digits of `n`, without sign or leading zeros.
pub open spec fn decimal_text(n: nat) -> Seq<char>
    decreases n,
{
    if n < 10 {
        seq![digit(n)]
    } else {
        decimal_text(n / 10) + seq![digit(n % 10)]
    }
}

pub open spec fn bool_text(b: bool) -> Seq<char> {
    if b {
        seq!['t', 'r', 'u', 'e']
    } else {
        seq!['f', 'a', 'l', 's', 'e']
    }
}

/// Relies on `u32`'s `to_string`: its decimal digits.
#[verifier::external_body]
fn decimal(n: u32) -> (r: String)
    ensures
        r@ == decimal_text(n as nat),
{
    n.to_string()
}

fn bool_string(b: bool) -> (r: String)
    ensures
        r@ == bool_text(b),
{
    proof {
        reveal_strlit("true");
        reveal_strlit("false");
    }
    let r = if b {
        "true".to_owned()
    } else {
        "false".to_owned()
    };
    assert(r@ =~= bool_text(b));
    r
}

fn export_string() -> (r: String)
    ensures
        r@ == export_text(),
{
    proof {
        reveal_strlit("export");
    }
    let r = "export".to_owned();
    assert(r@ =~= export_text());
    r
}


/// A reference to one location of the store: an `https` address whose last path
/// segment carries `.json`, with any query parameters (among them `auth`) of the
/// address it was made from.
pub struct Firebase {
    url: Address,
}

impl View for Firebase {
    type V = AddressView;

    closed spec fn view(&self) -> AddressView {
        self.url@
    }
}

/// A reference with query parameters. Parameters only shape what is read, so the
/// only request it makes is a read.
pub struct FirebaseParams {
    url: Address,
}

impl View for FirebaseParams {
    type V = AddressView;

    closed spec fn view(&self) -> AddressView {
        self.url@
    }
}

/// Options for `Firebase::ops`; each one that is present sets its parameter.
#[derive(Debug)]
pub struct FbOps<'l> {
    pub order_by: Option<&'l str>,
    pub limit_to_first: Option<u32>,
    pub limit_to_last: Option<u32>,
    pub start_at: Option<u32>,
    pub end_at: Option<u32>,
    pub equal_to: Option<u32>,
    pub shallow: Option<bool>,
    pub format: Option<bool>,
}

impl<'l> Default for FbOps<'l> {
    fn default() -> (r: Self)
        ensures
            r.order_by is None,
            r.limit_to_first is None,
            r.limit_to_last is None,
            r.start_at is None,
            r.end_at is None,
            r.equal_to is None,
            r.shallow is None,
            r.format is None,
    {
        FbOps {
            order_by: None,
            limit_to_first: None,
            limit_to_last: None,
            start_at: None,
            end_at: None,
            equal_to: None,
            shallow: None,
            format: None,
        }
    }
}

/// `a` with parameter `k` set to `v` where `v` is present.
pub open spec fn set_if(a: AddressView, k: Param, v: Option<Seq<char>>) -> AddressView {
    match v {
        Some(t) => param_set(a, k.name(), t),
        None => a,
    }
}

pub open spec fn number_opt(v: Option<u32>) -> Option<Seq<char>> {
    match v {
        Some(n) => Some(decimal_text(n as nat)),
        None => None,
    }
}

/// `a` with every present option of `o` set, in the order of the fields; `format` is
/// set (to `export`) only where it is `Some(true)`.
pub open spec fn with_options(a: AddressView, o: FbOps) -> AddressView {
    let a1 = set_if(a, Param::OrderBy, match o.order_by { Some(s) => Some(s@), None => None });
    let a2 = set_if(a1, Param::LimitToFirst, number_opt(o.limit_to_first));
    let a3 = set_if(a2, Param::LimitToLast, number_opt(o.limit_to_last));
    let a4 = set_if(a3, Param::StartAt, number_opt(o.start_at));
    let a5 = set_if(a4, Param::EndAt, number_opt(o.end_at));
    let a6 = set_if(a5, Param::EqualTo, number_opt(o.equal_to));
    let a7 = set_if(a6, Param::Shallow, match o.shallow { Some(b) => Some(bool_text(b)), None => None });
    set_if(a7, Param::Format, if o.format == Some(true) { Some(export_text()) } else { None })
}

/// `a` with parameter `k` set to `value`.
fn address_with(a: &Address, k: Param, value: String) -> (r: Address)
    requires
        a@.wf(),
    ensures
        r@ == param_set(a@, k.name(), value@),
        r@.wf(),
{
    let key = k.as_str();
    let query = set_param(&a.query, key, value);
    Address { prefix: a.prefix.clone(), segments: copy_strings(&a.segments), query }
}

/// A copy of `a`.
fn copy_address(a: &Address) -> (r: Address)
    ensures
        r@ == a@,
{
    let query = copy_pairs(&a.query);
    Address { prefix: a.prefix.clone(), segments: copy_strings(&a.segments), query }
}

impl Firebase {
    #[verifier::type_invariant]
    spec fn inv(self) -> bool {
        self.url@.wf()
    }

    /// A root reference to the address that `url` names, which must use `https` and
    /// have a path.
    pub fn new(url: &str) -> (r: Result<Self, ParseError>)
        ensures
            parsed_url(url@) is None ==> r matches Err(ParseError::Parser(_)),
            parsed_url(url@) matches Some(p) ==> (!has_path(p) ==> r matches Err(ParseError::UrlHasNoPath)),
            parsed_url(url@) matches Some(p) ==> (has_path(p) && p.scheme != https_name()
                ==> r matches Err(ParseError::UrlIsNotHTTPS)),
            parsed_url(url@) matches Some(p) ==> (has_path(p) && p.scheme == https_name()
                ==> (r matches Ok(f) && f@ == root_of(p))),
    {
        match parse_url(url) {
            Ok(parts) => Firebase::from_url(parts),
            Err(e) => Err(ParseError::Parser(e)),
        }
    }

    /// A root reference to the address of `url`, which must use `https` and have a path.
    pub fn from_url(url: UrlParts) -> (r: Result<Self, ParseError>)
        ensures
            !has_path(url@) ==> r matches Err(ParseError::UrlHasNoPath),
            has_path(url@) && url@.scheme != https_name() ==> r matches Err(ParseError::UrlIsNotHTTPS),
            has_path(url@) && url@.scheme == https_name() ==> (r matches Ok(f) && f@ == root_of(url@)),
    {
        proof {
            reveal_strlit("https");
            assert("https"@ =~= https_name());
        }
        let UrlParts { scheme, prefix, segments, query } = url;
        let segments = match segments {
            Some(v) => v,
            None => return Err(ParseError::UrlHasNoPath),
        };
        if segments.len() == 0 {
            return Err(ParseError::UrlHasNoPath);
        }
        if !same_text(scheme.as_str(), "https") {
            return Err(ParseError::UrlIsNotHTTPS);
        }
        Ok(Firebase { url: Address { prefix, segments, query } })
    }

    /// A root reference to the address that `url` names, carrying `auth_token` as its
    /// `auth` parameter (in place of any `auth` that `url` holds).
    pub fn authed(url: &str, auth_token: &str) -> (r: Result<Self, ParseError>)
        ensures
            parsed_url(url@) is None ==> r matches Err(ParseError::Parser(_)),
            parsed_url(url@) matches Some(p) ==> (p.scheme != https_name() ==> r matches Err(ParseError::UrlIsNotHTTPS)),
            parsed_url(url@) matches Some(p) ==> (p.scheme == https_name() && !has_path(p)
                ==> r matches Err(ParseError::UrlHasNoPath)),
            parsed_url(url@) matches Some(p) ==> (p.scheme == https_name() && has_path(p)
                ==> (r matches Ok(f) && f@ == param_set(root_of(p), Param::Auth.name(), auth_token@))),
    {
        proof {
            reveal_strlit("https");
            assert("https"@ =~= https_name());
        }
        let parts = match parse_url(url) {
            Ok(parts) => parts,
            Err(e) => return Err(ParseError::Parser(e)),
        };
        let UrlParts { scheme, prefix, segments, query } = parts;
        if !same_text(scheme.as_str(), "https") {
            return Err(ParseError::UrlIsNotHTTPS);
        }
        let segments = match segments {
            Some(v) => v,
            None => return Err(ParseError::UrlHasNoPath),
        };
        if segments.len() == 0 {
            return Err(ParseError::UrlHasNoPath);
        }
        let key = Param::Auth.as_str();
        let query = set_param(&query, key, auth_token.to_owned());
        Ok(Firebase { url: Address { prefix, segments, query } })
    }

    /// A reference to the location `add_path` below this one. Slashes around
    /// `add_path` are dropped and a `.json` is added where it lacks one; this path's own
    /// `.json` goes. The pieces of `add_path` between slashes become segments as url's
    /// `PathSegmentsMut::push` writes them, and, as with that push, empty pieces and the
    /// pieces `.` and `..` add none; a last segment that is `.` or `..` once its `.json`
    /// goes is dropped as well. The query, `auth` included, is kept.
    pub fn at(&self, add_path: &str) -> (r: Result<Self, ParseError>)
        ensures
            r matches Ok(f) && f@ == derived(self@, add_path@),
    {
        proof {
            use_type_invariant(self);
        }
        let segments = extend_path(&self.url.segments, add_path);
        let query = copy_pairs(&self.url.query);
        Ok(Firebase { url: Address { prefix: self.url.prefix.clone(), segments, query } })
    }

    /// A reference with the parameters of `opts` that are present.
    pub fn ops(&self, opts: &FbOps) -> (r: FirebaseParams)
        ensures
            r@ == with_options(self@, *opts),
    {
        proof {
            use_type_invariant(self);
        }
        FirebaseParams::from_ops(copy_address(&self.url), opts)
    }

    /// The address that requests of this reference go to.
    pub fn get_url(&self) -> (r: String)
        ensures
            r@ == url_text(self@),
    {
        proof {
            use_type_invariant(self);
        }
        render(&self.url)
    }

    /// A read of this location.
    pub fn get(&self) -> (r: Request)
        ensures
            r.spec_method() == Method::GET,
            r.spec_url() == url_text(self@),
            r.spec_body() is None,
    {
        Request::without_body(self.get_url(), Method::GET)
    }

    /// A write of `data` in place of what is at this location.
    pub fn set(&self, data: &str) -> (r: Request)
        ensures
            r.spec_method() == Method::PUT,
            r.spec_url() == url_text(self@),
            r.spec_body() == Some(data@),
    {
        Request::with_body(self.get_url(), Method::PUT, data.to_owned())
    }

    /// An append of `data` under a key that the store generates.
    pub fn push(&self, data: &str) -> (r: Request)
        ensures
            r.spec_method() == Method::POST,
            r.spec_url() == url_text(self@),
            r.spec_body() == Some(data@),
    {
        Request::with_body(self.get_url(), Method::POST, data.to_owned())
    }

    /// A merge of `data` into what is at this location.
    pub fn update(&self, data: &str) -> (r: Request)
        ensures
            r.spec_method() == Method::PATCH,
            r.spec_url() == url_text(self@),
            r.spec_body() == Some(data@),
    {
        Request::with_body(self.get_url(), Method::PATCH, data.to_owned())
    }

    /// A deletion of what is at this location.
    pub fn remove(&self) -> (r: Request)
        ensures
            r.spec_method() == Method::DELETE,
            r.spec_url() == url_text(self@),
            r.spec_body() is None,
    {
        Request::without_body(self.get_url(), Method::DELETE)
    }

    fn with_params(&self, key: Param, value: String) -> (r: FirebaseParams)
        ensures
            r@ == param_set(self@, key.name(), value@),
    {
        proof {
            use_type_invariant(self);
        }
        FirebaseParams { url: address_with(&self.url, key, value) }
    }

    /// Entries ordered by `key`.
    pub fn order_by(&self, key: &str) -> (r: FirebaseParams)
        ensures
            r@ == param_set(self@, Param::OrderBy.name(), key@),
    {
        self.with_params(Param::OrderBy, key.to_owned())
    }

    /// Only the first `count` entries.
    pub fn limit_to_first(&self, count: u32) -> (r: FirebaseParams)
        ensures
            r@ == param_set(self@, Param::LimitToFirst.name(), decimal_text(count as nat)),
    {
        self.with_params(Param::LimitToFirst, decimal(count))
    }

    /// Only the last `count` entries.
    pub fn limit_to_last(&self, count: u32) -> (r: FirebaseParams)
        ensures
            r@ == param_set(self@, Param::LimitToLast.name(), decimal_text(count as nat)),
    {
        self.with_params(Param::LimitToLast, decimal(count))
    }

    /// Only the entries from `index` on.
    pub fn start_at(&self, index: u32) -> (r: FirebaseParams)
        ensures
            r@ == param_set(self@, Param::StartAt.name(), decimal_text(index as nat)),
    {
        self.with_params(Param::StartAt, decimal(index))
    }

    /// Only the entries up to `index`.
    pub fn end_at(&self, index: u32) -> (r: FirebaseParams)
        ensures
            r@ == param_set(self@, Param::EndAt.name(), decimal_text(index as nat)),
    {
        self.with_params(Param::EndAt, decimal(index))
    }

    /// Only the entry at `index`.
    pub fn equal_to(&self, index: u32) -> (r: FirebaseParams)
        ensures
            r@ == param_set(self@, Param::EqualTo.name(), decimal_text(index as nat)),
    {
        self.with_params(Param::EqualTo, decimal(index))
    }

    /// Only the keys of the entries where `flag` is true.
    pub fn shallow(&self, flag: bool) -> (r: FirebaseParams)
        ensures
            r@ == param_set(self@, Param::Shallow.name(), bool_text(flag)),
    {
        self.with_params(Param::Shallow, bool_string(flag))
    }

    /// The data in export form (priorities included).
    pub fn format(&self) -> (r: FirebaseParams)
        ensures
            r@ == param_set(self@, Param::Format.name(), export_text()),
    {
        self.with_params(Param::Format, export_string())
    }
}

impl FirebaseParams {
    #[verifier::type_invariant]
    spec fn inv(self) -> bool {
        self.url@.wf()
    }

    fn from_ops(url: Address, opts: &FbOps) -> (r: FirebaseParams)
        requires
            url@.wf(),
        ensures
            r@ == with_options(url@, *opts),
    {
        let mut me = FirebaseParams { url };
        if let Some(order) = opts.order_by {
            me = me.add_param(Param::OrderBy, order.to_owned());
        }
        if let Some(first) = opts.limit_to_first {
            me = me.add_param(Param::LimitToFirst, decimal(first));
        }
        if let Some(last) = opts.limit_to_last {
            me = me.add_param(Param::LimitToLast, decimal(last));
        }
        if let Some(start) = opts.start_at {
            me = me.add_param(Param::StartAt, decimal(start));
        }
        if let Some(end) = opts.end_at {
            me = me.add_param(Param::EndAt, decimal(end));
        }
        if let Some(equal) = opts.equal_to {
            me = me.add_param(Param::EqualTo, decimal(equal));
        }
        if let Some(shallow) = opts.shallow {
            me = me.add_param(Param::Shallow, bool_string(shallow));
        }
        if let Some(format) = opts.format {
            if format {
                me = me.add_param(Param::Format, export_string());
            }
        }
        me
    }

    /// These parameters with `key` set to `value`: any earlier pair of `key` goes, and
    /// the new pair comes last.
    pub fn add_param(self, key: Param, value: String) -> (r: Self)
        ensures
            r@ == param_set(self@, key.name(), value@),
    {
        proof {
            use_type_invariant(&self);
        }
        FirebaseParams { url: address_with(&self.url, key, value) }
    }

    /// A read of the location with these parameters.
    pub fn get(&self) -> (r: Request)
        ensures
            r.spec_method() == Method::GET,
            r.spec_url() == url_text(self@),
            r.spec_body() is None,
    {
        Request::without_body(self.get_url(), Method::GET)
    }

    /// The address that requests with these parameters go to.
    pub fn get_url(&self) -> (r: String)
        ensures
            r@ == url_text(self@),
    {
        proof {
            use_type_invariant(self);
        }
        render(&self.url)
    }

    /// Entries ordered by `key`.
    pub fn order_by(self, key: &str) -> (r: Self)
        ensures
            r@ == param_set(self@, Param::OrderBy.name(), key@),
    {
        self.add_param(Param::OrderBy, key.to_owned())
    }

    /// Only the first `count` entries.
    pub fn limit_to_first(self, count: u32) -> (r: Self)
        ensures
            r@ == param_set(self@, Param::LimitToFirst.name(), decimal_text(count as nat)),
    {
        self.add_param(Param::LimitToFirst, decimal(count))
    }

    /// Only the last `count` entries.
    pub fn limit_to_last(self, count: u32) -> (r: Self)
        ensures
            r@ == param_set(self@, Param::LimitToLast.name(), decimal_text(count as nat)),
    {
        self.add_param(Param::LimitToLast, decimal(count))
    }

    /// Only the entries from `index` on.
    pub fn start_at(self, index: u32) -> (r: Self)
        ensures
            r@ == param_set(self@, Param::StartAt.name(), decimal_text(index as nat)),
    {
        self.add_param(Param::StartAt, decimal(index))
    }

    /// Only the entries up to `index`.
    pub fn end_at(self, index: u32) -> (r: Self)
        ensures
            r@ == param_set(self@, Param::EndAt.name(), decimal_text(index as nat)),
    {
        self.add_param(Param::EndAt, decimal(index))
    }

    /// Only the entry at `value`.
    pub fn equal_to(self, value: u32) -> (r: Self)
        ensures
            r@ == param_set(self@, Param::EqualTo.name(), decimal_text(value as nat)),
    {
        self.add_param(Param::EqualTo, decimal(value))
    }

    /// Only the keys of the entries where `flag` is true.
    pub fn shallow(self, flag: bool) -> (r: Self)
        ensures
            r@ == param_set(self@, Param::Shallow.name(), bool_text(flag)),
    {
        self.add_param(Param::Shallow, bool_string(flag))
    }

    /// The data in export form (priorities included).
    pub fn format(self) -> (r: Self)
        ensures
            r@ == param_set(self@, Param::Format.name(), export_text()),
    {
        self.add_param(Param::Format, export_string())
    }
}

} // verus!
