//! The address a reference points at: the text before the path, the path segments and
//! the query pairs, with the rules that derive one address from another.
use std::borrow::Cow;
use vstd::prelude::*;
use crate::util::{trim_right, add_right, with_suffix, trimmed_right, same_text};

verus! {

/// The suffix that the last path segment of a request address carries.
pub open spec fn json_suffix() -> Seq<char> {
    seq!['.', 'j', 's', 'o', 'n']
}

/// The text of each string of a sequence.
pub open spec fn texts(v: Seq<String>) -> Seq<Seq<char>> {
    v.map_values(|s: String| s@)
}

/// The text of each pair of strings of a sequence.
pub open spec fn text_pairs(v: Seq<(String, String)>) -> Seq<(Seq<char>, Seq<char>)> {
    v.map_values(|p: (String, String)| (p.0@, p.1@))
}

/// An address as plain values: the text before the path (`https://host`), the path
/// segments as they are written in the address, and the query pairs as decoded text.
pub struct AddressView {
    pub prefix: Seq<char>,
    pub segments: Seq<Seq<char>>,
    pub query: Seq<(Seq<char>, Seq<char>)>,
}

pub struct Address {
    pub prefix: String,
    pub segments: Vec<String>,
    pub query: Vec<(String, String)>,
}

impl View for Address {
    type V = AddressView;

    open spec fn view(&self) -> AddressView {
        AddressView { prefix: self.prefix@, segments: texts(self.segments@), query: text_pairs(self.query@) }
    }
}

impl AddressView {
    /// A path always has at least one segment (the path `/` has one empty segment).
    pub open spec fn wf(self) -> bool {
        self.segments.len() >= 1
    }
}

// ---------------------------------------------------------------- path components

/// The pieces of `s` between `/` characters, empty ones included.
pub open spec fn split_slash(s: Seq<char>) -> Seq<Seq<char>>
    decreases s.len(),
{
    if s.len() == 0 {
        seq![Seq::<char>::empty()]
    } else {
        let prev = split_slash(s.drop_last());
        if s.last() == '/' {
            prev.push(Seq::<char>::empty())
        } else {
            prev.update(prev.len() - 1, prev.last().push(s.last()))
        }
    }
}

/// `.` or `..`: pieces that url's `PathSegmentsMut::push` skips, so that a path it
/// builds never holds them as segments.
pub open spec fn is_dot(c: Seq<char>) -> bool {
    c == seq!['.'] || c == seq!['.', '.']
}

/// A component that becomes a path segment: not empty, and not `.` or `..`.
pub open spec fn kept(c: Seq<char>) -> bool {
    c.len() > 0 && !is_dot(c)
}

/// Characters that url writes as themselves in any part of an address: ASCII letters
/// and digits, and `-._~`.
pub open spec fn unreserved(c: char) -> bool {
    ('a' <= c && c <= 'z') || ('A' <= c && c <= 'Z') || ('0' <= c && c <= '9') || c == '-'
        || c == '.' || c == '_' || c == '~'
}

/// A segment made only of unreserved characters, other than `.` and `..`.
pub open spec fn plain(s: Seq<char>) -> bool {
    (forall|i: int| 0 <= i < s.len() ==> unreserved(#[trigger] s[i])) && !is_dot(s)
}

/// The text that url's `PathSegmentsMut::push` writes into the path of an `https`
/// address for the segment `s`.
pub uninterp spec fn pushed_segment(s: Seq<char>) -> Seq<char>;

/// How a segment is written in a path: a plain one as itself.
pub open spec fn segment_text(s: Seq<char>) -> Seq<char> {
    if plain(s) {
        s
    } else {
        pushed_segment(s)
    }
}

/// The kept components of `cs`, in order, each as it is written in a path.
pub open spec fn encoded_kept(cs: Seq<Seq<char>>) -> Seq<Seq<char>>
    decreases cs.len(),
{
    if cs.len() == 0 {
        Seq::<Seq<char>>::empty()
    } else if kept(cs.last()) {
        encoded_kept(cs.drop_last()).push(segment_text(cs.last()))
    } else {
        encoded_kept(cs.drop_last())
    }
}

/// `s` without any leading `/`.
pub open spec fn strip_leading(s: Seq<char>) -> Seq<char>
    decreases s.len(),
{
    if s.len() > 0 && s[0] == '/' {
        strip_leading(s.subrange(1, s.len() as int))
    } else {
        s
    }
}

/// `s` without any trailing `/`.
pub open spec fn strip_trailing(s: Seq<char>) -> Seq<char>
    decreases s.len(),
{
    if s.len() > 0 && s.last() == '/' {
        strip_trailing(s.drop_last())
    } else {
        s
    }
}

/// `s` without leading or trailing `/`.
pub open spec fn trim_slashes(s: Seq<char>) -> Seq<char> {
    strip_trailing(strip_leading(s))
}

/// A relative path as it is added: without outer slashes, ending in `.json`.
pub open spec fn normalized(p: Seq<char>) -> Seq<char> {
    with_suffix(trim_slashes(p), json_suffix())
}

/// The segments that a relative path adds to an address.
pub open spec fn added_segments(p: Seq<char>) -> Seq<Seq<char>> {
    encoded_kept(split_slash(normalized(p)))
}

/// The path `/`, which has one empty segment.
pub open spec fn root_path() -> Seq<Seq<char>> {
    seq![Seq::<char>::empty()]
}

/// A path with one more segment `t`; as with url, a segment added to the path `/`
/// takes the place of its empty segment.
pub open spec fn push_seg(segs: Seq<Seq<char>>, t: Seq<char>) -> Seq<Seq<char>> {
    if segs == root_path() {
        seq![t]
    } else {
        segs.push(t)
    }
}

/// A path with the segments `ts` added in order.
pub open spec fn push_all(segs: Seq<Seq<char>>, ts: Seq<Seq<char>>) -> Seq<Seq<char>>
    decreases ts.len(),
{
    if ts.len() == 0 {
        segs
    } else {
        push_seg(push_all(segs, ts.drop_last()), ts.last())
    }
}

/// A path without its last segment; a path of one segment becomes `/`.
pub open spec fn popped(segs: Seq<Seq<char>>) -> Seq<Seq<char>> {
    if segs.len() <= 1 {
        root_path()
    } else {
        segs.drop_last()
    }
}

/// The path before new segments are added: the last segment loses its `.json`, and
/// goes where what is left is `.` or `..`.
pub open spec fn stem(segs: Seq<Seq<char>>) -> Seq<Seq<char>> {
    let t = trimmed_right(segs.last(), json_suffix());
    if is_dot(t) {
        popped(segs)
    } else {
        push_seg(popped(segs), t)
    }
}

/// The path segments of `segs` extended by the relative path `p`.
pub open spec fn extended(segs: Seq<Seq<char>>, p: Seq<char>) -> Seq<Seq<char>> {
    push_all(stem(segs), added_segments(p))
}

// ---------------------------------------------------------------- query pairs

/// The pairs of `q` without those of key `k`.
pub open spec fn without_key(q: Seq<(Seq<char>, Seq<char>)>, k: Seq<char>) -> Seq<(Seq<char>, Seq<char>)>
    decreases q.len(),
{
    if q.len() == 0 {
        q
    } else if q.last().0 == k {
        without_key(q.drop_last(), k)
    } else {
        without_key(q.drop_last(), k).push(q.last())
    }
}

/// `q` with every pair of key `k` removed and the pair `(k, v)` added at the end.
pub open spec fn with_param(q: Seq<(Seq<char>, Seq<char>)>, k: Seq<char>, v: Seq<char>) -> Seq<(Seq<char>, Seq<char>)> {
    without_key(q, k).push((k, v))
}

/// How many pairs of `q` have key `k`.
pub open spec fn key_count(q: Seq<(Seq<char>, Seq<char>)>, k: Seq<char>) -> nat
    decreases q.len(),
{
    if q.len() == 0 {
        0
    } else if q.last().0 == k {
        key_count(q.drop_last(), k) + 1
    } else {
        key_count(q.drop_last(), k)
    }
}

/// The value of the last pair of key `k` in `q`, if any.
pub open spec fn param_value(q: Seq<(Seq<char>, Seq<char>)>, k: Seq<char>) -> Option<Seq<char>>
    decreases q.len(),
{
    if q.len() == 0 {
        None
    } else if q.last().0 == k {
        Some(q.last().1)
    } else {
        param_value(q.drop_last(), k)
    }
}

// ---------------------------------------------------------------- rendering

/// The query pairs written as `application/x-www-form-urlencoded` text.
pub uninterp spec fn form_encoded(pairs: Seq<(Seq<char>, Seq<char>)>) -> Seq<char>;

/// The segments joined by `/`.
pub open spec fn joined(segs: Seq<Seq<char>>) -> Seq<char>
    decreases segs.len(),
{
    if segs.len() == 0 {
        Seq::<char>::empty()
    } else if segs.len() == 1 {
        segs[0]
    } else {
        joined(segs.drop_last()) + seq!['/'] + segs.last()
    }
}

/// The text of an address.
pub open spec fn url_text(a: AddressView) -> Seq<char> {
    a.prefix + seq!['/'] + joined(a.segments) + if a.query.len() == 0 {
        Seq::<char>::empty()
    } else {
        seq!['?'] + form_encoded(a.query)
    }
}


// ---------------------------------------------------------------- executable side

/// Relies on url's `PathSegmentsMut::push`: the text that it writes for one segment
/// pushed onto the path `/` of an `https` address. A plain segment is written as itself.
#[verifier::external_body]
fn push_text(s: &str) -> (r: String)
    ensures
        plain(s@) ==> r@ == s@,
        !plain(s@) ==> r@ == pushed_segment(s@),
{
    let mut scratch = url::Url::parse("https://h/").expect("an https address");
    scratch.path_segments_mut().expect("an address with a path").push(s);
    scratch.path()[1..].to_string()
}

/// Relies on url's `form_urlencoded::Serializer`: the pairs in order, as
/// `application/x-www-form-urlencoded` text.
#[verifier::external_body]
fn form_encode(pairs: &Vec<(String, String)>) -> (r: String)
    ensures
        r@ == form_encoded(text_pairs(pairs@)),
{
    let mut serializer = url::form_urlencoded::Serializer::new(String::new());
    serializer.extend_pairs(pairs.iter());
    serializer.finish()
}

/// `s` without leading or trailing `/`.
pub fn trim_slashes_str(s: &str) -> (r: &str)
    ensures
        r@ == trim_slashes(s@),
{
    let n = s.unicode_len();
    let mut i: usize = 0;
    assert(s@.subrange(0, n as int) =~= s@);
    while i < n && s.get_char(i) == '/'
        invariant
            n == s@.len(),
            0 <= i <= n,
            strip_leading(s@) == strip_leading(s@.subrange(i as int, n as int)),
        decreases n - i,
    {
        assert(s@.subrange(i as int, n as int).subrange(1, (n - i) as int) =~= s@.subrange(i + 1, n as int));
        i = i + 1;
    }
    assert(strip_leading(s@.subrange(i as int, n as int)) == s@.subrange(i as int, n as int));
    let mut j: usize = n;
    while j > i && s.get_char(j - 1) == '/'
        invariant
            n == s@.len(),
            0 <= i <= j <= n,
            trim_slashes(s@) == strip_trailing(s@.subrange(i as int, j as int)),
        decreases j,
    {
        assert(s@.subrange(i as int, j as int).drop_last() =~= s@.subrange(i as int, j - 1));
        j = j - 1;
    }
    s.substring_char(i, j)
}

/// A copy of `v`.
pub fn copy_strings(v: &Vec<String>) -> (r: Vec<String>)
    ensures
        r@ == v@,
{
    let mut out: Vec<String> = Vec::new();
    let mut i: usize = 0;
    while i < v.len()
        invariant
            0 <= i <= v.len(),
            out@ == v@.subrange(0, i as int),
        decreases v.len() - i,
    {
        out.push(v[i].clone());
        assert(out@ =~= v@.subrange(0, i + 1));
        i = i + 1;
    }
    assert(v@.subrange(0, v.len() as int) =~= v@);
    out
}

/// A copy of `v`.
pub fn copy_pairs(v: &Vec<(String, String)>) -> (r: Vec<(String, String)>)
    ensures
        text_pairs(r@) == text_pairs(v@),
{
    let mut out: Vec<(String, String)> = Vec::new();
    let mut i: usize = 0;
    while i < v.len()
        invariant
            0 <= i <= v.len(),
            out@.len() == i,
            forall|j: int| 0 <= j < i ==> out@[j].0@ == v@[j].0@ && out@[j].1@ == v@[j].1@,
        decreases v.len() - i,
    {
        let pair = (v[i].0.clone(), v[i].1.clone());
        out.push(pair);
        i = i + 1;
    }
    assert(text_pairs(out@) =~= text_pairs(v@));
    out
}

/// `q` with every pair of key `key` removed and `(key, value)` added at the end.
pub fn set_param(q: &Vec<(String, String)>, key: &str, value: String) -> (r: Vec<(String, String)>)
    ensures
        text_pairs(r@) == with_param(text_pairs(q@), key@, value@),
{
    let mut out: Vec<(String, String)> = Vec::new();
    let mut i: usize = 0;
    while i < q.len()
        invariant
            0 <= i <= q.len(),
            text_pairs(out@) == without_key(text_pairs(q@.subrange(0, i as int)), key@),
        decreases q.len() - i,
    {
        let ghost t = text_pairs(q@.subrange(0, i + 1));
        proof {
            assert(t.drop_last() =~= text_pairs(q@.subrange(0, i as int)));
            assert(t.last() == (q@[i as int].0@, q@[i as int].1@));
        }
        if !same_text(q[i].0.as_str(), key) {
            let pair = (q[i].0.clone(), q[i].1.clone());
            let ghost before = out@;
            out.push(pair);
            assert(text_pairs(out@) =~= text_pairs(before).push(t.last()));
        }
        i = i + 1;
    }
    assert(q@.subrange(0, q.len() as int) =~= q@);
    let ghost before = out@;
    out.push((key.to_owned(), value));
    assert(text_pairs(out@) =~= text_pairs(before).push((key@, value@)));
    out
}

pub proof fn lemma_split_push(s: Seq<char>, c: char)
    ensures
        split_slash(s.push(c)) == (if c == '/' {
            split_slash(s).push(Seq::<char>::empty())
        } else {
            split_slash(s).update(split_slash(s).len() - 1, split_slash(s).last().push(c))
        }),
{
    assert(s.push(c).drop_last() =~= s);
}

pub proof fn lemma_split_nonempty(s: Seq<char>)
    ensures
        split_slash(s).len() >= 1,
    decreases s.len(),
{
    if s.len() > 0 {
        lemma_split_nonempty(s.drop_last());
    }
}

/// Adds the segment `t` to `path`; as with url, it takes the place of the empty
/// segment of the path `/`.
fn push_segment(path: &mut Vec<String>, t: String)
    requires
        old(path)@.len() >= 1,
    ensures
        texts(final(path)@) == push_seg(texts(old(path)@), t@),
        final(path)@.len() >= 1,
{
    if path.len() == 1 && path[0].unicode_len() == 0 {
        assert(path@[0]@ =~= Seq::<char>::empty());
        assert(texts(path@) =~= root_path());
        path.pop();
        path.push(t);
        assert(texts(path@) =~= seq![t@]);
    } else {
        proof {
            if texts(path@) == root_path() {
                assert(texts(path@)[0] == path@[0]@);
            }
        }
        let ghost before = path@;
        path.push(t);
        assert(texts(path@) =~= texts(before).push(t@));
    }
}

/// The segments of `segs` extended by the relative path `p`.
pub fn extend_path(segs: &Vec<String>, p: &str) -> (r: Vec<String>)
    requires
        segs@.len() >= 1,
    ensures
        texts(r@) == extended(texts(segs@), p@),
        r@.len() >= 1,
{
    proof {
        reveal_strlit(".json");
        assert(".json"@ =~= json_suffix());
    }
    let mut path = copy_strings(segs);
    let last = path.pop().unwrap();
    let ghost front = path@;
    assert(front =~= segs@.drop_last());
    if path.len() == 0 {
        path.push(String::new());
        assert(texts(path@) =~= root_path());
    } else {
        assert(texts(path@) =~= texts(segs@).drop_last());
    }
    assert(texts(path@) == popped(texts(segs@)));
    assert(last@ == texts(segs@).last());
    let trimmed = trim_right(last.as_str(), ".json");
    if !piece_is_dot(trimmed) {
        push_segment(&mut path, trimmed.to_owned());
    }
    let ghost start = texts(path@);
    assert(start == stem(texts(segs@)));

    let trimmed_path = trim_slashes_str(p);
    let whole = add_right(trimmed_path, ".json");
    let text: &str = match &whole {
        Cow::Borrowed(b) => b,
        Cow::Owned(o) => o.as_str(),
    };
    assert(text@ == normalized(p@));
    let n = text.unicode_len();
    let mut from: usize = 0;
    let mut i: usize = 0;
    proof {
        assert(text@.subrange(0, 0) =~= Seq::<char>::empty());
        assert(split_slash(text@.subrange(0, 0)) =~= seq![Seq::<char>::empty()]);
        assert(seq![Seq::<char>::empty()].drop_last() =~= Seq::<Seq<char>>::empty());
    }
    while i < n
        invariant
            n == text@.len(),
            0 <= from <= i <= n,
            path@.len() >= 1,
            split_slash(text@.subrange(0, i as int)).len() >= 1,
            split_slash(text@.subrange(0, i as int)).last() == text@.subrange(from as int, i as int),
            texts(path@) == push_all(start, encoded_kept(split_slash(text@.subrange(0, i as int)).drop_last())),
        decreases n - i,
    {
        let c = text.get_char(i);
        proof {
            assert(text@.subrange(0, i + 1) =~= text@.subrange(0, i as int).push(c));
            lemma_split_push(text@.subrange(0, i as int), c);
            lemma_split_nonempty(text@.subrange(0, i as int));
        }
        if c == '/' {
            let piece = text.substring_char(from, i);
            let ghost sp = split_slash(text@.subrange(0, i as int));
            assert(sp.push(Seq::<char>::empty()).drop_last() =~= sp);
            assert(sp =~= sp.drop_last().push(sp.last()));
            assert(piece@ == sp.last());
            if !(piece.unicode_len() == 0 || piece_is_dot(piece)) {
                let e = push_text(piece);
                let ghost ek = encoded_kept(sp.drop_last());
                assert(encoded_kept(sp) == ek.push(segment_text(sp.last())));
                assert(ek.push(e@).drop_last() =~= ek);
                push_segment(&mut path, e);
            } else {
                assert(encoded_kept(sp) == encoded_kept(sp.drop_last()));
            }
            from = i + 1;
            assert(text@.subrange(from as int, i + 1) =~= Seq::<char>::empty());
        } else {
            let ghost sp = split_slash(text@.subrange(0, i as int));
            let ghost sp2 = sp.update(sp.len() - 1, sp.last().push(c));
            assert(sp2.drop_last() =~= sp.drop_last());
            assert(text@.subrange(from as int, i + 1) =~= text@.subrange(from as int, i as int).push(c));
        }
        i = i + 1;
    }
    let piece = text.substring_char(from, n);
    proof {
        assert(text@.subrange(0, n as int) =~= text@);
        lemma_split_nonempty(text@);
        let sp = split_slash(text@);
        assert(sp =~= sp.drop_last().push(sp.last()));
    }
    let ghost sp = split_slash(text@);
    if !(piece.unicode_len() == 0 || piece_is_dot(piece)) {
        let e = push_text(piece);
        let ghost ek = encoded_kept(sp.drop_last());
        assert(encoded_kept(sp) == ek.push(segment_text(sp.last())));
        assert(ek.push(e@).drop_last() =~= ek);
        push_segment(&mut path, e);
    } else {
        assert(encoded_kept(sp) == encoded_kept(sp.drop_last()));
    }
    path
}

/// Whether `s` is `.` or `..`.
fn piece_is_dot(s: &str) -> (r: bool)
    ensures
        r == is_dot(s@),
{
    let n = s.unicode_len();
    if n == 1 {
        let r = s.get_char(0) == '.';
        assert(r ==> s@ =~= seq!['.']);
        r
    } else if n == 2 {
        let r = s.get_char(0) == '.' && s.get_char(1) == '.';
        assert(r ==> s@ =~= seq!['.', '.']);
        r
    } else {
        false
    }
}

/// Appending text without `/` extends the last component only.
pub proof fn lemma_split_append_plain(t: Seq<char>, u: Seq<char>)
    requires
        forall|i: int| 0 <= i < u.len() ==> u[i] != '/',
    ensures
        split_slash(t + u).len() == split_slash(t).len(),
        split_slash(t + u).drop_last() == split_slash(t).drop_last(),
        split_slash(t + u).last() == split_slash(t).last() + u,
    decreases u.len(),
{
    lemma_split_nonempty(t);
    if u.len() == 0 {
        assert(t + u =~= t);
        assert(split_slash(t).last() + u =~= split_slash(t).last());
    } else {
        let u0 = u.drop_last();
        lemma_split_append_plain(t, u0);
        assert(t + u =~= (t + u0).push(u.last()));
        lemma_split_push(t + u0, u.last());
        lemma_split_nonempty(t + u0);
        let sp = split_slash(t + u0);
        let sp2 = sp.update(sp.len() - 1, sp.last().push(u.last()));
        assert(sp2.drop_last() =~= sp.drop_last());
        assert(sp2.last() =~= split_slash(t).last() + u);
    }
}

/// `.json` holds no `/`.
pub proof fn lemma_suffix_plain()
    ensures
        forall|i: int| 0 <= i < json_suffix().len() ==> json_suffix()[i] != '/',
{
}

/// The text of an address.
pub fn render(a: &Address) -> (r: String)
    requires
        a@.wf(),
    ensures
        r@ == url_text(a@),
{
    proof {
        reveal_strlit("/");
        reveal_strlit("?");
        assert("/"@ =~= seq!['/']);
        assert("?"@ =~= seq!['?']);
    }
    let mut out = a.prefix.clone();
    out = out.concat("/");
    assert(texts(a.segments@.subrange(0, 0)) =~= Seq::<Seq<char>>::empty());
    let mut i: usize = 0;
    while i < a.segments.len()
        invariant
            a@.wf(),
            0 <= i <= a.segments.len(),
            out@ == a@.prefix + seq!['/'] + joined(texts(a.segments@.subrange(0, i as int))),
        decreases a.segments.len() - i,
    {
        proof {
            let t = texts(a.segments@.subrange(0, i + 1));
            assert(t.drop_last() =~= texts(a.segments@.subrange(0, i as int)));
        }
        let ghost t = texts(a.segments@.subrange(0, i + 1));
        let ghost before = out@;
        if i > 0 {
            proof {
                reveal_strlit("/");
                assert("/"@ =~= seq!['/']);
            }
            assert(before == a@.prefix + seq!['/'] + joined(t.drop_last()));
            out = out.concat("/");
            assert(out@ == before + seq!['/']);
            out = out.concat(a.segments[i].as_str());
            assert(out@ == before + seq!['/'] + a.segments@[i as int]@);
            assert(t.last() == a.segments@[i as int]@);
            assert(joined(t) == joined(t.drop_last()) + seq!['/'] + t.last());
            assert(out@ =~= a@.prefix + seq!['/'] + joined(t));
        } else {
            assert(t =~= seq![a.segments@[0]@]);
            out = out.concat(a.segments[i].as_str());
            assert(out@ =~= a@.prefix + seq!['/'] + joined(t));
        }
        i = i + 1;
    }
    assert(a.segments@.subrange(0, a.segments.len() as int) =~= a.segments@);
    if a.query.len() > 0 {
        out = out.concat("?");
        let q = form_encode(&a.query);
        out = out.concat(q.as_str());
    }
    out
}

} // verus!
