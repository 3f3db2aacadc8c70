//! Properties that hold across calls: what deriving a reference keeps, what setting a
//! parameter twice leaves, and how path extensions compose.
use vstd::prelude::*;
use crate::address::{
    AddressView, without_key, with_param, param_value, key_count, split_slash, kept, is_dot,
    plain, unreserved, segment_text, encoded_kept, strip_leading, strip_trailing, trim_slashes,
    normalized, added_segments, stem, popped, push_seg, push_all, root_path, json_suffix,
    lemma_split_push, lemma_split_nonempty, lemma_split_append_plain, lemma_suffix_plain,
};
use crate::util::{has_suffix, trimmed_right};
use crate::firebase::{derived, param_set, Param};

verus! {

proof fn lemma_without_key_idempotent(q: Seq<(Seq<char>, Seq<char>)>, k: Seq<char>)
    ensures
        without_key(without_key(q, k), k) == without_key(q, k),
    decreases q.len(),
{
    if q.len() > 0 {
        lemma_without_key_idempotent(q.drop_last(), k);
        if q.last().0 != k {
            let w = without_key(q.drop_last(), k);
            assert(w.push(q.last()).drop_last() =~= w);
        }
    }
}

proof fn lemma_without_key_count(q: Seq<(Seq<char>, Seq<char>)>, k: Seq<char>)
    ensures
        key_count(without_key(q, k), k) == 0,
    decreases q.len(),
{
    if q.len() > 0 {
        lemma_without_key_count(q.drop_last(), k);
        if q.last().0 != k {
            let w = without_key(q.drop_last(), k);
            assert(w.push(q.last()).drop_last() =~= w);
        }
    }
}

proof fn lemma_without_key_value(q: Seq<(Seq<char>, Seq<char>)>, k: Seq<char>, other: Seq<char>)
    requires
        k != other,
    ensures
        param_value(without_key(q, k), other) == param_value(q, other),
    decreases q.len(),
{
    if q.len() > 0 {
        lemma_without_key_value(q.drop_last(), k, other);
        if q.last().0 != k {
            let w = without_key(q.drop_last(), k);
            assert(w.push(q.last()).drop_last() =~= w);
        }
    }
}

proof fn lemma_with_param_pushes(q: Seq<(Seq<char>, Seq<char>)>, k: Seq<char>, v: Seq<char>)
    ensures
        with_param(q, k, v).drop_last() == without_key(q, k),
        with_param(q, k, v).last() == (k, v),
{
    assert(without_key(q, k).push((k, v)).drop_last() =~= without_key(q, k));
}

/// A reference derived by a path keeps the `auth` value of the reference it came from.
pub proof fn lemma_at_keeps_auth(a: AddressView, p: Seq<char>)
    ensures
        param_value(derived(a, p).query, Param::Auth.name()) == param_value(a.query, Param::Auth.name()),
{
}

/// Setting a parameter other than `auth` keeps the `auth` value.
pub proof fn lemma_param_keeps_auth(a: AddressView, k: Param, v: Seq<char>)
    requires
        k != Param::Auth,
    ensures
        param_value(param_set(a, k.name(), v).query, Param::Auth.name()) == param_value(a.query, Param::Auth.name()),
{
    assert(k.name().len() != 4);
    assert(k.name() != Param::Auth.name());
    lemma_with_param_pushes(a.query, k.name(), v);
    lemma_without_key_value(a.query, k.name(), Param::Auth.name());
}

/// Setting the same parameter twice leaves exactly one pair of its key, holding the
/// last value: the same address as setting it once to that value.
pub proof fn lemma_set_twice(a: AddressView, k: Seq<char>, v1: Seq<char>, v2: Seq<char>)
    ensures
        param_set(param_set(a, k, v1), k, v2) == param_set(a, k, v2),
        key_count(param_set(param_set(a, k, v1), k, v2).query, k) == 1,
        param_value(param_set(param_set(a, k, v1), k, v2).query, k) == Some(v2),
{
    let q1 = with_param(a.query, k, v1);
    lemma_with_param_pushes(a.query, k, v1);
    assert(q1 =~= q1.drop_last().push(q1.last()));
    assert(without_key(q1, k) == without_key(without_key(a.query, k), k));
    lemma_without_key_idempotent(a.query, k);
    let q2 = with_param(q1, k, v2);
    assert(q2 == with_param(a.query, k, v2));
    lemma_with_param_pushes(a.query, k, v2);
    assert(q2 =~= q2.drop_last().push(q2.last()));
    lemma_without_key_count(a.query, k);
}


/// The kept, encoded components of `s`.
pub open spec fn pieces(s: Seq<char>) -> Seq<Seq<char>> {
    encoded_kept(split_slash(s))
}

/// `p1` followed by `/` and `p2`.
pub open spec fn join_paths(p1: Seq<char>, p2: Seq<char>) -> Seq<char> {
    p1 + seq!['/'] + p2
}

/// A relative path that composes with a following one: without its outer slashes it is
/// not empty and does not end in `.json`, and url writes its last piece, where that is
/// kept, as a segment other than `.` or `..` that `.json` follows unchanged (as it does
/// for any piece of letters, digits and `-._~`).
pub open spec fn joinable(p1: Seq<char>) -> bool {
    let t = trim_slashes(p1);
    let c = split_slash(t).last();
    t.len() > 0 && !has_suffix(t, json_suffix()) && (kept(c) ==> (segment_text(c + json_suffix())
        == segment_text(c) + json_suffix() && !is_dot(segment_text(c))))
}

proof fn lemma_split_join(x: Seq<char>, y: Seq<char>)
    ensures
        split_slash(x + seq!['/'] + y) == split_slash(x) + split_slash(y),
    decreases y.len(),
{
    lemma_split_nonempty(x);
    if y.len() == 0 {
        assert(x + seq!['/'] + y =~= x.push('/'));
        lemma_split_push(x, '/');
        assert(split_slash(y) =~= seq![Seq::<char>::empty()]);
        assert(split_slash(x).push(Seq::<char>::empty()) =~= split_slash(x) + split_slash(y));
    } else {
        let y0 = y.drop_last();
        let c = y.last();
        lemma_split_join(x, y0);
        assert(x + seq!['/'] + y =~= (x + seq!['/'] + y0).push(c));
        assert(y =~= y0.push(c));
        lemma_split_push(x + seq!['/'] + y0, c);
        lemma_split_push(y0, c);
        lemma_split_nonempty(y0);
        let a = split_slash(x);
        let b = split_slash(y0);
        if c == '/' {
            assert((a + b).push(Seq::<char>::empty()) =~= a + b.push(Seq::<char>::empty()));
        } else {
            assert((a + b).update((a + b).len() - 1, (a + b).last().push(c)) =~= a + b.update(b.len() - 1, b.last().push(c)));
        }
    }
}

proof fn lemma_kept_concat(a: Seq<Seq<char>>, b: Seq<Seq<char>>)
    ensures
        encoded_kept(a + b) == encoded_kept(a) + encoded_kept(b),
    decreases b.len(),
{
    if b.len() == 0 {
        assert(a + b =~= a);
        assert(encoded_kept(a) + encoded_kept(b) =~= encoded_kept(a));
    } else {
        lemma_kept_concat(a, b.drop_last());
        assert((a + b).drop_last() =~= a + b.drop_last());
        assert((a + b).last() == b.last());
        let ea = encoded_kept(a);
        let eb = encoded_kept(b.drop_last());
        assert((ea + eb).push(segment_text(b.last())) =~= ea + eb.push(segment_text(b.last())));
    }
}

proof fn lemma_pieces_join(x: Seq<char>, y: Seq<char>)
    ensures
        pieces(x + seq!['/'] + y) == pieces(x) + pieces(y),
{
    lemma_split_join(x, y);
    lemma_kept_concat(split_slash(x), split_slash(y));
}

proof fn lemma_pieces_empty()
    ensures
        pieces(Seq::<char>::empty()) == Seq::<Seq<char>>::empty(),
{
    let sp = split_slash(Seq::<char>::empty());
    assert(sp == seq![Seq::<char>::empty()]);
    assert(sp.len() == 1);
    assert(sp.last() == Seq::<char>::empty());
    assert(!kept(sp.last()));
    assert(sp.drop_last() =~= Seq::<Seq<char>>::empty());
    assert(encoded_kept(sp) == encoded_kept(sp.drop_last()));
}

proof fn lemma_pieces_strip_leading(s: Seq<char>)
    ensures
        pieces(s) == pieces(strip_leading(s)),
    decreases s.len(),
{
    if s.len() > 0 && s[0] == '/' {
        let rest = s.subrange(1, s.len() as int);
        assert(s =~= Seq::<char>::empty() + seq!['/'] + rest);
        lemma_pieces_join(Seq::<char>::empty(), rest);
        lemma_pieces_empty();
        assert(Seq::<Seq<char>>::empty() + pieces(rest) =~= pieces(rest));
        lemma_pieces_strip_leading(rest);
    }
}

proof fn lemma_pieces_strip_trailing(s: Seq<char>)
    ensures
        pieces(s) == pieces(strip_trailing(s)),
    decreases s.len(),
{
    if s.len() > 0 && s.last() == '/' {
        let rest = s.drop_last();
        assert(s =~= rest + seq!['/'] + Seq::<char>::empty());
        lemma_pieces_join(rest, Seq::<char>::empty());
        lemma_pieces_empty();
        assert(pieces(rest) + Seq::<Seq<char>>::empty() =~= pieces(rest));
        lemma_pieces_strip_trailing(rest);
    }
}

proof fn lemma_pieces_slash_prefix(q: Seq<char>, y: Seq<char>)
    requires
        forall|i: int| 0 <= i < q.len() ==> q[i] == '/',
    ensures
        pieces(q + y) == pieces(y),
    decreases q.len(),
{
    if q.len() > 0 {
        let rest = q.subrange(1, q.len() as int);
        assert(q + y =~= Seq::<char>::empty() + seq!['/'] + (rest + y));
        lemma_pieces_join(Seq::<char>::empty(), rest + y);
        lemma_pieces_empty();
        assert(Seq::<Seq<char>>::empty() + pieces(rest + y) =~= pieces(rest + y));
        lemma_pieces_slash_prefix(rest, y);
    }
}

proof fn lemma_strip_leading_concat(x: Seq<char>, y: Seq<char>)
    requires
        strip_leading(x).len() > 0,
    ensures
        strip_leading(x + y) == strip_leading(x) + y,
    decreases x.len(),
{
    if x.len() > 0 && x[0] == '/' {
        let rest = x.subrange(1, x.len() as int);
        assert((x + y).subrange(1, (x + y).len() as int) =~= rest + y);
        lemma_strip_leading_concat(rest, y);
    } else {
        assert(x.len() > 0);
        assert((x + y)[0] == x[0]);
    }
}

proof fn lemma_strip_trailing_concat(x: Seq<char>, y: Seq<char>)
    requires
        strip_trailing(y).len() > 0,
    ensures
        strip_trailing(x + y) == x + strip_trailing(y),
    decreases y.len(),
{
    if y.len() > 0 && y.last() == '/' {
        assert((x + y).drop_last() =~= x + y.drop_last());
        lemma_strip_trailing_concat(x, y.drop_last());
    } else {
        assert(y.len() > 0);
        assert((x + y).last() == y.last());
    }
}

proof fn lemma_strip_leading_shape(s: Seq<char>)
    ensures
        s.len() >= strip_leading(s).len(),
        s == s.subrange(0, s.len() - strip_leading(s).len()) + strip_leading(s),
        forall|i: int| 0 <= i < s.len() - strip_leading(s).len() ==> s[i] == '/',
    decreases s.len(),
{
    if s.len() > 0 && s[0] == '/' {
        let rest = s.subrange(1, s.len() as int);
        lemma_strip_leading_shape(rest);
        let k = s.len() - strip_leading(s).len();
        let k1 = rest.len() - strip_leading(rest).len();
        assert(k == k1 + 1);
        assert(s =~= seq!['/'] + rest);
        assert(s.subrange(0, k) =~= seq!['/'] + rest.subrange(0, k1));
        assert(s =~= s.subrange(0, k) + strip_leading(s));
        assert forall|i: int| 0 <= i < k implies s[i] == '/' by {
            if i > 0 {
                assert(s[i] == rest[i - 1]);
            }
        }
    } else {
        assert(s =~= s.subrange(0, 0) + s);
    }
}

proof fn lemma_strip_trailing_nonempty(s: Seq<char>)
    requires
        strip_trailing(s).len() > 0,
    ensures
        s.len() > 0,
{
}

proof fn lemma_trim_suffix(x: Seq<char>)
    ensures
        trimmed_right(x + json_suffix(), json_suffix()) == x,
{
    let y = x + json_suffix();
    assert(y.subrange(y.len() - 5, y.len() as int) =~= json_suffix());
    assert(y.subrange(0, y.len() - 5) =~= x);
}

/// Where the trimmed text is `w + t2`, `w` ending in `/`, it ends in `.json` exactly
/// where `t2` does.
proof fn lemma_suffix_after_slash(w: Seq<char>, t2: Seq<char>)
    requires
        w.len() > 0,
        w.last() == '/',
    ensures
        has_suffix(w + t2, json_suffix()) == has_suffix(t2, json_suffix()),
{
    let s = w + t2;
    lemma_suffix_plain();
    if t2.len() >= 5 {
        assert(s.subrange(s.len() - 5, s.len() as int) =~= t2.subrange(t2.len() - 5, t2.len() as int));
    } else if s.len() >= 5 {
        let k = 5 - t2.len() - 1;
        assert(s.subrange(s.len() - 5, s.len() as int)[k] == s[w.len() - 1]);
        assert(json_suffix()[k] != '/');
    }
}

proof fn lemma_push_all_len(segs: Seq<Seq<char>>, ts: Seq<Seq<char>>)
    requires
        segs.len() >= 1,
    ensures
        push_all(segs, ts).len() >= 1,
    decreases ts.len(),
{
    if ts.len() > 0 {
        lemma_push_all_len(segs, ts.drop_last());
    }
}

proof fn lemma_push_all_concat(segs: Seq<Seq<char>>, a: Seq<Seq<char>>, b: Seq<Seq<char>>)
    ensures
        push_all(segs, a + b) == push_all(push_all(segs, a), b),
    decreases b.len(),
{
    if b.len() == 0 {
        assert(a + b =~= a);
    } else {
        lemma_push_all_concat(segs, a, b.drop_last());
        assert((a + b).drop_last() =~= a + b.drop_last());
        assert((a + b).last() == b.last());
    }
}

proof fn lemma_push_all_push(segs: Seq<Seq<char>>, a: Seq<Seq<char>>, x: Seq<char>)
    ensures
        push_all(segs, a.push(x)) == push_seg(push_all(segs, a), x),
{
    assert(a.push(x).drop_last() =~= a);
}

/// The stem of a path that just had `x` added is the path before, with `x` (less its
/// `.json`) added again unless that is `.` or `..`.
proof fn lemma_stem_after_push(y: Seq<Seq<char>>, x: Seq<char>)
    requires
        y.len() >= 1,
    ensures
        stem(push_seg(y, x)) == (if is_dot(trimmed_right(x, json_suffix())) {
            y
        } else {
            push_seg(y, trimmed_right(x, json_suffix()))
        }),
{
    let z = push_seg(y, x);
    if y == root_path() {
        assert(popped(z) == y);
    } else {
        assert(z.drop_last() =~= y);
        assert(popped(z) == y);
    }
}

proof fn lemma_strip_trailing_last(s: Seq<char>)
    requires
        strip_trailing(s).len() > 0,
    ensures
        strip_trailing(s).last() != '/',
    decreases s.len(),
{
    if s.len() > 0 && s.last() == '/' {
        lemma_strip_trailing_last(s.drop_last());
    }
}

proof fn lemma_last_piece_nonempty(t: Seq<char>)
    requires
        t.len() > 0,
        t.last() != '/',
    ensures
        split_slash(t).last().len() > 0,
{
    lemma_split_nonempty(t.drop_last());
}

/// Extending a path by `p1` and then by `p2` gives the path that extending by
/// `p1/p2` gives, for a `p1` that composes and a `p2` with more than slashes.
pub proof fn lemma_at_composes(a: AddressView, p1: Seq<char>, p2: Seq<char>)
    requires
        a.wf(),
        joinable(p1),
        trim_slashes(p2).len() > 0,
    ensures
        derived(derived(a, p1), p2) == derived(a, join_paths(p1, p2)),
{
    let j = json_suffix();
    let s0 = stem(a.segments);
    // The first step.
    let l1 = strip_leading(p1);
    let t1 = trim_slashes(p1);
    let sp1 = split_slash(t1);
    lemma_split_nonempty(t1);
    let c = sp1.last();
    lemma_strip_trailing_last(l1);
    lemma_last_piece_nonempty(t1);
    assert(normalized(p1) == t1 + j);
    lemma_suffix_plain();
    lemma_split_append_plain(t1, j);
    let n1 = split_slash(t1 + j);
    assert(n1 =~= sp1.drop_last().push(c + j));
    let d = encoded_kept(sp1.drop_last());
    assert(sp1 =~= sp1.drop_last().push(c));
    assert(n1.drop_last() =~= sp1.drop_last());
    assert((c + j).len() >= 5);
    assert((c + j).len() != seq!['.'].len());
    assert((c + j).len() != seq!['.', '.'].len());
    assert(kept(c + j));
    let x = segment_text(c + j);
    assert(added_segments(p1) == d.push(x));
    let y = push_all(s0, d);
    lemma_push_all_len(s0, d);
    lemma_push_all_push(s0, d, x);
    assert(derived(a, p1).segments == push_seg(y, x));
    lemma_stem_after_push(y, x);
    if kept(c) {
        lemma_trim_suffix(segment_text(c));
        assert(pieces(t1) == d.push(segment_text(c)));
        lemma_push_all_push(s0, d, segment_text(c));
    } else {
        assert(is_dot(c));
        assert forall|i: int| 0 <= i < (c + j).len() implies unreserved(#[trigger] (c + j)[i]) by {
            if i < c.len() {
                assert(c[i] == '.');
            }
        }
        assert(plain(c + j));
        lemma_trim_suffix(c);
        assert(pieces(t1) == d);
    }
    assert(stem(derived(a, p1).segments) == push_all(s0, pieces(t1)));
    lemma_push_all_concat(s0, pieces(t1), added_segments(p2));
    // The joined path.
    let jp = join_paths(p1, p2);
    lemma_strip_trailing_nonempty(l1);
    assert(jp =~= p1 + (seq!['/'] + p2));
    lemma_strip_leading_concat(p1, seq!['/'] + p2);
    lemma_strip_leading_shape(p2);
    let l2 = strip_leading(p2);
    let q2 = p2.subrange(0, p2.len() - l2.len());
    let w = l1 + seq!['/'] + q2;
    assert(strip_leading(jp) =~= w + l2);
    let t2 = trim_slashes(p2);
    lemma_strip_trailing_concat(w, l2);
    assert(trim_slashes(jp) == w + t2);
    assert(w.last() == '/') by {
        if q2.len() > 0 {
            assert(w.last() == q2.last());
        }
    }
    lemma_suffix_after_slash(w, t2);
    let n2 = normalized(p2);
    if has_suffix(t2, j) {
        assert(normalized(jp) == w + n2);
    } else {
        assert(normalized(jp) =~= w + n2);
    }
    assert(w + n2 =~= l1 + seq!['/'] + (q2 + n2));
    lemma_pieces_join(l1, q2 + n2);
    lemma_pieces_slash_prefix(q2, n2);
    lemma_pieces_strip_trailing(l1);
    assert(added_segments(jp) == pieces(t1) + added_segments(p2));
}


/// The reference reached from `a` by extending it by each path of `ps` in turn.
pub open spec fn steps(a: AddressView, ps: Seq<Seq<char>>) -> AddressView
    decreases ps.len(),
{
    if ps.len() == 0 {
        a
    } else {
        derived(steps(a, ps.drop_last()), ps.last())
    }
}

pub open spec fn is_digit(c: char) -> bool {
    '0' <= c && c <= '9'
}

/// The paths `d.json`, one for each digit `d` of `ds`.
pub open spec fn digit_steps(ds: Seq<char>) -> Seq<Seq<char>> {
    ds.map_values(|d: char| seq![d] + json_suffix())
}

/// The path `/d1/d2/.../dn.json` as segments.
pub open spec fn digit_path(ds: Seq<char>) -> Seq<Seq<char>> {
    ds.drop_last().map_values(|d: char| seq![d]).push(seq![ds.last()] + json_suffix())
}

/// `d.json` adds the one segment `d.json`.
proof fn lemma_digit_step_added(d: char)
    requires
        is_digit(d),
    ensures
        added_segments(seq![d] + json_suffix()) == seq![seq![d] + json_suffix()],
{
    let j = json_suffix();
    let s = seq![d] + j;
    assert(s[0] == d);
    assert(strip_leading(s) == s);
    assert(s.last() == 'n');
    assert(strip_trailing(s) == s);
    assert(s.subrange(s.len() - 5, s.len() as int) =~= j);
    assert(normalized(s) == s);
    lemma_suffix_plain();
    assert forall|i: int| 0 <= i < s.len() implies s[i] != '/' by {
        if i > 0 {
            assert(s[i] == j[i - 1]);
        }
    }
    assert(Seq::<char>::empty() + s =~= s);
    lemma_split_append_plain(Seq::<char>::empty(), s);
    lemma_split_nonempty(Seq::<char>::empty());
    let sp = split_slash(s);
    assert(split_slash(Seq::<char>::empty()) =~= seq![Seq::<char>::empty()]);
    assert(sp.len() == 1);
    assert(sp.last() =~= s);
    assert(sp.drop_last() =~= Seq::<Seq<char>>::empty());
    assert(s.len() != seq!['.'].len() && s.len() != seq!['.', '.'].len());
    assert forall|i: int| 0 <= i < s.len() implies unreserved(#[trigger] s[i]) by {
        if i > 0 {
            assert(s[i] == j[i - 1]);
        }
    }
    assert(plain(s));
    assert(kept(sp.last()));
    assert(encoded_kept(sp.drop_last()) == Seq::<Seq<char>>::empty());
    assert(encoded_kept(sp) == encoded_kept(sp.drop_last()).push(segment_text(sp.last())));
    assert(encoded_kept(sp) =~= seq![s]);
}

/// From the root path, extending by `d1.json`, then `d2.json`, and so on, gives the
/// path `/d1/d2/.../dn.json`: one `.json`, at the end, and no empty segment.
pub proof fn lemma_digit_chain(a: AddressView, ds: Seq<char>)
    requires
        a.segments == root_path(),
        ds.len() >= 1,
        forall|i: int| 0 <= i < ds.len() ==> is_digit(#[trigger] ds[i]),
    ensures
        steps(a, digit_steps(ds)).segments == digit_path(ds),
    decreases ds.len(),
{
    let j = json_suffix();
    let d = ds.last();
    let ps = digit_steps(ds);
    assert(ps.drop_last() =~= digit_steps(ds.drop_last()));
    assert(ps.last() == seq![d] + j);
    lemma_digit_step_added(d);
    if ds.len() == 1 {
        assert(steps(a, ps.drop_last()) == a);
        assert(trimmed_right(Seq::<char>::empty(), j) == Seq::<char>::empty());
        assert(stem(a.segments) == root_path());
        assert(push_all(root_path(), seq![seq![d] + j]) == push_seg(root_path(), seq![d] + j)) by {
            assert(Seq::<Seq<char>>::empty().push(seq![d] + j) =~= seq![seq![d] + j]);
            lemma_push_all_push(root_path(), Seq::<Seq<char>>::empty(), seq![d] + j);
        }
        assert(digit_path(ds) =~= seq![seq![d] + j]);
    } else {
        let ds0 = ds.drop_last();
        lemma_digit_chain(a, ds0);
        let p = digit_path(ds0);
        let e = ds0.last();
        lemma_trim_suffix(seq![e]);
        assert(p.last() == seq![e] + j);
        let front = ds0.drop_last().map_values(|c: char| seq![c]);
        assert(p.drop_last() =~= front);
        assert(is_dot(seq![e]) ==> seq![e][0] == '.');
        assert(!is_dot(seq![e]));
        let q = front.push(seq![e]);
        assert(stem(p) == q) by {
            if p.len() <= 1 {
                assert(front.len() == 0);
                assert(push_seg(root_path(), seq![e]) =~= q);
            } else {
                assert(front.len() >= 1);
                assert(front[0] == seq![ds0[0]]);
                assert(front != root_path()) by {
                    assert(front[0].len() == 1);
                }
                assert(popped(p) == front);
            }
        }
        assert(q != root_path()) by {
            assert(q.last() == seq![e]);
            assert(q[q.len() - 1].len() == 1);
        }
        assert(push_all(q, seq![seq![d] + j]) == push_seg(q, seq![d] + j)) by {
            assert(Seq::<Seq<char>>::empty().push(seq![d] + j) =~= seq![seq![d] + j]);
            lemma_push_all_push(q, Seq::<Seq<char>>::empty(), seq![d] + j);
        }
        assert(digit_path(ds) =~= q.push(seq![d] + j));
    }
}

} // verus!
