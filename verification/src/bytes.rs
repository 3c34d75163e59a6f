//! Byte-level helpers shared by the parsers and the serializer: named byte
//! constants, splitting on one or two separator bytes, first occurrence of a
//! byte, and prefix tests, each with its specification.
use vstd::prelude::*;

verus! {

pub const TAB: u8 = 9;
pub const LF: u8 = 10;
pub const CR: u8 = 13;
pub const SPACE: u8 = 32;
pub const AMP: u8 = 38;
pub const COMMA: u8 = 44;
pub const SLASH: u8 = 47;
pub const COLON: u8 = 58;
pub const EQ: u8 = 61;
pub const QMARK: u8 = 63;
pub const LBRACKET: u8 = 91;
pub const PIPE: u8 = 124;

/// The byte sequences held by a sequence of byte vectors.
pub open spec fn views_of(vs: Seq<Vec<u8>>) -> Seq<Seq<u8>> {
    Seq::new(vs.len(), |i: int| vs[i]@)
}

/// Splits `s` at every occurrence of `a` or `b`; separators are dropped and
/// the result always holds one field more than there are separators.
pub open spec fn split2(s: Seq<u8>, a: u8, b: u8) -> Seq<Seq<u8>>
    decreases s.len(),
{
    if s.len() == 0 {
        seq![Seq::<u8>::empty()]
    } else if s[0] == a || s[0] == b {
        seq![Seq::<u8>::empty()].add(split2(s.skip(1), a, b))
    } else {
        let rest = split2(s.skip(1), a, b);
        rest.update(0, seq![s[0]].add(rest[0]))
    }
}

/// Index of the first occurrence of `c` in `s`, or -1 if `c` does not occur.
pub open spec fn find_first(s: Seq<u8>, c: u8) -> int
    decreases s.len(),
{
    if s.len() == 0 {
        -1
    } else if s[0] == c {
        0
    } else {
        let r = find_first(s.skip(1), c);
        if r < 0 {
            -1
        } else {
            r + 1
        }
    }
}

pub open spec fn starts_with(s: Seq<u8>, prefix: Seq<u8>) -> bool {
    s.len() >= prefix.len() && s.take(prefix.len() as int) == prefix
}

pub proof fn lemma_split2_len(s: Seq<u8>, a: u8, b: u8)
    ensures
        split2(s, a, b).len() >= 1,
    decreases s.len(),
{
    if s.len() != 0 {
        lemma_split2_len(s.skip(1), a, b);
    }
}

/// No field produced by the split contains either separator.
pub proof fn lemma_split2_no_sep(s: Seq<u8>, a: u8, b: u8)
    ensures
        forall|i: int|
            0 <= i < split2(s, a, b).len() ==> !(#[trigger] split2(s, a, b)[i]).contains(a)
                && !split2(s, a, b)[i].contains(b),
    decreases s.len(),
{
    if s.len() == 0 {
        assert forall|x: u8| !Seq::<u8>::empty().contains(x) by {}
    } else if s[0] == a || s[0] == b {
        lemma_split2_no_sep(s.skip(1), a, b);
        assert forall|i: int|
            0 <= i < split2(s, a, b).len() implies !(#[trigger] split2(s, a, b)[i]).contains(a)
            && !split2(s, a, b)[i].contains(b) by {
            if i > 0 {
                assert(split2(s, a, b)[i] == split2(s.skip(1), a, b)[i - 1]);
            }
        }
    } else {
        lemma_split2_no_sep(s.skip(1), a, b);
        lemma_split2_len(s.skip(1), a, b);
        let rest = split2(s.skip(1), a, b);
        let first = seq![s[0]].add(rest[0]);
        assert(!first.contains(a) && !first.contains(b)) by {
            assert forall|x: u8| first.contains(x) implies x == s[0] || rest[0].contains(x) by {
                let j = choose|j: int| 0 <= j < first.len() && first[j] == x;
                if j > 0 {
                    assert(rest[0][j - 1] == x);
                }
            }
        }
        assert forall|i: int|
            0 <= i < split2(s, a, b).len() implies !(#[trigger] split2(s, a, b)[i]).contains(a)
            && !split2(s, a, b)[i].contains(b) by {
            if i > 0 {
                assert(split2(s, a, b)[i] == rest[i]);
            }
        }
    }
}

/// Prepending separator-free bytes extends the first field and nothing else.
pub proof fn lemma_split2_prepend(x: Seq<u8>, y: Seq<u8>, a: u8, b: u8)
    requires
        !x.contains(a),
        !x.contains(b),
    ensures
        split2(x.add(y), a, b) == split2(y, a, b).update(0, x.add(split2(y, a, b)[0])),
    decreases x.len(),
{
    lemma_split2_len(y, a, b);
    if x.len() == 0 {
        assert(x.add(y) =~= y);
        assert(x.add(split2(y, a, b)[0]) =~= split2(y, a, b)[0]);
        assert(split2(y, a, b).update(0, split2(y, a, b)[0]) =~= split2(y, a, b));
    } else {
        let s = x.add(y);
        assert(s[0] == x[0]);
        assert(x[0] != a && x[0] != b) by {
            assert(x.contains(x[0]));
        }
        assert(x.skip(1).add(y) =~= s.skip(1));
        assert(!x.skip(1).contains(a) && !x.skip(1).contains(b)) by {
            assert forall|v: u8| x.skip(1).contains(v) implies x.contains(v) by {
                let j = choose|j: int| 0 <= j < x.skip(1).len() && x.skip(1)[j] == v;
                assert(x[j + 1] == v);
            }
        }
        lemma_split2_prepend(x.skip(1), y, a, b);
        let ys = split2(y, a, b);
        let rest = split2(s.skip(1), a, b);
        assert(rest == ys.update(0, x.skip(1).add(ys[0])));
        assert(rest[0] == x.skip(1).add(ys[0]));
        assert(seq![s[0]].add(rest[0]) =~= x.add(ys[0]));
        assert(rest.update(0, seq![s[0]].add(rest[0])) =~= ys.update(0, x.add(ys[0])));
    }
}

/// Splitting separator-free bytes yields that one field.
pub proof fn lemma_split2_whole(s: Seq<u8>, a: u8, b: u8)
    requires
        !s.contains(a),
        !s.contains(b),
    ensures
        split2(s, a, b) == seq![s],
{
    lemma_split2_prepend(s, Seq::<u8>::empty(), a, b);
    assert(s.add(Seq::<u8>::empty()) =~= s);
    assert(s.add(split2(Seq::<u8>::empty(), a, b)[0]) =~= s);
    assert(split2(Seq::<u8>::empty(), a, b).update(0, s) =~= seq![s]);
}

/// A separator right after a separator-free prefix closes the first field.
pub proof fn lemma_split2_cut(x: Seq<u8>, y: Seq<u8>, t: u8)
    requires
        !x.contains(t),
    ensures
        split2(x.add(seq![t]).add(y), t, t) == seq![x].add(split2(y, t, t)),
{
    let m = seq![t].add(y);
    assert(m[0] == t);
    assert(m.skip(1) =~= y);
    assert(split2(m, t, t) == seq![Seq::<u8>::empty()].add(split2(y, t, t)));
    lemma_split2_prepend(x, m, t, t);
    lemma_split2_len(y, t, t);
    assert(split2(m, t, t)[0] == Seq::<u8>::empty());
    assert(x.add(seq![t]).add(y) =~= x.add(m));
    assert(x.add(Seq::<u8>::empty()) =~= x);
    assert(seq![Seq::<u8>::empty()].add(split2(y, t, t)).update(0, x) =~= seq![x].add(
        split2(y, t, t),
    ));
    assert(split2(x.add(m), t, t) == split2(m, t, t).update(0, x.add(split2(m, t, t)[0])));
    assert(x.add(split2(m, t, t)[0]) =~= x);
}

pub proof fn lemma_find_first_props(s: Seq<u8>, c: u8)
    ensures
        find_first(s, c) >= 0 ==> find_first(s, c) < s.len() && s[find_first(s, c)] == c
            && forall|j: int| 0 <= j < find_first(s, c) ==> s[j] != c,
        find_first(s, c) < 0 ==> !s.contains(c),
    decreases s.len(),
{
    if s.len() == 0 {
    } else if s[0] == c {
    } else {
        lemma_find_first_props(s.skip(1), c);
        let r = find_first(s.skip(1), c);
        if r >= 0 {
            assert(s.skip(1)[r] == c);
            assert forall|j: int| 0 <= j < r + 1 implies s[j] != c by {
                if j > 0 {
                    assert(s.skip(1)[j - 1] != c);
                }
            }
        } else {
            if s.contains(c) {
                let j = choose|j: int| 0 <= j < s.len() && s[j] == c;
                assert(s.skip(1)[j - 1] == c);
                assert(s.skip(1).contains(c));
            }
        }
    }
}

/// The first-occurrence properties pin `find_first` down.
pub proof fn lemma_find_first_unique(s: Seq<u8>, c: u8, i: int)
    requires
        0 <= i < s.len(),
        s[i] == c,
        forall|j: int| 0 <= j < i ==> s[j] != c,
    ensures
        find_first(s, c) == i,
    decreases s.len(),
{
    if s[0] == c {
        assert(i == 0);
    } else {
        assert(s.skip(1)[i - 1] == c);
        assert forall|j: int| 0 <= j < i - 1 implies s.skip(1)[j] != c by {
            assert(s[j + 1] != c);
        }
        lemma_find_first_unique(s.skip(1), c, i - 1);
    }
}

pub proof fn lemma_find_first_none(s: Seq<u8>, c: u8)
    requires
        forall|j: int| 0 <= j < s.len() ==> s[j] != c,
    ensures
        find_first(s, c) < 0,
{
    lemma_find_first_props(s, c);
    if find_first(s, c) >= 0 {
        assert(s[find_first(s, c)] == c);
    }
}

/// The first field of a split ends at the first separator.
pub proof fn lemma_split2_first(s: Seq<u8>, t: u8)
    ensures
        split2(s, t, t)[0] == if find_first(s, t) >= 0 {
            s.take(find_first(s, t))
        } else {
            s
        },
    decreases s.len(),
{
    lemma_split2_len(s, t, t);
    if s.len() == 0 {
        assert(split2(s, t, t)[0] =~= s);
    } else if s[0] == t {
        assert(split2(s, t, t)[0] =~= s.take(0));
    } else {
        lemma_split2_first(s.skip(1), t);
        lemma_split2_len(s.skip(1), t, t);
        let r = find_first(s.skip(1), t);
        if r >= 0 {
            lemma_find_first_props(s.skip(1), t);
            assert(split2(s, t, t)[0] == seq![s[0]].add(s.skip(1).take(r)));
            assert(seq![s[0]].add(s.skip(1).take(r)) =~= s.take(r + 1));
        } else {
            assert(split2(s, t, t)[0] == seq![s[0]].add(s.skip(1)));
            assert(seq![s[0]].add(s.skip(1)) =~= s);
        }
    }
}

/// True whenever the two byte slices hold the same bytes.
pub fn bytes_eq(a: &[u8], b: &[u8]) -> (r: bool)
    ensures
        r <==> a@ == b@,
{
    if a.len() != b.len() {
        assert(a@.len() != b@.len());
        return false;
    }
    let n = a.len();
    let mut i: usize = 0;
    while i < n
        invariant
            n == a@.len() == b@.len(),
            0 <= i <= n,
            forall|j: int| 0 <= j < i ==> a@[j] == b@[j],
        decreases n - i,
    {
        if a[i] != b[i] {
            return false;
        }
        i += 1;
    }
    assert(a@ =~= b@);
    true
}

/// True whenever `prefix` is a prefix of `s`.
pub fn starts_with_bytes(s: &[u8], prefix: &[u8]) -> (r: bool)
    ensures
        r <==> starts_with(s@, prefix@),
{
    if s.len() < prefix.len() {
        return false;
    }
    let head = vstd::slice::slice_subrange(s, 0, prefix.len());
    bytes_eq(head, prefix)
}

/// An owned copy of `s[i..j]`.
pub fn subrange_vec(s: &[u8], i: usize, j: usize) -> (r: Vec<u8>)
    requires
        0 <= i <= j <= s@.len(),
    ensures
        r@ == s@.subrange(i as int, j as int),
{
    let sub = vstd::slice::slice_subrange(s, i, j);
    vstd::slice::slice_to_vec(sub)
}

/// Appends every byte of `src` to `dst`.
pub fn push_all(dst: &mut Vec<u8>, src: &[u8])
    ensures
        final(dst)@ == old(dst)@.add(src@),
{
    let n = src.len();
    let mut i: usize = 0;
    while i < n
        invariant
            n == src@.len(),
            0 <= i <= n,
            dst@ == old(dst)@.add(src@.take(i as int)),
        decreases n - i,
    {
        dst.push(src[i]);
        assert(old(dst)@.add(src@.take(i as int)).push(src@[i as int]) =~= old(dst)@.add(
            src@.take(i + 1),
        ));
        i += 1;
    }
    assert(src@.take(n as int) =~= src@);
}

/// Position of the first occurrence of `c` in `s`, if any.
pub fn find_byte(s: &[u8], c: u8) -> (r: Option<usize>)
    ensures
        match r {
            Some(i) => find_first(s@, c) == i as int,
            None => find_first(s@, c) < 0,
        },
{
    let n = s.len();
    let mut i: usize = 0;
    while i < n
        invariant
            n == s@.len(),
            0 <= i <= n,
            forall|j: int| 0 <= j < i ==> s@[j] != c,
        decreases n - i,
    {
        if s[i] == c {
            proof {
                lemma_find_first_unique(s@, c, i as int);
            }
            return Some(i);
        }
        i += 1;
    }
    proof {
        lemma_find_first_none(s@, c);
    }
    None
}

/// Splits `s` at every byte equal to `a` or `b`, dropping the separators.
pub fn split_two(s: &[u8], a: u8, b: u8) -> (r: Vec<Vec<u8>>)
    ensures
        views_of(r@) == split2(s@, a, b),
{
    let n = s.len();
    let mut done: Vec<Vec<u8>> = Vec::new();
    let mut cur: Vec<u8> = Vec::new();
    let mut i: usize = 0;
    proof {
        assert(s@.skip(0) =~= s@);
        lemma_split2_len(s@, a, b);
        assert(Seq::<u8>::empty().add(split2(s@, a, b)[0]) =~= split2(s@, a, b)[0]);
        assert(split2(s@, a, b).update(0, split2(s@, a, b)[0]) =~= split2(s@, a, b));
        assert(views_of(done@) =~= Seq::<Seq<u8>>::empty());
        assert(Seq::<Seq<u8>>::empty().add(split2(s@, a, b)) =~= split2(s@, a, b));
    }
    while i < n
        invariant
            n == s@.len(),
            0 <= i <= n,
            split2(s@, a, b) == views_of(done@).add(
                split2(s@.skip(i as int), a, b).update(
                    0,
                    cur@.add(split2(s@.skip(i as int), a, b)[0]),
                ),
            ),
        decreases n - i,
    {
        proof {
            lemma_split2_len(s@.skip(i as int), a, b);
            lemma_split2_len(s@.skip(i + 1), a, b);
            assert(s@.skip(i as int)[0] == s@[i as int]);
            assert(s@.skip(i as int).skip(1) =~= s@.skip(i + 1));
        }
        let ghost pre = split2(s@.skip(i as int), a, b);
        let ghost post = split2(s@.skip(i + 1), a, b);
        let ghost dv = views_of(done@);
        let ghost cv = cur@;
        if s[i] == a || s[i] == b {
            proof {
                assert(pre == seq![Seq::<u8>::empty()].add(post));
                assert(pre[0] == Seq::<u8>::empty());
            }
            done.push(cur);
            cur = Vec::new();
            proof {
                assert(views_of(done@) =~= dv.push(cv));
                assert(cv.add(pre[0]) =~= cv);
                assert(pre.update(0, cv) =~= seq![cv].add(post));
                assert(Seq::<u8>::empty().add(post[0]) =~= post[0]);
                assert(post.update(0, post[0]) =~= post);
                assert(dv.push(cv).add(post) =~= dv.add(seq![cv].add(post)));
            }
        } else {
            cur.push(s[i]);
            proof {
                assert(pre == post.update(0, seq![s@[i as int]].add(post[0])));
                assert(pre[0] == seq![s@[i as int]].add(post[0]));
                assert(cv.add(pre[0]) =~= cur@.add(post[0]));
                assert(pre.update(0, cv.add(pre[0])) =~= post.update(0, cur@.add(post[0])));
            }
        }
        i += 1;
    }
    let ghost dv = views_of(done@);
    let ghost cv = cur@;
    proof {
        assert(s@.skip(n as int) =~= Seq::<u8>::empty());
        assert(split2(Seq::<u8>::empty(), a, b) == seq![Seq::<u8>::empty()]);
        assert(cv.add(Seq::<u8>::empty()) =~= cv);
        assert(seq![Seq::<u8>::empty()].update(0, cv) =~= seq![cv]);
    }
    done.push(cur);
    proof {
        assert(views_of(done@) =~= dv.push(cv));
        assert(dv.add(seq![cv]) =~= dv.push(cv));
    }
    done
}

} // verus!
