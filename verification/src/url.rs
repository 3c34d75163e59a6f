//! URL handling: splitting a URL into host, port and resource, and the
//! naive query-parameter scanner. Substring search is delegated to the
//! `twoway` crate and trusted only for its documented behaviour.
use vstd::prelude::*;

use crate::bytes::{
    bytes_eq, find_first, lemma_find_first_none, lemma_find_first_unique, split2, split_two,
    starts_with, starts_with_bytes, subrange_vec, views_of, AMP, COLON, EQ, QMARK, SLASH,
};

verus! {

/// `needle` occurs in `haystack` starting at position `i`.
pub open spec fn is_match_at(haystack: Seq<u8>, needle: Seq<u8>, i: int) -> bool {
    0 <= i && i + needle.len() <= haystack.len() && haystack.subrange(i, i + needle.len())
        == needle
}

/// `needle` occurs somewhere in `haystack`.
pub open spec fn has_match(haystack: Seq<u8>, needle: Seq<u8>) -> bool {
    exists|i: int| is_match_at(haystack, needle, i)
}

/// Relies on twoway::find_bytes: the index of the first occurrence of
/// `pattern` in `text`, if any; an empty pattern matches at index 0.
pub assume_specification[ twoway::find_bytes ](text: &[u8], pattern: &[u8]) -> (r: Option<usize>)
    ensures
        match r {
            Some(i) => is_match_at(text@, pattern@, i as int) && forall|j: int|
                0 <= j < i ==> !is_match_at(text@, pattern@, j),
            None => !has_match(text@, pattern@),
        },
;

/// A single-byte occurrence is an occurrence of that byte.
pub proof fn lemma_match_single(h: Seq<u8>, c: u8, i: int)
    ensures
        is_match_at(h, seq![c], i) <==> 0 <= i < h.len() && h[i] == c,
{
    if 0 <= i < h.len() && h[i] == c {
        assert(h.subrange(i, i + 1) =~= seq![c]);
    }
    if is_match_at(h, seq![c], i) {
        assert(h.subrange(i, i + 1)[0] == h[i]);
    }
}

/// What twoway::find_bytes reports of a single byte is its first occurrence.
pub proof fn lemma_find_bytes_single(h: Seq<u8>, c: u8, r: Option<usize>)
    requires
        match r {
            Some(i) => is_match_at(h, seq![c], i as int) && forall|j: int|
                0 <= j < i ==> !is_match_at(h, seq![c], j),
            None => !has_match(h, seq![c]),
        },
    ensures
        match r {
            Some(i) => find_first(h, c) == i as int,
            None => find_first(h, c) < 0,
        },
{
    match r {
        Some(i) => {
            lemma_match_single(h, c, i as int);
            assert forall|j: int| 0 <= j < i implies h[j] != c by {
                lemma_match_single(h, c, j);
            }
            lemma_find_first_unique(h, c, i as int);
        },
        None => {
            assert forall|j: int| 0 <= j < h.len() implies h[j] != c by {
                lemma_match_single(h, c, j);
            }
            lemma_find_first_none(h, c);
        },
    }
}

/// The bytes of the literal prefix `http://`.
pub open spec fn http_scheme() -> Seq<u8> {
    seq![104u8, 116u8, 116u8, 112u8, 58u8, 47u8, 47u8]
}

fn http_scheme_vec() -> (r: Vec<u8>)
    ensures
        r@ == http_scheme(),
{
    let mut v: Vec<u8> = Vec::new();
    v.push(104);
    v.push(116);
    v.push(116);
    v.push(112);
    v.push(58);
    v.push(47);
    v.push(47);
    assert(v@ =~= http_scheme());
    v
}

/// The URL with a leading `http://` removed, when it has one.
pub open spec fn strip_scheme(url: Seq<u8>) -> Seq<u8> {
    if starts_with(url, http_scheme()) {
        url.skip(7)
    } else {
        url
    }
}

/// Everything before the first `/` of the scheme-stripped URL.
pub open spec fn url_host_port(url: Seq<u8>) -> Seq<u8> {
    let u = strip_scheme(url);
    if find_first(u, SLASH) >= 0 {
        u.take(find_first(u, SLASH))
    } else {
        u
    }
}

/// Everything after the first `/` of the scheme-stripped URL; empty when
/// there is no `/`.
pub open spec fn url_resource(url: Seq<u8>) -> Seq<u8> {
    let u = strip_scheme(url);
    if find_first(u, SLASH) >= 0 {
        u.skip(find_first(u, SLASH) + 1)
    } else {
        Seq::<u8>::empty()
    }
}

/// The host-and-port part before its first `:`.
pub open spec fn url_host(url: Seq<u8>) -> Seq<u8> {
    let hp = url_host_port(url);
    if find_first(hp, COLON) >= 0 {
        hp.take(find_first(hp, COLON))
    } else {
        hp
    }
}

/// The host-and-port part after its first `:`; empty when there is no `:`.
pub open spec fn url_port(url: Seq<u8>) -> Seq<u8> {
    let hp = url_host_port(url);
    if find_first(hp, COLON) >= 0 {
        hp.skip(find_first(hp, COLON) + 1)
    } else {
        Seq::<u8>::empty()
    }
}

/// Splits a byte slice at the first occurrence of `c`, found by twoway;
/// the separator is dropped. Without an occurrence the whole slice and an
/// empty second part are returned.
fn split_at_first(u: &[u8], c: u8) -> (r: (Vec<u8>, Vec<u8>))
    ensures
        r.0@ == if find_first(u@, c) >= 0 {
            u@.take(find_first(u@, c))
        } else {
            u@
        },
        r.1@ == if find_first(u@, c) >= 0 {
            u@.skip(find_first(u@, c) + 1)
        } else {
            Seq::<u8>::empty()
        },
{
    let mut pattern: Vec<u8> = Vec::new();
    pattern.push(c);
    proof {
        assert(pattern@ =~= seq![c]);
    }
    let found = twoway::find_bytes(u, pattern.as_slice());
    proof {
        lemma_find_bytes_single(u@, c, found);
    }
    match found {
        Some(pos) => {
            let ulen = u.len();
            proof {
                crate::bytes::lemma_find_first_props(u@, c);
                assert(pos < ulen);
            }
            let head = subrange_vec(u, 0, pos);
            let tail = subrange_vec(u, pos + 1, ulen);
            proof {
                assert(u@.subrange(0, pos as int) =~= u@.take(pos as int));
                assert(u@.subrange(pos + 1, u@.len() as int) =~= u@.skip(pos + 1));
            }
            (head, tail)
        },
        None => (vstd::slice::slice_to_vec(u), Vec::new()),
    }
}

/// Extracts host, port and resource from a URL: strips a leading
/// `http://`, splits at the first `/` into host-and-port and resource,
/// and splits host-and-port at the first `:`.
pub fn get_host_port_resource_from_url(url: &[u8]) -> (r: (Vec<u8>, Vec<u8>, Vec<u8>))
    ensures
        r.0@ == url_host(url@),
        r.1@ == url_port(url@),
        r.2@ == url_resource(url@),
{
    let scheme = http_scheme_vec();
    let u: &[u8] = if starts_with_bytes(url, scheme.as_slice()) {
        let stripped = vstd::slice::slice_subrange(url, 7, url.len());
        proof {
            assert(url@.subrange(7, url@.len() as int) =~= url@.skip(7));
        }
        stripped
    } else {
        url
    };
    let (host_port, resource) = split_at_first(u, SLASH);
    let (host, port) = split_at_first(host_port.as_slice(), COLON);
    (host, port, resource)
}

/// One `key=value` query part carries `param`: it begins with `param`
/// followed directly by `=`.
pub open spec fn part_matches(part: Seq<u8>, param: Seq<u8>) -> bool {
    part.len() > param.len() && part.take(param.len() as int) == param && part[param.len() as int]
        == EQ
}

/// The value of the first query part that carries `param`, if any.
pub open spec fn cgi_find(parts: Seq<Seq<u8>>, param: Seq<u8>) -> Option<Seq<u8>>
    decreases parts.len(),
{
    if parts.len() == 0 {
        None
    } else if part_matches(parts[0], param) {
        Some(parts[0].skip(param.len() as int + 1))
    } else {
        cgi_find(parts.skip(1), param)
    }
}

/// The value of query parameter `param` in `url`, splitting on `?` and `&`.
pub open spec fn cgi_value(url: Seq<u8>, param: Seq<u8>) -> Option<Seq<u8>> {
    cgi_find(split2(url, QMARK, AMP), param)
}

/// Returns the value of a CGI parameter using a naive linear scan: the
/// URL is split on `?` and `&` and the first part equal to `param` plus
/// `=` plus a value yields that value.
pub fn get_cgi_param_value_naive(url: &[u8], param: &[u8]) -> (r: Option<Vec<u8>>)
    ensures
        match r {
            Some(v) => cgi_value(url@, param@) == Some(v@),
            None => cgi_value(url@, param@) is None,
        },
{
    let parts = split_two(url, QMARK, AMP);
    let n = parts.len();
    let ghost all = views_of(parts@);
    let mut i: usize = 0;
    proof {
        assert(all.skip(0) =~= all);
    }
    while i < n
        invariant
            n == parts@.len(),
            0 <= i <= n,
            all == views_of(parts@),
            all == split2(url@, QMARK, AMP),
            cgi_find(all, param@) == cgi_find(all.skip(i as int), param@),
        decreases n - i,
    {
        let part = &parts[i];
        proof {
            assert(all.skip(i as int)[0] == part@);
            assert(all.skip(i as int).skip(1) =~= all.skip(i + 1));
        }
        let plen = param.len();
        let matches = part.len() > plen && {
            let head = vstd::slice::slice_subrange(part.as_slice(), 0, plen);
            proof {
                assert(part@.subrange(0, plen as int) =~= part@.take(plen as int));
            }
            bytes_eq(head, param) && part[plen] == EQ
        };
        if matches {
            let v = subrange_vec(part.as_slice(), plen + 1, part.len());
            proof {
                assert(part@.subrange(plen + 1, part@.len() as int) =~= part@.skip(plen + 1));
                assert(part_matches(all.skip(i as int)[0], param@));
                assert(v@ =~= part@.skip(param@.len() as int + 1));
                assert(cgi_find(all.skip(i as int), param@) == Some(v@));
                assert(all == split2(url@, QMARK, AMP));
                assert(cgi_value(url@, param@) == Some(v@));
            }
            return Some(v);
        }
        proof {
            assert(!part_matches(all.skip(i as int)[0], param@));
        }
        i += 1;
    }
    proof {
        assert(all.skip(n as int) =~= Seq::<Seq<u8>>::empty());
    }
    None
}

/// The naive scanner only ever matches the parameter as a whole key:
/// whenever a value is returned, the matched query part is exactly the
/// parameter, one `=`, and the value — a part whose key merely ends in the
/// parameter is never taken.
pub proof fn lemma_cgi_exact_key(url: Seq<u8>, param: Seq<u8>, v: Seq<u8>)
    requires
        cgi_value(url, param) == Some(v),
    ensures
        exists|i: int|
            0 <= i < split2(url, QMARK, AMP).len() && split2(url, QMARK, AMP)[i] == param.add(
                seq![EQ],
            ).add(v),
{
    lemma_cgi_find_exact_key(split2(url, QMARK, AMP), param, v);
}

proof fn lemma_cgi_find_exact_key(parts: Seq<Seq<u8>>, param: Seq<u8>, v: Seq<u8>)
    requires
        cgi_find(parts, param) == Some(v),
    ensures
        exists|i: int| 0 <= i < parts.len() && parts[i] == param.add(seq![EQ]).add(v),
    decreases parts.len(),
{
    if part_matches(parts[0], param) {
        let part = parts[0];
        assert(part =~= param.add(seq![EQ]).add(part.skip(param.len() as int + 1)));
        assert(parts[0] == param.add(seq![EQ]).add(v));
    } else {
        lemma_cgi_find_exact_key(parts.skip(1), param, v);
        let j = choose|j: int|
            0 <= j < parts.skip(1).len() && parts.skip(1)[j] == param.add(seq![EQ]).add(v);
        assert(parts[j + 1] == param.add(seq![EQ]).add(v));
    }
}

} // verus!
