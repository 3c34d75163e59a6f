//! Classifying and parsing the three log line formats into a `LogRecord`:
//! plain (the whole line is the URL), tab-separated (URL at field 1, tags at
//! field 12), and tskv (tab-separated `key=value` pairs).
use vstd::prelude::*;

use crate::bytes::{
    bytes_eq, find_byte, find_first, split2, split_two, starts_with, starts_with_bytes,
    subrange_vec, views_of, EQ, LBRACKET, TAB,
};

verus! {

/// A normalized view of one log line: the URL and the comma-separated tags.
pub struct LogRecord {
    pub url: Vec<u8>,
    pub wizards: Vec<u8>,
}

/// The bytes of the literal marker `tskv`.
pub open spec fn tskv_marker() -> Seq<u8> {
    seq![116u8, 115u8, 107u8, 118u8]
}

/// The bytes of the literal key `url`.
pub open spec fn url_key() -> Seq<u8> {
    seq![117u8, 114u8, 108u8]
}

/// The bytes of the literal key `wizards`.
pub open spec fn wizards_key() -> Seq<u8> {
    seq![119u8, 105u8, 122u8, 97u8, 114u8, 100u8, 115u8]
}

fn tskv_marker_vec() -> (r: Vec<u8>)
    ensures
        r@ == tskv_marker(),
{
    let mut v: Vec<u8> = Vec::new();
    v.push(116);
    v.push(115);
    v.push(107);
    v.push(118);
    assert(v@ =~= tskv_marker());
    v
}

fn url_key_vec() -> (r: Vec<u8>)
    ensures
        r@ == url_key(),
{
    let mut v: Vec<u8> = Vec::new();
    v.push(117);
    v.push(114);
    v.push(108);
    assert(v@ =~= url_key());
    v
}

fn wizards_key_vec() -> (r: Vec<u8>)
    ensures
        r@ == wizards_key(),
{
    let mut v: Vec<u8> = Vec::new();
    v.push(119);
    v.push(105);
    v.push(122);
    v.push(97);
    v.push(114);
    v.push(100);
    v.push(115);
    assert(v@ =~= wizards_key());
    v
}

/// An owned copy of a byte vector.
pub fn copy_bytes(v: &Vec<u8>) -> (r: Vec<u8>)
    ensures
        r@ == v@,
{
    vstd::slice::slice_to_vec(v.as_slice())
}

pub open spec fn field_or_empty(fields: Seq<Seq<u8>>, i: int) -> Seq<u8> {
    if 0 <= i < fields.len() {
        fields[i]
    } else {
        Seq::<u8>::empty()
    }
}

/// The URL a tab-separated line carries: its field at position 1.
pub open spec fn tab_url(line: Seq<u8>) -> Seq<u8> {
    field_or_empty(split2(line, TAB, TAB), 1)
}

/// The tags a tab-separated line carries: its field at position 12.
pub open spec fn tab_wizards(line: Seq<u8>) -> Seq<u8> {
    field_or_empty(split2(line, TAB, TAB), 12)
}

/// The part of a `key=value` item before its first `=`; the whole item when
/// there is no `=`.
pub open spec fn kv_key(item: Seq<u8>) -> Seq<u8> {
    if find_first(item, EQ) >= 0 {
        item.take(find_first(item, EQ))
    } else {
        item
    }
}

/// The part of a `key=value` item after its first `=`; empty when there is
/// no `=`.
pub open spec fn kv_val(item: Seq<u8>) -> Seq<u8> {
    if find_first(item, EQ) >= 0 {
        item.skip(find_first(item, EQ) + 1)
    } else {
        Seq::<u8>::empty()
    }
}

/// The value of the last field whose key equals `key`, if any.
pub open spec fn tskv_lookup(fields: Seq<Seq<u8>>, key: Seq<u8>) -> Option<Seq<u8>>
    decreases fields.len(),
{
    if fields.len() == 0 {
        None
    } else if kv_key(fields.last()) == key {
        Some(kv_val(fields.last()))
    } else {
        tskv_lookup(fields.drop_last(), key)
    }
}

pub open spec fn opt_or_empty(o: Option<Seq<u8>>) -> Seq<u8> {
    match o {
        Some(v) => v,
        None => Seq::<u8>::empty(),
    }
}

/// The URL a tskv line carries.
pub open spec fn tskv_url(line: Seq<u8>) -> Seq<u8> {
    opt_or_empty(tskv_lookup(split2(line, TAB, TAB), url_key()))
}

/// The tags a tskv line carries.
pub open spec fn tskv_wizards(line: Seq<u8>) -> Seq<u8> {
    opt_or_empty(tskv_lookup(split2(line, TAB, TAB), wizards_key()))
}

/// A line that neither starts with `tskv` nor with `[` is taken as plain.
pub open spec fn is_plain(line: Seq<u8>) -> bool {
    !starts_with(line, tskv_marker()) && !starts_with(line, seq![LBRACKET])
}

/// A non-plain line whose first tab field is exactly `tskv` is a tskv line.
pub open spec fn is_tskv(line: Seq<u8>) -> bool {
    !is_plain(line) && split2(line, TAB, TAB)[0] == tskv_marker()
}

/// The URL that parsing a line of any of the three formats yields.
pub open spec fn log_url(line: Seq<u8>) -> Seq<u8> {
    if is_plain(line) {
        line
    } else if is_tskv(line) {
        tskv_url(line)
    } else {
        tab_url(line)
    }
}

/// The tags that parsing a line of any of the three formats yields.
pub open spec fn log_wizards(line: Seq<u8>) -> Seq<u8> {
    if is_plain(line) {
        Seq::<u8>::empty()
    } else if is_tskv(line) {
        tskv_wizards(line)
    } else {
        tab_wizards(line)
    }
}

/// Makes a `LogRecord` from a line containing only a URL.
pub fn make_record_from_plain_line(line: &[u8]) -> (r: LogRecord)
    ensures
        r.url@ == line@,
        r.wizards@ == Seq::<u8>::empty(),
{
    LogRecord { url: vstd::slice::slice_to_vec(line), wizards: Vec::new() }
}

/// Makes a `LogRecord` from a tab-separated log line: the URL is field 1 and
/// the tags are field 12, each empty when the line has no such field.
pub fn parse_tab_separated_log_line(line: &[u8]) -> (r: LogRecord)
    ensures
        r.url@ == tab_url(line@),
        r.wizards@ == tab_wizards(line@),
{
    let fields = split_two(line, TAB, TAB);
    let url: Vec<u8> = if fields.len() > 1 {
        copy_bytes(&fields[1])
    } else {
        Vec::new()
    };
    let wizards: Vec<u8> = if fields.len() > 12 {
        copy_bytes(&fields[12])
    } else {
        Vec::new()
    };
    proof {
        assert(views_of(fields@).len() == fields@.len());
        if fields@.len() > 1 {
            assert(views_of(fields@)[1] == fields@[1]@);
        }
        if fields@.len() > 12 {
            assert(views_of(fields@)[12] == fields@[12]@);
        }
    }
    LogRecord { url, wizards }
}

/// Splits one `key=value` item at its first `=`.
fn kv_split(item: &Vec<u8>) -> (r: (Vec<u8>, Vec<u8>))
    ensures
        r.0@ == kv_key(item@),
        r.1@ == kv_val(item@),
{
    match find_byte(item.as_slice(), EQ) {
        Some(p) => {
            let len = item.len();
            proof {
                crate::bytes::lemma_find_first_props(item@, EQ);
                assert(p < len);
            }
            let key = subrange_vec(item.as_slice(), 0, p);
            let val = subrange_vec(item.as_slice(), p + 1, len);
            proof {
                assert(item@.subrange(0, p as int) =~= item@.take(p as int));
                assert(item@.subrange(p + 1, item@.len() as int) =~= item@.skip(p + 1));
            }
            (key, val)
        },
        None => (copy_bytes(item), Vec::new()),
    }
}

/// Makes a `LogRecord` from a tskv log line: tab-separated `key=value`
/// pairs, reading the URL from the `url` key and the tags from the
/// `wizards` key; unknown keys are ignored.
pub fn parse_tskv_log_line(line: &[u8]) -> (r: LogRecord)
    ensures
        r.url@ == tskv_url(line@),
        r.wizards@ == tskv_wizards(line@),
{
    let fields = split_two(line, TAB, TAB);
    let url_k = url_key_vec();
    let wizards_k = wizards_key_vec();
    let mut url: Option<Vec<u8>> = None;
    let mut wizards: Option<Vec<u8>> = None;
    let n = fields.len();
    let ghost all = views_of(fields@);
    let mut i: usize = 0;
    proof {
        assert(all.take(0) =~= Seq::<Seq<u8>>::empty());
    }
    while i < n
        invariant
            n == fields@.len(),
            0 <= i <= n,
            all == views_of(fields@),
            match url {
                Some(v) => tskv_lookup(all.take(i as int), url_key()) == Some(v@),
                None => tskv_lookup(all.take(i as int), url_key()) is None,
            },
            match wizards {
                Some(v) => tskv_lookup(all.take(i as int), wizards_key()) == Some(v@),
                None => tskv_lookup(all.take(i as int), wizards_key()) is None,
            },
            url_k@ == url_key(),
            wizards_k@ == wizards_key(),
        decreases n - i,
    {
        let item = &fields[i];
        let (key, value) = kv_split(item);
        proof {
            assert(all.take(i + 1).drop_last() =~= all.take(i as int));
            assert(all.take(i + 1).last() == fields@[i as int]@);
        }
        if bytes_eq(key.as_slice(), url_k.as_slice()) {
            url = Some(value);
        } else if bytes_eq(key.as_slice(), wizards_k.as_slice()) {
            wizards = Some(value);
        }
        i += 1;
    }
    proof {
        assert(all.take(n as int) =~= all);
    }
    let url_out = match url {
        Some(v) => v,
        None => Vec::new(),
    };
    let wizards_out = match wizards {
        Some(v) => v,
        None => Vec::new(),
    };
    LogRecord { url: url_out, wizards: wizards_out }
}

/// Makes a `LogRecord` from a log line in any of the three formats,
/// dispatching on the line's first bytes and its first tab field.
pub fn parse_log_line(line: &[u8]) -> (r: LogRecord)
    ensures
        r.url@ == log_url(line@),
        r.wizards@ == log_wizards(line@),
{
    let tskv = tskv_marker_vec();
    let starts_tskv = starts_with_bytes(line, tskv.as_slice());
    let starts_bracket = line.len() >= 1 && line[0] == LBRACKET;
    proof {
        if line@.len() >= 1 {
            assert(starts_with(line@, seq![LBRACKET]) <==> line@[0] == LBRACKET) by {
                if line@[0] == LBRACKET {
                    assert(line@.take(1) =~= seq![LBRACKET]);
                } else {
                    assert(line@.take(1)[0] == line@[0]);
                }
            }
        } else {
            assert(!starts_with(line@, seq![LBRACKET]));
        }
    }
    if !starts_tskv && !starts_bracket {
        make_record_from_plain_line(line)
    } else {
        let first = match find_byte(line, TAB) {
            Some(p) => {
                proof {
                    crate::bytes::lemma_find_first_props(line@, TAB);
                }
                subrange_vec(line, 0, p)
            },
            None => vstd::slice::slice_to_vec(line),
        };
        proof {
            crate::bytes::lemma_split2_first(line@, TAB);
            assert(line@.subrange(0, find_first(line@, TAB)) =~= line@.take(
                find_first(line@, TAB),
            ));
        }
        if bytes_eq(first.as_slice(), tskv.as_slice()) {
            parse_tskv_log_line(line)
        } else {
            parse_tab_separated_log_line(line)
        }
    }
}

/// `k` tab bytes.
pub open spec fn tabs(k: nat) -> Seq<u8> {
    Seq::new(k, |i: int| TAB)
}

/// The tskv line that carries a URL-and-tags pair: the marker, a
/// `url=` field and a `wizards=` field.
pub open spec fn tskv_line_for(url: Seq<u8>, wizards: Seq<u8>) -> Seq<u8> {
    tskv_marker().add(seq![TAB]).add(url_key()).add(seq![EQ]).add(url).add(seq![TAB]).add(
        wizards_key(),
    ).add(seq![EQ]).add(wizards)
}

/// The tab-separated line that carries a URL-and-tags pair: a bracketed
/// first field, the URL at position 1, and the tags at position 12.
pub open spec fn tab_line_for(url: Seq<u8>, wizards: Seq<u8>) -> Seq<u8> {
    seq![LBRACKET].add(seq![TAB]).add(url).add(tabs(11)).add(wizards)
}

/// A byte absent from both parts is absent from their concatenation.
proof fn lemma_add_no_byte(a: Seq<u8>, b: Seq<u8>, c: u8)
    requires
        !a.contains(c),
        !b.contains(c),
    ensures
        !a.add(b).contains(c),
{
    if a.add(b).contains(c) {
        let j = choose|j: int| 0 <= j < a.add(b).len() && a.add(b)[j] == c;
        if j < a.len() {
            assert(a[j] == c);
        } else {
            assert(b[j - a.len()] == c);
        }
    }
}

proof fn lemma_marker_bytes()
    ensures
        !tskv_marker().contains(TAB),
        !url_key().contains(TAB),
        !url_key().contains(EQ),
        !wizards_key().contains(TAB),
        !wizards_key().contains(EQ),
{
    if tskv_marker().contains(TAB) {
        let j = choose|j: int| 0 <= j < tskv_marker().len() && tskv_marker()[j] == TAB;
        assert(j == 0 || j == 1 || j == 2 || j == 3);
    }
    if url_key().contains(TAB) {
        let j = choose|j: int| 0 <= j < url_key().len() && url_key()[j] == TAB;
        assert(j == 0 || j == 1 || j == 2);
    }
    if url_key().contains(EQ) {
        let j = choose|j: int| 0 <= j < url_key().len() && url_key()[j] == EQ;
        assert(j == 0 || j == 1 || j == 2);
    }
    if wizards_key().contains(TAB) {
        let j = choose|j: int| 0 <= j < wizards_key().len() && wizards_key()[j] == TAB;
        assert(j == 0 || j == 1 || j == 2 || j == 3 || j == 4 || j == 5 || j == 6);
    }
    if wizards_key().contains(EQ) {
        let j = choose|j: int| 0 <= j < wizards_key().len() && wizards_key()[j] == EQ;
        assert(j == 0 || j == 1 || j == 2 || j == 3 || j == 4 || j == 5 || j == 6);
    }
}

/// A `key=value` item splits back into the key and the value whenever
/// the key itself holds no `=`.
proof fn lemma_kv_of_keyed(key: Seq<u8>, val: Seq<u8>)
    requires
        !key.contains(EQ),
    ensures
        kv_key(key.add(seq![EQ]).add(val)) == key,
        kv_val(key.add(seq![EQ]).add(val)) == val,
{
    let item = key.add(seq![EQ]).add(val);
    assert(item[key.len() as int] == EQ);
    assert forall|j: int| 0 <= j < key.len() implies item[j] != EQ by {
        assert(item[j] == key[j]);
        assert(key.contains(key[j]));
    }
    crate::bytes::lemma_find_first_unique(item, EQ, key.len() as int);
    assert(item.take(key.len() as int) =~= key);
    assert(item.skip(key.len() as int + 1) =~= val);
}

/// Splitting tab bytes followed by a rest yields that many empty fields
/// in front of the rest's fields.
proof fn lemma_split_tabs(k: nat, rest: Seq<u8>)
    ensures
        split2(tabs(k).add(rest), TAB, TAB) == Seq::new(k, |i: int| Seq::<u8>::empty()).add(
            split2(rest, TAB, TAB),
        ),
    decreases k,
{
    if k == 0 {
        assert(tabs(0).add(rest) =~= rest);
        assert(Seq::new(0, |i: int| Seq::<u8>::empty()).add(split2(rest, TAB, TAB)) =~= split2(
            rest,
            TAB,
            TAB,
        ));
    } else {
        let s = tabs(k).add(rest);
        assert(s[0] == TAB);
        assert(s.skip(1) =~= tabs((k - 1) as nat).add(rest));
        lemma_split_tabs((k - 1) as nat, rest);
        assert(seq![Seq::<u8>::empty()].add(
            Seq::new((k - 1) as nat, |i: int| Seq::<u8>::empty()).add(split2(rest, TAB, TAB)),
        ) =~= Seq::new(k, |i: int| Seq::<u8>::empty()).add(split2(rest, TAB, TAB)));
    }
}

/// Format equivalence: one logical URL-and-tags pair parses to the same
/// record from the tskv form and the tab-separated form, and — when the
/// tags are empty and the URL is not mistaken for a marker — from the
/// plain form.
pub proof fn lemma_format_equivalence(url: Seq<u8>, wizards: Seq<u8>)
    requires
        !url.contains(TAB),
        !wizards.contains(TAB),
    ensures
        log_url(tskv_line_for(url, wizards)) == url,
        log_wizards(tskv_line_for(url, wizards)) == wizards,
        log_url(tab_line_for(url, wizards)) == url,
        log_wizards(tab_line_for(url, wizards)) == wizards,
        !starts_with(url, tskv_marker()) && !starts_with(url, seq![LBRACKET]) ==> log_url(url)
            == url && log_wizards(url) == Seq::<u8>::empty(),
{
    lemma_marker_bytes();
    // The tskv form.
    let item1 = url_key().add(seq![EQ]).add(url);
    let item2 = wizards_key().add(seq![EQ]).add(wizards);
    let line1 = tskv_line_for(url, wizards);
    let rest1 = item1.add(seq![TAB]).add(item2);
    assert(line1 =~= tskv_marker().add(seq![TAB]).add(rest1));
    lemma_add_no_byte(url_key(), seq![EQ], TAB);
    lemma_add_no_byte(url_key().add(seq![EQ]), url, TAB);
    lemma_add_no_byte(wizards_key(), seq![EQ], TAB);
    lemma_add_no_byte(wizards_key().add(seq![EQ]), wizards, TAB);
    crate::bytes::lemma_split2_cut(tskv_marker(), rest1, TAB);
    crate::bytes::lemma_split2_cut(item1, item2, TAB);
    crate::bytes::lemma_split2_whole(item2, TAB, TAB);
    let fields1 = split2(line1, TAB, TAB);
    assert(fields1 =~= seq![tskv_marker(), item1, item2]);
    lemma_kv_of_keyed(url_key(), url);
    lemma_kv_of_keyed(wizards_key(), wizards);
    assert(kv_key(item2) != url_key());
    assert(kv_key(item1) != wizards_key());
    assert(fields1.last() == item2);
    assert(fields1.drop_last() =~= seq![tskv_marker(), item1]);
    assert(tskv_lookup(fields1, wizards_key()) == Some(wizards));
    assert(seq![tskv_marker(), item1].last() == item1);
    assert(seq![tskv_marker(), item1].drop_last() =~= seq![tskv_marker()]);
    assert(tskv_lookup(seq![tskv_marker(), item1], url_key()) == Some(url)) by {
        assert(kv_key(item1) == url_key());
        assert(kv_val(item1) == url);
    }
    assert(tskv_lookup(fields1, url_key()) == tskv_lookup(seq![tskv_marker(), item1], url_key()));
    assert(tskv_lookup(fields1, url_key()) == Some(url));
    assert(starts_with(line1, tskv_marker())) by {
        assert(line1.take(tskv_marker().len() as int) =~= tskv_marker());
    }
    assert(!is_plain(line1));
    assert(is_tskv(line1));
    assert(log_url(line1) == url);
    assert(log_wizards(line1) == wizards);

    // The tab-separated form.
    let line2 = tab_line_for(url, wizards);
    let rest2 = url.add(seq![TAB]).add(tabs(10).add(wizards));
    assert(tabs(11) =~= seq![TAB].add(tabs(10)));
    assert(line2 =~= seq![LBRACKET].add(seq![TAB]).add(rest2));
    assert(!seq![LBRACKET].contains(TAB)) by {
        if seq![LBRACKET].contains(TAB) {
            let j = choose|j: int| 0 <= j < 1 && seq![LBRACKET][j] == TAB;
            assert(j == 0);
        }
    }
    crate::bytes::lemma_split2_cut(seq![LBRACKET], rest2, TAB);
    crate::bytes::lemma_split2_cut(url, tabs(10).add(wizards), TAB);
    lemma_split_tabs(10, wizards);
    crate::bytes::lemma_split2_whole(wizards, TAB, TAB);
    let fields2 = split2(line2, TAB, TAB);
    let empties = Seq::new(10, |i: int| Seq::<u8>::empty());
    assert(fields2 =~= seq![seq![LBRACKET], url].add(empties).add(seq![wizards]));
    assert(fields2.len() == 13);
    assert(fields2[1] == url);
    assert(fields2[12] == wizards);
    assert(starts_with(line2, seq![LBRACKET])) by {
        assert(line2.take(1) =~= seq![LBRACKET]);
    }
    assert(!is_plain(line2));
    assert(fields2[0] == seq![LBRACKET]);
    assert(fields2[0] != tskv_marker()) by {
        assert(fields2[0].len() != tskv_marker().len());
    }
    assert(!is_tskv(line2));
    assert(log_url(line2) == tab_url(line2));
    assert(tab_url(line2) == url);
    assert(log_wizards(line2) == wizards);
}

} // verus!
