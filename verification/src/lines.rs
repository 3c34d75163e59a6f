//! Line sources: turning raw in-memory byte streams into logical lines,
//! transparently decompressing gzip streams, chaining several sources in
//! order, and filtering out non-primary request lines.
use vstd::prelude::*;

use crate::bytes::{lemma_split2_no_sep, split2, split_two, views_of, LF};
use crate::url::has_match;

verus! {

/// What the bytes decompress to when they form a gzip stream; `None` when
/// they do not.
pub uninterp spec fn gunzip_of(data: Seq<u8>) -> Option<Seq<u8>>;

/// Relies on flate2's read::GzDecoder: decompression of an in-memory gzip
/// stream is a function of the bytes alone; the decoder reports bytes that
/// do not decompress as one gzip stream as an error, returned here as
/// `None`.
#[verifier::external_body]
fn try_gunzip(data: &[u8]) -> (r: Option<Vec<u8>>)
    ensures
        r.deep_view() == gunzip_of(data@),
{
    let mut decoder = flate2::read::GzDecoder::new(data);
    let mut out: Vec<u8> = Vec::new();
    match std::io::Read::read_to_end(&mut decoder, &mut out) {
        Ok(_) => Some(out),
        Err(_) => None,
    }
}

/// The logical lines of a byte buffer: the segments between newline bytes,
/// without a final empty segment when the buffer ends in a newline.
pub open spec fn spec_lines(data: Seq<u8>) -> Seq<Seq<u8>> {
    let p = split2(data, LF, LF);
    if p.len() > 0 && p.last() == Seq::<u8>::empty() {
        p.drop_last()
    } else {
        p
    }
}

/// The bytes a source presents: itself, or its gzip decompression when it
/// is a gzip stream.
pub open spec fn decoded_of(data: Seq<u8>) -> Seq<u8> {
    match gunzip_of(data) {
        Some(v) => v,
        None => data,
    }
}

/// The logical lines a raw source yields after gzip sniffing.
pub open spec fn source_lines(data: Seq<u8>) -> Seq<Seq<u8>> {
    spec_lines(decoded_of(data))
}

/// Splits a byte buffer into its logical lines, stripping the newline
/// bytes that end each line.
pub fn lines_of_bytes(data: &[u8]) -> (r: Vec<Vec<u8>>)
    ensures
        views_of(r@) == spec_lines(data@),
{
    let mut parts = split_two(data, LF, LF);
    let ghost before = views_of(parts@);
    let n = parts.len();
    if n > 0 && parts[n - 1].len() == 0 {
        proof {
            assert(before.last() == parts@[n - 1]@);
            assert(parts@[n - 1]@ =~= Seq::<u8>::empty());
        }
        parts.pop();
        proof {
            assert(views_of(parts@) =~= before.drop_last());
        }
    }
    parts
}

/// Reads the logical lines of one raw byte stream, decompressing it when
/// it is gzip-compressed and taking it verbatim otherwise.
pub fn process_lines(data: &[u8]) -> (r: Vec<Vec<u8>>)
    ensures
        views_of(r@) == source_lines(data@),
{
    match try_gunzip(data) {
        Some(decoded) => {
            proof {
                assert(decoded.deep_view() =~= decoded@);
            }
            lines_of_bytes(decoded.as_slice())
        },
        None => lines_of_bytes(data),
    }
}

/// No logical line holds a newline byte; in particular none ends in one.
pub proof fn lemma_lines_no_newline(data: Seq<u8>)
    ensures
        forall|i: int|
            0 <= i < spec_lines(data).len() ==> !(#[trigger] spec_lines(data)[i]).contains(LF),
{
    lemma_split2_no_sep(data, LF, LF);
    let p = split2(data, LF, LF);
    assert forall|i: int|
        0 <= i < spec_lines(data).len() implies !(#[trigger] spec_lines(data)[i]).contains(LF) by {
        assert(spec_lines(data)[i] == p[i]);
    }
}

/// A line source and the lines it stands for.
pub trait ReadByLine {
    spec fn lines_model(&self) -> Seq<Seq<u8>>;

    fn process_lines(&self) -> (r: Vec<Vec<u8>>)
        ensures
            views_of(r@) == self.lines_model(),
    ;
}

/// A source reading one in-memory byte stream.
pub struct GenericReader {
    pub data: Vec<u8>,
}

impl GenericReader {
    /// The logical lines of this source, after gzip sniffing.
    pub fn lines(&self) -> (r: Vec<Vec<u8>>)
        ensures
            views_of(r@) == source_lines(self.data@),
    {
        process_lines(self.data.as_slice())
    }
}

impl ReadByLine for GenericReader {
    open spec fn lines_model(&self) -> Seq<Seq<u8>> {
        source_lines(self.data@)
    }

    fn process_lines(&self) -> (r: Vec<Vec<u8>>) {
        self.lines()
    }
}

/// The lines of a sequence of sources, in source order.
pub open spec fn chained_lines(srcs: Seq<GenericReader>) -> Seq<Seq<u8>>
    decreases srcs.len(),
{
    if srcs.len() == 0 {
        Seq::<Seq<u8>>::empty()
    } else {
        chained_lines(srcs.drop_last()).add(source_lines(srcs.last().data@))
    }
}

/// A composite source yielding each inner source's lines in order.
pub struct Chained {
    pub sources: Vec<GenericReader>,
}

impl Chained {
    /// The logical lines of every inner source, concatenated in order.
    pub fn lines(&self) -> (r: Vec<Vec<u8>>)
        ensures
            views_of(r@) == chained_lines(self.sources@),
    {
        let mut acc: Vec<Vec<u8>> = Vec::new();
        let n = self.sources.len();
        let mut i: usize = 0;
        proof {
            assert(self.sources@.take(0) =~= Seq::<GenericReader>::empty());
            assert(views_of(acc@) =~= Seq::<Seq<u8>>::empty());
        }
        while i < n
            invariant
                n == self.sources@.len(),
                0 <= i <= n,
                views_of(acc@) == chained_lines(self.sources@.take(i as int)),
            decreases n - i,
        {
            let mut part = self.sources[i].lines();
            let ghost acc_before = views_of(acc@);
            let ghost part_view = views_of(part@);
            acc.append(&mut part);
            proof {
                assert(views_of(acc@) =~= acc_before.add(part_view));
                assert(self.sources@.take(i + 1).drop_last() =~= self.sources@.take(i as int));
                assert(self.sources@.take(i + 1).last() == self.sources@[i as int]);
            }
            i += 1;
        }
        proof {
            assert(self.sources@.take(n as int) =~= self.sources@);
        }
        acc
    }
}

impl ReadByLine for Chained {
    open spec fn lines_model(&self) -> Seq<Seq<u8>> {
        chained_lines(self.sources@)
    }

    fn process_lines(&self) -> (r: Vec<Vec<u8>>) {
        self.lines()
    }
}

/// The bytes of the marker `rep-outgoing=1` of internal redirect lines.
pub open spec fn rep_outgoing_pattern() -> Seq<u8> {
    seq![114u8, 101u8, 112u8, 45u8, 111u8, 117u8, 116u8, 103u8, 111u8, 105u8, 110u8, 103u8, 61u8, 49u8]
}

/// The bytes of the marker `subrequest=1` of sub-request lines.
pub open spec fn subrequest_pattern() -> Seq<u8> {
    seq![115u8, 117u8, 98u8, 114u8, 101u8, 113u8, 117u8, 101u8, 115u8, 116u8, 61u8, 49u8]
}

fn rep_outgoing_vec() -> (r: Vec<u8>)
    ensures
        r@ == rep_outgoing_pattern(),
{
    let mut v: Vec<u8> = Vec::new();
    v.push(114);
    v.push(101);
    v.push(112);
    v.push(45);
    v.push(111);
    v.push(117);
    v.push(116);
    v.push(103);
    v.push(111);
    v.push(105);
    v.push(110);
    v.push(103);
    v.push(61);
    v.push(49);
    assert(v@ =~= rep_outgoing_pattern());
    v
}

fn subrequest_vec() -> (r: Vec<u8>)
    ensures
        r@ == subrequest_pattern(),
{
    let mut v: Vec<u8> = Vec::new();
    v.push(115);
    v.push(117);
    v.push(98);
    v.push(114);
    v.push(101);
    v.push(113);
    v.push(117);
    v.push(101);
    v.push(115);
    v.push(116);
    v.push(61);
    v.push(49);
    assert(v@ =~= subrequest_pattern());
    v
}

/// A line is kept when it carries neither exclusion marker.
pub open spec fn line_passes(line: Seq<u8>) -> bool {
    !has_match(line, rep_outgoing_pattern()) && !has_match(line, subrequest_pattern())
}

/// The lines that pass the exclusion predicates, in order.
pub open spec fn filter_spec(lines: Seq<Seq<u8>>) -> Seq<Seq<u8>>
    decreases lines.len(),
{
    if lines.len() == 0 {
        Seq::<Seq<u8>>::empty()
    } else {
        filter_spec(lines.drop_last()).add(
            if line_passes(lines.last()) {
                seq![lines.last()]
            } else {
                Seq::<Seq<u8>>::empty()
            },
        )
    }
}

/// Drops every line that carries an exclusion marker, keeping the rest in
/// order. The substring search is twoway's.
pub fn filter_lines(lines: &Vec<Vec<u8>>) -> (r: Vec<Vec<u8>>)
    ensures
        views_of(r@) == filter_spec(views_of(lines@)),
{
    let pat_rep = rep_outgoing_vec();
    let pat_sub = subrequest_vec();
    let mut acc: Vec<Vec<u8>> = Vec::new();
    let n = lines.len();
    let ghost all = views_of(lines@);
    let mut i: usize = 0;
    proof {
        assert(all.take(0) =~= Seq::<Seq<u8>>::empty());
        assert(views_of(acc@) =~= Seq::<Seq<u8>>::empty());
    }
    while i < n
        invariant
            n == lines@.len(),
            0 <= i <= n,
            all == views_of(lines@),
            pat_rep@ == rep_outgoing_pattern(),
            pat_sub@ == subrequest_pattern(),
            views_of(acc@) == filter_spec(all.take(i as int)),
        decreases n - i,
    {
        let line = &lines[i];
        let hit_rep = twoway::find_bytes(line.as_slice(), pat_rep.as_slice());
        let hit_sub = twoway::find_bytes(line.as_slice(), pat_sub.as_slice());
        let keep = match (hit_rep, hit_sub) {
            (None, None) => true,
            _ => false,
        };
        proof {
            assert(keep <==> line_passes(line@));
            assert(all.take(i + 1).drop_last() =~= all.take(i as int));
            assert(all.take(i + 1).last() == all[i as int]);
        }
        let ghost acc_before = views_of(acc@);
        if keep {
            let kept = crate::parse::copy_bytes(line);
            acc.push(kept);
            proof {
                assert(views_of(acc@) =~= acc_before.add(seq![line@]));
            }
        } else {
            proof {
                assert(acc_before.add(Seq::<Seq<u8>>::empty()) =~= acc_before);
            }
        }
        i += 1;
    }
    proof {
        assert(all.take(n as int) =~= all);
    }
    acc
}

/// Counts the lines the chained, filtered source yields: the prior full
/// pass that proportional sampling needs.
pub fn get_lines_count(sources: &Chained) -> (r: usize)
    ensures
        r == filter_spec(chained_lines(sources.sources@)).len(),
{
    let lines = sources.lines();
    let filtered = filter_lines(&lines);
    filtered.len()
}

} // verus!
