//! Ammo processors: the common consume-one-bullet / finish stages. A
//! serializing sink renders bullets into an output buffer, a round-robin
//! stage fans bullets out over several sinks, and two sampling stages
//! subsample the stream — a reservoir of fixed capacity for an unknown
//! total, and proportional online selection for a known total.
use vstd::prelude::*;

use crate::ammo::{render_bullet, render_bullet_spec, BulletData, BulletModel, StoredBullet};
use crate::bytes::push_all;
use crate::error::ProcError;
use vstd::arithmetic::div_mod::{lemma_add_mod_noop, lemma_mod_self_0, lemma_small_mod};

verus! {

/// The result is the logic error that reports a sample-size shortfall of
/// exactly `seen` bullets seen against `required` required.
pub open spec fn is_shortfall(r: Result<(), ProcError>, seen: usize, required: usize) -> bool {
    match r {
        Err(e) => match e {
            ProcError::Logic { seen: s, required: q } => s == seen && q == required,
            _ => false,
        },
        _ => false,
    }
}

/// `a` is a subsequence of `b`: its entries appear in `b` in the same
/// relative order.
pub open spec fn subsequence_of(a: Seq<BulletModel>, b: Seq<BulletModel>) -> bool
    decreases a.len(), b.len(),
{
    if a.len() == 0 {
        true
    } else if b.len() == 0 {
        false
    } else if a.last() == b.last() {
        subsequence_of(a.drop_last(), b.drop_last())
    } else {
        subsequence_of(a, b.drop_last())
    }
}

/// A subsequence shrunk from the right is still a subsequence.
pub proof fn lemma_subsequence_drop(a: Seq<BulletModel>, b: Seq<BulletModel>)
    requires
        subsequence_of(a, b),
        a.len() > 0,
    ensures
        subsequence_of(a.drop_last(), b),
    decreases a.len() + b.len(),
{
    assert(b.push(b.last()).drop_last() =~= b);
    if a.last() == b.last() {
        lemma_subsequence_extend(a.drop_last(), b.drop_last(), b.last());
        assert(b.drop_last().push(b.last()) =~= b);
    } else {
        lemma_subsequence_drop(a, b.drop_last());
        lemma_subsequence_extend(a.drop_last(), b.drop_last(), b.last());
        assert(b.drop_last().push(b.last()) =~= b);
    }
}

/// A subsequence stays one when the larger sequence grows.
pub proof fn lemma_subsequence_extend(a: Seq<BulletModel>, b: Seq<BulletModel>, x: BulletModel)
    requires
        subsequence_of(a, b),
    ensures
        subsequence_of(a, b.push(x)),
    decreases a.len() + b.len() + 1,
{
    assert(b.push(x).drop_last() =~= b);
    if a.len() != 0 && a.last() == x {
        lemma_subsequence_drop(a, b);
    }
}

/// Appending the same element to both sides keeps the subsequence.
pub proof fn lemma_subsequence_push(a: Seq<BulletModel>, b: Seq<BulletModel>, x: BulletModel)
    requires
        subsequence_of(a, b),
    ensures
        subsequence_of(a.push(x), b.push(x)),
{
    assert(a.push(x).drop_last() =~= a);
    assert(b.push(x).drop_last() =~= b);
    assert(a.push(x).last() == b.push(x).last());
}

/// The error is the logic error that reports a sample-size shortfall.
pub open spec fn shortfall_error(e: ProcError, seen: usize, required: usize) -> bool {
    is_shortfall(Err(e), seen, required)
}

/// The models of a sequence of stored bullets.
pub open spec fn bullets_of(s: Seq<StoredBullet>) -> Seq<BulletModel> {
    Seq::new(s.len(), |i: int| s[i]@)
}

/// The concatenated wire records of a sequence of bullets.
pub open spec fn renders_of(bs: Seq<BulletModel>) -> Seq<u8>
    decreases bs.len(),
{
    if bs.len() == 0 {
        Seq::<u8>::empty()
    } else {
        renders_of(bs.drop_last()).add(render_bullet_spec(bs.last()))
    }
}

/// Relies on rand::random_range: a draw from the range `0..n`, which
/// panics when the range is empty.
#[verifier::external_body]
fn rand_below(n: usize) -> (r: usize)
    requires
        n > 0,
    ensures
        r < n,
{
    rand::random_range(0..n)
}

/// The shared capability of every pipeline stage: consume one bullet at
/// a time, then flush once. Each stage names its own invariant and the
/// condition under which it can take one more bullet; the exact contracts
/// live on the stages' own methods.
pub trait AmmoProcessor {
    spec fn inv(&self) -> bool;

    spec fn ready(&self) -> bool;

    fn process(&mut self, bullet: &BulletData) -> (r: Result<(), ProcError>)
        requires
            old(self).inv(),
            old(self).ready(),
        ensures
            final(self).inv(),
    ;

    fn finish(&mut self) -> (r: Result<(), ProcError>)
        requires
            old(self).inv(),
        ensures
            final(self).inv(),
    ;
}

/// A serializing sink: renders each bullet it is given into its output
/// buffer. The bullets taken so far are carried alongside as the ghost
/// history that the buffer provably spells out.
pub struct WriteAmmo {
    pub out: Vec<u8>,
    pub taken: Ghost<Seq<BulletModel>>,
}

impl WriteAmmo {
    pub open spec fn wf(&self) -> bool {
        self.out@ == renders_of(self.taken@)
    }

    /// A fresh sink with an empty output buffer.
    pub fn new() -> (r: WriteAmmo)
        ensures
            r.wf(),
            r.taken@ == Seq::<BulletModel>::empty(),
            r.out@ == Seq::<u8>::empty(),
    {
        WriteAmmo { out: Vec::new(), taken: Ghost(Seq::empty()) }
    }

    /// Renders one bullet and appends its wire record to the buffer.
    pub fn process(&mut self, bullet: &BulletData) -> (r: Result<(), ProcError>)
        requires
            old(self).wf(),
        ensures
            final(self).wf(),
            final(self).taken@ == old(self).taken@.push(bullet@),
            final(self).out@ == old(self).out@.add(render_bullet_spec(bullet@)),
            r is Ok,
    {
        let rendered = render_bullet(bullet);
        push_all(&mut self.out, rendered.as_slice());
        proof {
            let t = self.taken@.push(bullet@);
            assert(t.drop_last() =~= self.taken@);
            assert(renders_of(t) == renders_of(self.taken@).add(render_bullet_spec(bullet@)));
        }
        self.taken = Ghost(self.taken@.push(bullet@));
        Ok(())
    }

    /// Nothing is buffered beyond the output itself, so there is nothing
    /// left to flush.
    pub fn finish(&mut self) -> (r: Result<(), ProcError>)
        ensures
            *final(self) == *old(self),
            r is Ok,
    {
        Ok(())
    }
}

/// The bullets at positions congruent to `i` modulo `n`, in order.
pub open spec fn rr_filter(hist: Seq<BulletModel>, i: int, n: int) -> Seq<BulletModel>
    decreases hist.len(),
{
    if hist.len() == 0 {
        Seq::<BulletModel>::empty()
    } else {
        rr_filter(hist.drop_last(), i, n).add(
            if (hist.len() - 1) % n == i {
                seq![hist.last()]
            } else {
                Seq::<BulletModel>::empty()
            },
        )
    }
}

proof fn lemma_rr_filter_push(hist: Seq<BulletModel>, b: BulletModel, i: int, n: int)
    requires
        n > 0,
    ensures
        rr_filter(hist.push(b), i, n) == if hist.len() as int % n == i {
            rr_filter(hist, i, n).push(b)
        } else {
            rr_filter(hist, i, n)
        },
{
    let h = hist.push(b);
    assert(h.drop_last() =~= hist);
    assert(h.last() == b);
    if hist.len() as int % n == i {
        assert(rr_filter(hist, i, n).add(seq![b]) =~= rr_filter(hist, i, n).push(b));
    } else {
        assert(rr_filter(hist, i, n).add(Seq::<BulletModel>::empty()) =~= rr_filter(
            hist,
            i,
            n,
        ));
    }
}

/// Stepping a counter forward by one steps its remainder forward by one,
/// wrapping to zero at the modulus.
proof fn lemma_mod_succ(len: int, n: int)
    requires
        n > 0,
        len >= 0,
    ensures
        (len + 1) % n == if len % n + 1 == n {
            0int
        } else {
            len % n + 1
        },
{
    lemma_add_mod_noop(len, 1, n);
    if n == 1 {
    } else {
        lemma_small_mod(1nat, n as nat);
        if len % n + 1 == n {
            lemma_mod_self_0(n);
        } else {
            lemma_small_mod((len % n + 1) as nat, n as nat);
        }
    }
}

/// Fans bullets out across its sinks in round-robin order, keeping the
/// full ghost history of the bullets it has forwarded.
pub struct RoundRobin {
    pub subprocessors: Vec<WriteAmmo>,
    pub current: usize,
    pub hist: Ghost<Seq<BulletModel>>,
}

impl RoundRobin {
    pub open spec fn wf(&self) -> bool {
        &&& self.subprocessors@.len() > 0
        &&& (self.current as int) < self.subprocessors@.len()
        &&& self.current as int == (self.hist@.len() as int) % (self.subprocessors@.len() as int)
        &&& forall|i: int|
            0 <= i < self.subprocessors@.len() ==> (#[trigger] self.subprocessors@[i]).wf()
                && self.subprocessors@[i].taken@ == rr_filter(
                self.hist@,
                i,
                self.subprocessors@.len() as int,
            )
    }

    /// A fan-out over the given fresh sinks, starting at the first.
    pub fn new(subprocessors: Vec<WriteAmmo>) -> (r: RoundRobin)
        requires
            subprocessors@.len() > 0,
            forall|i: int|
                0 <= i < subprocessors@.len() ==> (#[trigger] subprocessors@[i]).wf()
                    && subprocessors@[i].taken@ == Seq::<BulletModel>::empty(),
        ensures
            r.wf(),
            r.hist@ == Seq::<BulletModel>::empty(),
            r.subprocessors@ == subprocessors@,
            r.current == 0,
    {
        let r = RoundRobin { subprocessors, current: 0, hist: Ghost(Seq::empty()) };
        proof {
            assert((r.hist@.len() as int) % (r.subprocessors@.len() as int) == 0) by {
                lemma_small_mod(0nat, r.subprocessors@.len() as nat);
            }
        }
        r
    }

    /// Hands the bullet to the sink at the current index, then advances
    /// the index, wrapping past the last sink.
    pub fn process(&mut self, bullet: &BulletData) -> (r: Result<(), ProcError>)
        requires
            old(self).wf(),
        ensures
            final(self).wf(),
            final(self).hist@ == old(self).hist@.push(bullet@),
            final(self).subprocessors@.len() == old(self).subprocessors@.len(),
            final(self).current as int == (old(self).current + 1) % (
            old(self).subprocessors@.len() as int),
            r is Ok,
    {
        let ghost n = self.subprocessors@.len() as int;
        let ghost old_hist = self.hist@;
        let len = self.subprocessors.len();
        let cur = self.current;
        let mut sink = self.subprocessors.remove(cur);
        let res = sink.process(bullet);
        self.subprocessors.insert(cur, sink);
        proof {
            assert(self.subprocessors@ =~= old(self).subprocessors@.update(cur as int, sink));
        }
        let next = cur + 1;
        self.current = if next >= len {
            0
        } else {
            next
        };
        self.hist = Ghost(self.hist@.push(bullet@));
        proof {
            lemma_mod_succ(old_hist.len() as int, n);
            assert forall|i: int|
                0 <= i < self.subprocessors@.len() implies (
            #[trigger] self.subprocessors@[i]).wf() && self.subprocessors@[i].taken@ == rr_filter(
                self.hist@,
                i,
                n,
            ) by {
                lemma_rr_filter_push(old_hist, bullet@, i, n);
                if i != cur as int {
                    assert(self.subprocessors@[i] == old(self).subprocessors@[i]);
                }
            }
            if next == len {
                lemma_mod_self_0(n);
            } else {
                lemma_small_mod(next as nat, n as nat);
            }
            assert((old(self).current + 1) % n == self.current as int);
        }
        match res {
            Ok(()) => Ok(()),
            Err(e) => Err(e),
        }
    }

    /// Finishes every sink in list order; the sinks buffer nothing, so
    /// the fan-out is left as it stands.
    pub fn finish(&mut self) -> (r: Result<(), ProcError>)
        ensures
            final(self).subprocessors@ == old(self).subprocessors@,
            final(self).current == old(self).current,
            final(self).hist@ == old(self).hist@,
            r is Ok,
    {
        let n = self.subprocessors.len();
        let mut i: usize = 0;
        while i < n
            invariant
                n == self.subprocessors@.len(),
                0 <= i <= n,
                self.subprocessors@ == old(self).subprocessors@,
                self.current == old(self).current,
                self.hist@ == old(self).hist@,
            decreases n - i,
        {
            let mut sink = self.subprocessors.remove(i);
            let res = sink.finish();
            self.subprocessors.insert(i, sink);
            proof {
                assert(self.subprocessors@ =~= old(self).subprocessors@);
            }
            match res {
                Ok(()) => {},
                Err(e) => {
                    return Err(e);
                },
            }
            i += 1;
        }
        Ok(())
    }
}

/// The round-robin assignment, spelled out by position: sink `i` holds
/// exactly the forwarded bullets at positions `i`, `i + n`, `i + 2n`, …
/// of the history, in that order.
/// Round-robin coverage: the positions `i`, `i + n`, `i + 2n`, … of the
/// bullets that sink `i` holds reach to the end of the history — there is
/// no history entry at such a position beyond them.
pub proof fn lemma_round_robin_coverage(hist: Seq<BulletModel>, i: int, n: int)
    requires
        n > 0,
        0 <= i < n,
    ensures
        i + rr_filter(hist, i, n).len() * n >= hist.len(),
    decreases hist.len(),
{
    if hist.len() == 0 {
    } else {
        let prev = hist.drop_last();
        lemma_round_robin_coverage(prev, i, n);
        let m = hist.len() - 1;
        let f = rr_filter(prev, i, n);
        let g = rr_filter(hist, i, n);
        let k0 = f.len() as int;
        if m % n == i {
            assert(g =~= f.add(seq![hist.last()]));
            assert(g.len() == k0 + 1);
            assert((k0 + 1) * n == k0 * n + n) by (nonlinear_arith);
        } else {
            assert(g =~= f.add(Seq::<BulletModel>::empty()));
            if i + k0 * n == m {
                vstd::arithmetic::div_mod::lemma_mod_multiples_vanish(k0, i, n);
                assert(n * k0 + i == i + k0 * n);
                lemma_small_mod(i as nat, n as nat);
                assert(m % n == i);
            }
        }
    }
}

/// The round-robin assignment, spelled out by position: the k-th bullet
/// that sink `i` holds is exactly the forwarded bullet at position
/// `i + k * n` of the history — sink `i` receives the bullets at
/// positions `i`, `i + n`, `i + 2n`, … in that order.
pub proof fn lemma_round_robin_positions(hist: Seq<BulletModel>, i: int, n: int, k: int)
    requires
        n > 0,
        0 <= i < n,
        0 <= k < rr_filter(hist, i, n).len(),
    ensures
        i + k * n < hist.len(),
        rr_filter(hist, i, n)[k] == hist[i + k * n],
    decreases hist.len(),
{
    let prev = hist.drop_last();
    let m = hist.len() - 1;
    let f = rr_filter(prev, i, n);
    let g = rr_filter(hist, i, n);
    let k0 = f.len() as int;
    if m % n == i {
        assert(g =~= f.add(seq![hist.last()]));
        if k < k0 {
            lemma_round_robin_positions(prev, i, n, k);
            assert(g[k] == f[k]);
        } else {
            assert(k == k0);
            assert(g[k0] == hist.last());
            assert(hist.last() == hist[m]);
            lemma_round_robin_coverage(prev, i, n);
            assert(i + k0 * n >= m);
            if k0 > 0 {
                lemma_round_robin_positions(prev, i, n, k0 - 1);
                assert(i + (k0 - 1) * n < m);
                assert((k0 - 1) * n == k0 * n - n) by (nonlinear_arith);
                assert(i + k0 * n < m + n);
            } else {
                assert(k0 * n == 0) by (nonlinear_arith)
                    requires
                        k0 == 0,
                ;
                assert(i + k0 * n == i < n <= m + n);
            }
            assert(i + k0 * n == m) by (nonlinear_arith)
                requires
                    n > 0,
                    0 <= i < n,
                    m >= 0,
                    m % n == i,
                    m <= i + k0 * n < m + n,
            ;
        }
    } else {
        assert(g =~= f.add(Seq::<BulletModel>::empty()));
        assert(g =~= f);
        lemma_round_robin_positions(prev, i, n, k);
        assert(g[k] == f[k]);
    }
}

/// Reservoir sampling: keeps a uniform sample of fixed capacity from a
/// stream of unknown length, replacing buffered bullets at random once
/// the buffer is full, and forwards the buffer downstream at the end.
pub struct ReserviorSampling {
    pub selected: Vec<StoredBullet>,
    pub target_set_size: usize,
    pub index: usize,
    pub subprocessor: RoundRobin,
}

impl ReserviorSampling {
    pub open spec fn wf(&self) -> bool {
        &&& self.selected@.len() == if self.index < self.target_set_size {
            self.index as int
        } else {
            self.target_set_size as int
        }
        &&& self.subprocessor.wf()
    }

    /// A fresh reservoir of the given capacity in front of the given
    /// downstream stage.
    pub fn new(set_size: usize, subprocessor: RoundRobin) -> (r: ReserviorSampling)
        requires
            subprocessor.wf(),
        ensures
            r.wf(),
            r.target_set_size == set_size,
            r.index == 0,
            r.selected@.len() == 0,
            r.subprocessor == subprocessor,
    {
        ReserviorSampling { selected: Vec::new(), target_set_size: set_size, index: 0, subprocessor }
    }

    /// Consumes the i-th bullet: stored directly while the buffer is
    /// filling, and afterwards stored at a random slot with probability
    /// capacity/(i+1), displacing the previous occupant, or discarded.
    pub fn process(&mut self, bullet: &BulletData) -> (r: Result<(), ProcError>)
        requires
            old(self).wf(),
            old(self).index < usize::MAX,
        ensures
            final(self).wf(),
            final(self).index == old(self).index + 1,
            final(self).target_set_size == old(self).target_set_size,
            final(self).subprocessor == old(self).subprocessor,
            old(self).index < old(self).target_set_size ==> bullets_of(final(self).selected@)
                == bullets_of(old(self).selected@).push(bullet@),
            old(self).index >= old(self).target_set_size ==> bullets_of(final(self).selected@)
                == bullets_of(old(self).selected@) || exists|j: int|
                0 <= j < old(self).selected@.len() && bullets_of(final(self).selected@)
                    == bullets_of(old(self).selected@).update(j, bullet@),
            r is Ok,
    {
        if self.index < self.target_set_size {
            self.selected.push(StoredBullet::from_data(bullet));
            proof {
                assert(bullets_of(self.selected@) =~= bullets_of(old(self).selected@).push(
                    bullet@,
                ));
            }
        } else {
            let r = rand_below(self.index + 1);
            if r < self.target_set_size {
                self.selected[r] = StoredBullet::from_data(bullet);
                proof {
                    assert(bullets_of(self.selected@) =~= bullets_of(old(self).selected@).update(
                        r as int,
                        bullet@,
                    ));
                }
            }
        }
        self.index = self.index + 1;
        Ok(())
    }

    /// Flushes the reservoir: with fewer bullets seen than the capacity
    /// requires, fails with a logic error reporting seen versus required
    /// and forwards nothing; otherwise forwards every buffered bullet in
    /// buffer order and finishes the downstream stage.
    pub fn finish(&mut self) -> (r: Result<(), ProcError>)
        requires
            old(self).wf(),
        ensures
            final(self).wf(),
            final(self).selected@ == old(self).selected@,
            final(self).index == old(self).index,
            final(self).target_set_size == old(self).target_set_size,
            old(self).selected@.len() < old(self).target_set_size ==> final(self).subprocessor
                == old(self).subprocessor && is_shortfall(
                r,
                old(self).index,
                old(self).target_set_size,
            ),
            old(self).selected@.len() >= old(self).target_set_size ==> r is Ok
                && final(self).subprocessor.wf()
                && final(self).subprocessor.hist@
                    == old(self).subprocessor.hist@.add(bullets_of(old(self).selected@))
                && final(self).subprocessor.subprocessors@.len()
                    == old(self).subprocessor.subprocessors@.len()
                && old(self).selected@.len() == old(self).target_set_size,
    {
        if self.selected.len() < self.target_set_size {
            return Err(ProcError::Logic { seen: self.index, required: self.target_set_size });
        }
        let n = self.selected.len();
        let mut i: usize = 0;
        proof {
            assert(bullets_of(self.selected@).take(0) =~= Seq::<BulletModel>::empty());
            assert(self.subprocessor.hist@.add(Seq::<BulletModel>::empty()) =~=
                self.subprocessor.hist@);
        }
        while i < n
            invariant
                n == self.selected@.len(),
                0 <= i <= n,
                self.selected@ == old(self).selected@,
                self.index == old(self).index,
                self.target_set_size == old(self).target_set_size,
                self.subprocessor.wf(),
                self.subprocessor.subprocessors@.len() == old(self).subprocessor.subprocessors@.len(),
                self.subprocessor.hist@ == old(self).subprocessor.hist@.add(
                    bullets_of(old(self).selected@).take(i as int),
                ),
            decreases n - i,
        {
            let data = self.selected[i].get_data();
            let res = self.subprocessor.process(&data);
            proof {
                let bs = bullets_of(old(self).selected@);
                assert(bs.take(i + 1) =~= bs.take(i as int).push(bs[i as int]));
                assert(old(self).subprocessor.hist@.add(bs.take(i as int)).push(data@) =~= old(self).subprocessor.hist@.add(bs.take(i + 1)));
            }
            match res {
                Ok(()) => {},
                Err(e) => {
                    return Err(e);
                },
            }
            i += 1;
        }
        proof {
            assert(bullets_of(old(self).selected@).take(n as int) =~= bullets_of(
                old(self).selected@,
            ));
        }
        let res = self.subprocessor.finish();
        match res {
            Ok(()) => Ok(()),
            Err(e) => Err(e),
        }
    }
}

/// Proportional online sampling with a known total: for each bullet the
/// stage draws from the remaining count and selects it exactly when the
/// draw falls within the number still needed, which yields exactly the
/// target number of selections over the declared total.
pub struct MethodS {
    pub input_lines_count: usize,
    pub target_set_size: usize,
    pub already_processed: usize,
    pub already_selected: usize,
    pub subprocessor: RoundRobin,
}

impl MethodS {
    pub open spec fn wf(&self) -> bool {
        &&& self.already_processed <= self.input_lines_count
        &&& self.already_selected <= self.target_set_size
        &&& self.target_set_size - self.already_selected <= self.input_lines_count
            - self.already_processed
        &&& self.subprocessor.wf()
    }

    /// A fresh stage for the given total and target in front of the given
    /// downstream stage. The total must cover the target.
    pub fn new(input_lines_count: usize, target_set_size: usize, subprocessor: RoundRobin) -> (r:
        MethodS)
        requires
            input_lines_count >= target_set_size,
            subprocessor.wf(),
        ensures
            r.wf(),
            r.input_lines_count == input_lines_count,
            r.target_set_size == target_set_size,
            r.already_processed == 0,
            r.already_selected == 0,
            r.subprocessor == subprocessor,
    {
        MethodS {
            input_lines_count,
            target_set_size,
            already_processed: 0,
            already_selected: 0,
            subprocessor,
        }
    }

    /// Consumes one bullet: draws from `1..=remaining` and forwards the
    /// bullet exactly when the draw is at most the number still needed.
    /// A forced selection happens whenever need equals remaining, and none
    /// once the target is reached.
    pub fn process(&mut self, bullet: &BulletData) -> (r: Result<(), ProcError>)
        requires
            old(self).wf(),
            old(self).already_processed < old(self).input_lines_count,
        ensures
            final(self).wf(),
            final(self).already_processed == old(self).already_processed + 1,
            final(self).input_lines_count == old(self).input_lines_count,
            final(self).target_set_size == old(self).target_set_size,
            final(self).subprocessor.subprocessors@.len() == old(self).subprocessor.subprocessors@.len(),
            (final(self).already_selected == old(self).already_selected + 1 && final(self).subprocessor.hist@ == old(self).subprocessor.hist@.push(bullet@)) || (final(self).already_selected == old(self).already_selected && final(self).subprocessor == old(self).subprocessor),
            old(self).target_set_size - old(self).already_selected == old(self).input_lines_count
                - old(self).already_processed ==> final(self).already_selected == old(self).already_selected + 1,
            old(self).already_selected == old(self).target_set_size ==> final(self).already_selected == old(self).already_selected,
            r is Ok,
    {
        let need = self.target_set_size - self.already_selected;
        let not_seen = self.input_lines_count - self.already_processed;
        let rnd = 1 + rand_below(not_seen);
        if need >= rnd {
            self.already_selected = self.already_selected + 1;
            let res = self.subprocessor.process(bullet);
            match res {
                Ok(()) => {},
                Err(e) => {
                    return Err(e);
                },
            }
        }
        self.already_processed = self.already_processed + 1;
        Ok(())
    }

    /// Nothing is buffered here; finishing only finishes downstream.
    pub fn finish(&mut self) -> (r: Result<(), ProcError>)
        ensures
            final(self).input_lines_count == old(self).input_lines_count,
            final(self).target_set_size == old(self).target_set_size,
            final(self).already_processed == old(self).already_processed,
            final(self).already_selected == old(self).already_selected,
            final(self).subprocessor.subprocessors@ == old(self).subprocessor.subprocessors@,
            final(self).subprocessor.current == old(self).subprocessor.current,
            final(self).subprocessor.hist@ == old(self).subprocessor.hist@,
            r is Ok,
    {
        let res = self.subprocessor.finish();
        match res {
            Ok(()) => Ok(()),
            Err(e) => Err(e),
        }
    }
}

/// Proportional sampling is exact: once the declared total has been
/// consumed, exactly the target number of bullets has been selected.
pub proof fn lemma_method_s_exact(m: MethodS)
    requires
        m.wf(),
        m.already_processed == m.input_lines_count,
    ensures
        m.already_selected == m.target_set_size,
{
}

impl AmmoProcessor for WriteAmmo {
    open spec fn inv(&self) -> bool {
        self.wf()
    }

    open spec fn ready(&self) -> bool {
        true
    }

    fn process(&mut self, bullet: &BulletData) -> (r: Result<(), ProcError>) {
        self.process(bullet)
    }

    fn finish(&mut self) -> (r: Result<(), ProcError>) {
        self.finish()
    }
}

impl AmmoProcessor for RoundRobin {
    open spec fn inv(&self) -> bool {
        self.wf()
    }

    open spec fn ready(&self) -> bool {
        true
    }

    fn process(&mut self, bullet: &BulletData) -> (r: Result<(), ProcError>) {
        self.process(bullet)
    }

    fn finish(&mut self) -> (r: Result<(), ProcError>) {
        self.finish()
    }
}

impl AmmoProcessor for ReserviorSampling {
    open spec fn inv(&self) -> bool {
        self.wf()
    }

    open spec fn ready(&self) -> bool {
        self.index < usize::MAX
    }

    fn process(&mut self, bullet: &BulletData) -> (r: Result<(), ProcError>) {
        self.process(bullet)
    }

    fn finish(&mut self) -> (r: Result<(), ProcError>) {
        self.finish()
    }
}

impl AmmoProcessor for MethodS {
    open spec fn inv(&self) -> bool {
        self.wf()
    }

    open spec fn ready(&self) -> bool {
        self.already_processed < self.input_lines_count
    }

    fn process(&mut self, bullet: &BulletData) -> (r: Result<(), ProcError>) {
        self.process(bullet)
    }

    fn finish(&mut self) -> (r: Result<(), ProcError>) {
        self.finish()
    }
}

} // verus!
