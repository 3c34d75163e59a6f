//! Wiring the stages into one pipeline: choosing the processor chain for
//! the configured sampling algorithm, feeding parsed log lines through it,
//! and running the whole pass from raw sources to rendered ammo buffers.
use vstd::prelude::*;

use crate::ammo::{bullet_of, make_bullet_data_from_log_record, BulletData, BulletModel};
use crate::error::ProcError;
use crate::lines::{chained_lines, filter_lines, filter_spec, Chained};
use crate::parse::{log_url, log_wizards, parse_log_line};
use crate::proc::{
    bullets_of, is_shortfall, lemma_subsequence_extend, lemma_subsequence_push, renders_of,
    rr_filter, shortfall_error, subsequence_of, MethodS, ReserviorSampling, RoundRobin, WriteAmmo,
};

verus! {

/// The configured mixing algorithm.
pub enum Algo {
    ReserviorSampling,
    MethodS,
    DoNotRandomize,
}

/// The processor chain that a run drives: an optional sampling stage in
/// front of the round-robin fan-out.
pub enum Processor {
    Sampling(ReserviorSampling),
    Streaming(MethodS),
    Direct(RoundRobin),
}

impl Processor {
    pub open spec fn inv(&self) -> bool {
        match self {
            Processor::Sampling(r) => r.wf(),
            Processor::Streaming(m) => m.wf(),
            Processor::Direct(rr) => rr.wf(),
        }
    }

    /// One more bullet may be consumed without leaving the stage's
    /// supported range.
    pub open spec fn ready(&self) -> bool {
        match self {
            Processor::Sampling(r) => r.index < usize::MAX,
            Processor::Streaming(m) => m.already_processed < m.input_lines_count,
            Processor::Direct(rr) => true,
        }
    }

    /// How many bullets the chain has consumed.
    pub open spec fn seen(&self) -> int {
        match self {
            Processor::Sampling(r) => r.index as int,
            Processor::Streaming(m) => m.already_processed as int,
            Processor::Direct(rr) => rr.hist@.len() as int,
        }
    }

    /// The fan-out at the end of the chain.
    pub open spec fn fan_out(&self) -> RoundRobin {
        match self {
            Processor::Sampling(r) => r.subprocessor,
            Processor::Streaming(m) => m.subprocessor,
            Processor::Direct(rr) => *rr,
        }
    }

    /// Consumes one bullet, as the configured stage dictates.
    pub fn process(&mut self, bullet: &BulletData) -> (r: Result<(), ProcError>)
        requires
            old(self).inv(),
            old(self).ready(),
        ensures
            final(self).inv(),
            final(self).seen() == old(self).seen() + 1,
            final(self).fan_out().subprocessors@.len() == old(self).fan_out().subprocessors@.len(),
            r is Ok,
            (*old(self)) matches Processor::Direct(rr0) ==> ((*final(self)) matches Processor::Direct(
                rr1,
            ) && rr1.hist@ == rr0.hist@.push(bullet@)),
            (*old(self)) matches Processor::Sampling(r0) ==> ((*final(self)) matches Processor::Sampling(
                r1,
            ) && r1.subprocessor == r0.subprocessor && r1.target_set_size == r0.target_set_size
                && (r0.index < r0.target_set_size ==> bullets_of(r1.selected@) == bullets_of(
                r0.selected@,
            ).push(bullet@)) && (r0.index >= r0.target_set_size ==> bullets_of(r1.selected@)
                == bullets_of(r0.selected@) || exists|j: int|
                0 <= j < r0.selected@.len() && bullets_of(r1.selected@) == bullets_of(
                    r0.selected@,
                ).update(j, bullet@))),
            (*old(self)) matches Processor::Streaming(m0) ==> ((*final(self)) matches Processor::Streaming(m1) && m1.input_lines_count == m0.input_lines_count
                && m1.target_set_size == m0.target_set_size && m1.subprocessor.hist@.len() as int
                - m0.subprocessor.hist@.len() as int == m1.already_selected as int
                - m0.already_selected as int && m1.already_selected >= m0.already_selected && (
            m1.subprocessor.hist@ == m0.subprocessor.hist@ || m1.subprocessor.hist@
                == m0.subprocessor.hist@.push(bullet@))),
    {
        match self {
            Processor::Sampling(r) => r.process(bullet),
            Processor::Streaming(m) => m.process(bullet),
            Processor::Direct(rr) => rr.process(bullet),
        }
    }

    /// Flushes buffered state and finishes the chain.
    pub fn finish(&mut self) -> (r: Result<(), ProcError>)
        requires
            old(self).inv(),
        ensures
            final(self).inv(),
            final(self).fan_out().subprocessors@.len() == old(self).fan_out().subprocessors@.len(),
            (*old(self)) matches Processor::Direct(rr0) ==> r is Ok && final(self).fan_out().hist@
                == rr0.hist@,
            (*old(self)) matches Processor::Streaming(m0) ==> r is Ok && final(self).fan_out().hist@
                == m0.subprocessor.hist@,
            (*old(self)) matches Processor::Sampling(r0) ==> (r0.selected@.len()
                < r0.target_set_size ==> is_shortfall(r, r0.index, r0.target_set_size) && final(self).fan_out().hist@ == r0.subprocessor.hist@) && (r0.selected@.len()
                >= r0.target_set_size ==> r is Ok && final(self).fan_out().hist@
                == r0.subprocessor.hist@.add(bullets_of(r0.selected@)) && r0.selected@.len()
                == r0.target_set_size),
    {
        match self {
            Processor::Sampling(r) => r.finish(),
            Processor::Streaming(m) => m.finish(),
            Processor::Direct(rr) => rr.finish(),
        }
    }
}

/// Builds the processor chain for the configured algorithm: the sampling
/// stage the algorithm calls for, or the fan-out alone, with the target
/// sample size where one is required and the prior line count for the
/// streaming algorithm.
pub fn make_processor(algo: Algo, target_set_size: Option<usize>, lines_count: usize, writer:
    RoundRobin) -> (r: Processor)
    requires
        writer.wf(),
        writer.hist@.len() == 0,
        algo matches Algo::ReserviorSampling ==> target_set_size is Some,
        algo matches Algo::MethodS ==> target_set_size matches Some(t) && lines_count >= t,
    ensures
        r.inv(),
        r.seen() == 0,
        r.fan_out() == writer,
        algo matches Algo::DoNotRandomize <==> (r matches Processor::Direct(rr) && rr == writer),
        algo matches Algo::ReserviorSampling <==> (r matches Processor::Sampling(res)
            && res.target_set_size == target_set_size.unwrap() && res.selected@.len() == 0),
        algo matches Algo::MethodS <==> (r matches Processor::Streaming(m) && m.target_set_size
            == target_set_size.unwrap() && m.input_lines_count == lines_count
            && m.already_selected == 0),
{
    match algo {
        Algo::MethodS => {
            let t = match target_set_size {
                Some(t) => t,
                None => 0,
            };
            Processor::Streaming(MethodS::new(lines_count, t, writer))
        },
        Algo::ReserviorSampling => {
            let t = match target_set_size {
                Some(t) => t,
                None => 0,
            };
            Processor::Sampling(ReserviorSampling::new(t, writer))
        },
        Algo::DoNotRandomize => Processor::Direct(writer),
    }
}

/// Parses one log line, derives its bullet, and feeds it to the chain.
pub fn process_log_line(ammo_processor: &mut Processor, line_from_log: &[u8]) -> (r: Result<
    (),
    ProcError,
>)
    requires
        old(ammo_processor).inv(),
        old(ammo_processor).ready(),
    ensures
        final(ammo_processor).inv(),
        final(ammo_processor).seen() == old(ammo_processor).seen() + 1,
        r is Ok,
        final(ammo_processor).fan_out().subprocessors@.len() == old(
            ammo_processor,
        ).fan_out().subprocessors@.len(),
        (*old(ammo_processor)) matches Processor::Direct(rr0) ==> ((*final(ammo_processor)) matches Processor::Direct(rr1) && rr1.hist@ == rr0.hist@.push(
            bullet_of(log_url(line_from_log@), log_wizards(line_from_log@)),
        )),
        (*old(ammo_processor)) matches Processor::Sampling(r0) ==> ((*final(ammo_processor)) matches Processor::Sampling(r1) && r1.subprocessor == r0.subprocessor
            && r1.target_set_size == r0.target_set_size && (r0.index < r0.target_set_size
            ==> bullets_of(r1.selected@) == bullets_of(r0.selected@).push(
            bullet_of(log_url(line_from_log@), log_wizards(line_from_log@)),
        )) && (r0.index >= r0.target_set_size ==> bullets_of(r1.selected@) == bullets_of(
            r0.selected@,
        ) || exists|j: int|
            0 <= j < r0.selected@.len() && bullets_of(r1.selected@) == bullets_of(
                r0.selected@,
            ).update(j, bullet_of(log_url(line_from_log@), log_wizards(line_from_log@))))),
        (*old(ammo_processor)) matches Processor::Streaming(m0) ==> ((*final(ammo_processor)) matches Processor::Streaming(m1) && m1.input_lines_count == m0.input_lines_count
            && m1.target_set_size == m0.target_set_size && m1.subprocessor.hist@.len() as int
            - m0.subprocessor.hist@.len() as int == m1.already_selected as int
            - m0.already_selected as int && m1.already_selected >= m0.already_selected && (
        m1.subprocessor.hist@ == m0.subprocessor.hist@ || m1.subprocessor.hist@
            == m0.subprocessor.hist@.push(
            bullet_of(log_url(line_from_log@), log_wizards(line_from_log@)),
        ))),
{
    let rec = parse_log_line(line_from_log);
    let bullet_data = make_bullet_data_from_log_record(rec);
    ammo_processor.process(&bullet_data)
}

/// The bullets that a sequence of log lines stands for, in order.
pub open spec fn bullets_of_lines(ls: Seq<Seq<u8>>) -> Seq<BulletModel> {
    Seq::new(ls.len(), |i: int| bullet_of(log_url(ls[i]), log_wizards(ls[i])))
}

/// The rendered contents that a fan-out history spells into `count` sinks.
pub open spec fn fanned_out(h: Seq<BulletModel>, count: int) -> Seq<Seq<u8>> {
    Seq::new(count as nat, |i: int| renders_of(rr_filter(h, i, count)))
}

/// Runs the whole pipeline over the chained sources: reads and filters
/// the lines, parses each into a bullet, drives the configured sampling
/// stage, and returns one rendered ammo buffer per output sink. The
/// streaming algorithm takes its prior full counting pass here. The run
/// fails exactly when reservoir sampling saw fewer lines than its target.
pub fn run_pipeline(sources: &Chained, algo: Algo, target_set_size: Option<usize>, out_count:
    usize) -> (r: Result<Vec<Vec<u8>>, ProcError>)
    requires
        out_count > 0,
        algo matches Algo::ReserviorSampling ==> target_set_size is Some,
        algo matches Algo::MethodS ==> target_set_size matches Some(t) && filter_spec(
            chained_lines(sources.sources@),
        ).len() >= t,
    ensures
        ({
            let ls = filter_spec(chained_lines(sources.sources@));
            let bs = bullets_of_lines(ls);
            match r {
                Ok(outs) => outs@.len() == out_count && (algo matches Algo::DoNotRandomize
                    ==> crate::bytes::views_of(outs@) == fanned_out(bs, out_count as int)) && (
                algo matches Algo::MethodS ==> exists|h: Seq<BulletModel>|
                    h.len() == target_set_size.unwrap() && subsequence_of(h, bs)
                        && crate::bytes::views_of(outs@) == fanned_out(h, out_count as int))
                    && (algo
                    matches Algo::ReserviorSampling ==> ls.len() >= target_set_size.unwrap()
                    && exists|h: Seq<BulletModel>|
                    h.len() == target_set_size.unwrap() && (forall|j: int|
                        0 <= j < h.len() ==> bs.contains(#[trigger] h[j]))
                        && crate::bytes::views_of(outs@) == fanned_out(h, out_count as int)),
                Err(e) => algo matches Algo::ReserviorSampling && ls.len()
                    < target_set_size.unwrap() && shortfall_error(
                    e,
                    ls.len() as usize,
                    target_set_size.unwrap(),
                ),
            }
        }),
{
    let lines = sources.lines();
    let filtered = filter_lines(&lines);
    let ghost ls = filter_spec(chained_lines(sources.sources@));
    let ghost bs = bullets_of_lines(ls);
    let n = filtered.len();

    let mut sinks: Vec<WriteAmmo> = Vec::new();
    let mut s: usize = 0;
    while s < out_count
        invariant
            0 <= s <= out_count,
            sinks@.len() == s,
            forall|i: int|
                0 <= i < s ==> (#[trigger] sinks@[i]).wf() && sinks@[i].taken@
                    == Seq::<BulletModel>::empty(),
        decreases out_count - s,
    {
        sinks.push(WriteAmmo::new());
        s += 1;
    }
    let writer = RoundRobin::new(sinks);
    let mut processor = make_processor(algo, target_set_size, n, writer);

    let mut i: usize = 0;
    proof {
        assert(bs.take(0) =~= Seq::<BulletModel>::empty());
    }
    while i < n
        invariant
            0 <= i <= n,
            n == filtered@.len(),
            crate::bytes::views_of(filtered@) == ls,
            bs == bullets_of_lines(ls),
            processor.inv(),
            processor.seen() == i,
            processor.fan_out().subprocessors@.len() == out_count,
            out_count > 0,
            algo matches Algo::DoNotRandomize ==> (processor matches Processor::Direct(rr)
                && rr.hist@ == bs.take(i as int)),
            algo matches Algo::ReserviorSampling ==> (processor matches Processor::Sampling(res)
                && res.target_set_size == target_set_size.unwrap()
                && res.subprocessor.hist@ == Seq::<BulletModel>::empty() && forall|
                k: int,
            |
                0 <= k < res.selected@.len() ==> bs.take(i as int).contains(
                    #[trigger] bullets_of(res.selected@)[k],
                )),
            algo matches Algo::MethodS ==> (processor matches Processor::Streaming(m)
                && m.input_lines_count == n && m.target_set_size == target_set_size.unwrap()
                && m.already_processed == i && m.subprocessor.hist@.len()
                == m.already_selected && subsequence_of(m.subprocessor.hist@, bs.take(i as int))),
        decreases n - i,
    {
        let line = &filtered[i];
        proof {
            assert(crate::bytes::views_of(filtered@)[i as int] == line@);
            assert(bs.take(i + 1) =~= bs.take(i as int).push(bs[i as int]));
            assert(bs[i as int] == bullet_of(log_url(line@), log_wizards(line@)));
        }
        let ghost before = processor;
        let res = process_log_line(&mut processor, line.as_slice());
        proof {
            if let Processor::Sampling(r0) = &before {
                if let Processor::Sampling(r1) = &processor {
                    let pre = bullets_of(r0.selected@);
                    let post = bullets_of(r1.selected@);
                    assert forall|k: int|
                        0 <= k < r1.selected@.len() implies bs.take(i + 1).contains(
                        #[trigger] post[k],
                    ) by {
                        assert(bs.take(i + 1)[i as int] == bs[i as int]);
                        if post[k] != bs[i as int] {
                            assert(0 <= k < pre.len() && post[k] == pre[k]);
                            let w = choose|w: int|
                                0 <= w < bs.take(i as int).len() && bs.take(i as int)[w] == pre[k];
                            assert(bs.take(i + 1)[w] == pre[k]);
                        }
                    }
                }
            }
            if let Processor::Streaming(m0) = &before {
                if let Processor::Streaming(m1) = &processor {
                    if m1.subprocessor.hist@ == m0.subprocessor.hist@ {
                        lemma_subsequence_extend(
                            m1.subprocessor.hist@,
                            bs.take(i as int),
                            bs[i as int],
                        );
                    } else {
                        lemma_subsequence_push(
                            m0.subprocessor.hist@,
                            bs.take(i as int),
                            bs[i as int],
                        );
                    }
                    assert(bs.take(i as int).push(bs[i as int]) =~= bs.take(i + 1));
                }
            }
        }
        match res {
            Ok(()) => {},
            Err(e) => {
                return Err(e);
            },
        }
        i += 1;
    }
    proof {
        assert(bs.take(n as int) =~= bs);
    }

    let ghost at_end = processor;
    let fin = processor.finish();
    let ghost finished = processor;
    proof {
        if let Processor::Sampling(r0) = &at_end {
            assert(bs.take(n as int) =~= bs);
            if r0.selected@.len() >= r0.target_set_size {
                assert(finished.fan_out().hist@ =~= bullets_of(r0.selected@));
            }
        }
    }
    match fin {
        Ok(()) => {},
        Err(e) => {
            proof {
                assert(bs.len() == ls.len());
            }
            return Err(e);
        },
    }

    let sinks_done = match processor {
        Processor::Sampling(r) => r.subprocessor.subprocessors,
        Processor::Streaming(m) => m.subprocessor.subprocessors,
        Processor::Direct(rr) => rr.subprocessors,
    };
    let ghost hist = finished.fan_out().hist@;
    let m = sinks_done.len();
    let mut outs: Vec<Vec<u8>> = Vec::new();
    let mut j: usize = 0;
    while j < m
        invariant
            0 <= j <= m,
            m == sinks_done@.len(),
            m == out_count,
            outs@.len() == j,
            forall|k: int|
                0 <= k < m ==> (#[trigger] sinks_done@[k]).wf() && sinks_done@[k].taken@
                    == rr_filter(hist, k, m as int),
            forall|k: int| 0 <= k < j ==> #[trigger] outs@[k]@ == renders_of(
                rr_filter(hist, k, m as int),
            ),
        decreases m - j,
    {
        let sink = &sinks_done[j];
        let out = crate::parse::copy_bytes(&sink.out);
        outs.push(out);
        j += 1;
    }
    proof {
        assert(crate::bytes::views_of(outs@) =~= fanned_out(hist, out_count as int));
    }
    Ok(outs)
}

} // verus!
