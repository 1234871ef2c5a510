//! A sweep over one process: every candidate chain read from every base, each
//! once with the base dereferenced first and once without.
use vstd::prelude::*;

use crate::pointer_chain::{resolve_pointer_chain_i32, resolves_to, PointerChainError, PointerChainMemory};
use crate::scan::{probe_read_line, probe_read_text, recorded, string_views, ScanView, SoulMemoryScan};

verus! {

/// One read of a sweep: the base, the chain, and whether the base is
/// dereferenced first.
pub type PlannedRead = (u64, Seq<u64>, bool);

/// The reads made from one base: chain by chain, first with the base
/// dereferenced, then without.
pub open spec fn base_plan(base: u64, chains: Seq<Seq<u64>>) -> Seq<PlannedRead>
    decreases chains.len(),
{
    if chains.len() == 0 {
        seq![]
    } else {
        base_plan(base, chains.drop_last()) + seq![(base, chains.last(), true), (base, chains.last(), false)]
    }
}

/// The reads of a sweep, base by base.
pub open spec fn read_plan(bases: Seq<u64>, chains: Seq<Seq<u64>>) -> Seq<PlannedRead>
    decreases bases.len(),
{
    if bases.len() == 0 {
        seq![]
    } else {
        read_plan(bases.drop_last(), chains) + base_plan(bases.last(), chains)
    }
}

/// The chains as sequences.
pub open spec fn chain_views(chains: Seq<Vec<u64>>) -> Seq<Seq<u64>> {
    chains.map_values(|c: Vec<u64>| c@)
}

/// What resolving `chain` from `base` in `memory` may give: what
/// `resolve_pointer_chain_i32` promises.
pub open spec fn possible_outcome<M: PointerChainMemory + ?Sized>(
    memory: &M,
    read: PlannedRead,
    r: Result<i32, PointerChainError>,
) -> bool {
    let (base, chain, initial_deref) = read;
    &&& (chain.len() == 0 <==> r == Err::<i32, PointerChainError>(PointerChainError::EmptyChain))
    &&& (r matches Ok(v) ==> v >= 0)
    &&& resolves_to(memory, base, chain, initial_deref, r)
}

/// `outcomes` are possible outcomes in `memory` of the reads of `plan`, one each.
pub open spec fn outcomes_fit<M: PointerChainMemory + ?Sized>(
    memory: &M,
    plan: Seq<PlannedRead>,
    outcomes: Seq<Result<i32, PointerChainError>>,
) -> bool {
    &&& outcomes.len() == plan.len()
    &&& forall|k: int| 0 <= k < plan.len() ==> possible_outcome(memory, plan[k], #[trigger] outcomes[k])
}

/// What a scan has met after noting the outcomes of the reads of `plan`, in
/// order.
pub open spec fn after_reads(
    s: ScanView,
    pid: u32,
    plan: Seq<PlannedRead>,
    outcomes: Seq<Result<i32, PointerChainError>>,
) -> ScanView
    decreases plan.len(),
{
    if plan.len() == 0 {
        s
    } else {
        let k = plan.len() - 1;
        recorded(
            after_reads(s, pid, plan.drop_last(), outcomes.take(k)),
            pid,
            plan[k].0,
            plan[k].1,
            plan[k].2,
            outcomes[k],
        )
    }
}

/// The probe lines for the outcomes of the reads of `plan`, one each.
pub open spec fn probe_texts(pid: u32, plan: Seq<PlannedRead>, outcomes: Seq<Result<i32, PointerChainError>>) -> Seq<
    Seq<char>,
> {
    Seq::new(plan.len(), |k: int| probe_read_text(pid, plan[k].0, plan[k].1, plan[k].2, outcomes[k]))
}

proof fn lemma_after_one_more(
    s: ScanView,
    pid: u32,
    plan: Seq<PlannedRead>,
    outcomes: Seq<Result<i32, PointerChainError>>,
    read: PlannedRead,
    outcome: Result<i32, PointerChainError>,
)
    requires
        outcomes.len() == plan.len(),
    ensures
        after_reads(s, pid, plan.push(read), outcomes.push(outcome)) == recorded(
            after_reads(s, pid, plan, outcomes),
            pid,
            read.0,
            read.1,
            read.2,
            outcome,
        ),
{
    assert(plan.push(read).drop_last() =~= plan);
    assert(outcomes.push(outcome).take(plan.len() as int) =~= outcomes);
}

proof fn lemma_base_plan_step(base: u64, chains: Seq<Seq<u64>>, j: int)
    requires
        0 <= j < chains.len(),
    ensures
        base_plan(base, chains.take(j + 1)) == base_plan(base, chains.take(j)) + seq![
            (base, chains[j], true),
            (base, chains[j], false),
        ],
{
    assert(chains.take(j + 1).drop_last() =~= chains.take(j));
}

proof fn lemma_read_plan_step(bases: Seq<u64>, chains: Seq<Seq<u64>>, i: int)
    requires
        0 <= i < bases.len(),
    ensures
        read_plan(bases.take(i + 1), chains) == read_plan(bases.take(i), chains) + base_plan(bases[i], chains),
{
    assert(bases.take(i + 1).drop_last() =~= bases.take(i));
}

proof fn lemma_base_plan_reads(base: u64, chains: Seq<Seq<u64>>)
    ensures
        base_plan(base, chains).len() == 2 * chains.len(),
        forall|k: int| #![trigger base_plan(base, chains)[k]]
            0 <= k < 2 * chains.len() ==> base_plan(base, chains)[k] == (base, chains[k / 2], k % 2 == 0),
    decreases chains.len(),
{
    if chains.len() > 0 {
        let rest = chains.drop_last();
        lemma_base_plan_reads(base, rest);
        assert forall|k: int| #![trigger base_plan(base, chains)[k]]
            0 <= k < 2 * chains.len() implies base_plan(base, chains)[k] == (base, chains[k / 2], k % 2 == 0) by {
            if k < 2 * rest.len() {
                assert(base_plan(base, chains)[k] == base_plan(base, rest)[k]);
            }
        }
    }
}

/// A sweep reads every chain from every base, once with the base
/// dereferenced first and once without, and reads nothing else.
pub proof fn lemma_plan_covers_every_read(bases: Seq<u64>, chains: Seq<Seq<u64>>)
    ensures
        read_plan(bases, chains).len() == bases.len() * (2 * chains.len()),
        forall|i: int, j: int, initial_deref: bool|
            0 <= i < bases.len() && 0 <= j < chains.len() ==> #[trigger] read_plan(bases, chains).contains(
                (bases[i], chains[j], initial_deref),
            ),
        forall|k: int|
            0 <= k < read_plan(bases, chains).len() ==> exists|i: int, j: int|
                0 <= i < bases.len() && 0 <= j < chains.len() && #[trigger] read_plan(bases, chains)[k] == (
                    bases[i],
                    chains[j],
                    read_plan(bases, chains)[k].2,
                ),
    decreases bases.len(),
{
    let plan = read_plan(bases, chains);
    if bases.len() > 0 {
        let rest = bases.drop_last();
        let last = bases.last();
        let before = read_plan(rest, chains);
        let tail = base_plan(last, chains);
        lemma_plan_covers_every_read(rest, chains);
        lemma_base_plan_reads(last, chains);
        assert(plan == before + tail);
        assert(bases.len() * (2 * chains.len()) == rest.len() * (2 * chains.len()) + 2 * chains.len()) by (nonlinear_arith)
            requires
                bases.len() == rest.len() + 1,
        ;
        assert forall|i: int, j: int, initial_deref: bool|
            0 <= i < bases.len() && 0 <= j < chains.len() implies #[trigger] plan.contains(
                (bases[i], chains[j], initial_deref),
            ) by {
            if i < rest.len() {
                assert(rest[i] == bases[i]);
                assert(before.contains((rest[i], chains[j], initial_deref)));
                let k = choose|k: int| 0 <= k < before.len() && before[k] == (rest[i], chains[j], initial_deref);
                assert(plan[k] == before[k]);
            } else {
                let k = 2 * j + if initial_deref { 0int } else { 1int };
                assert(k / 2 == j && (k % 2 == 0) == initial_deref) by (nonlinear_arith)
                    requires
                        k == 2 * j + if initial_deref { 0int } else { 1int },
                ;
                assert(tail[k] == (last, chains[j], initial_deref));
                assert(plan[before.len() + k] == tail[k]);
            }
        }
        assert forall|k: int| 0 <= k < plan.len() implies exists|i: int, j: int|
            0 <= i < bases.len() && 0 <= j < chains.len() && #[trigger] plan[k] == (bases[i], chains[j], plan[k].2) by {
            if k < before.len() {
                assert(plan[k] == before[k]);
                let (i, j) = choose|i: int, j: int|
                    0 <= i < rest.len() && 0 <= j < chains.len() && #[trigger] before[k] == (rest[i], chains[j], before[k].2);
                assert(rest[i] == bases[i]);
            } else {
                let t = k - before.len();
                assert(plan[k] == tail[t]);
                assert(0 <= t / 2 < chains.len()) by (nonlinear_arith)
                    requires
                        0 <= t < 2 * chains.len(),
                ;
                assert(tail[t] == (last, chains[t / 2], t % 2 == 0));
                assert(bases[bases.len() - 1] == last);
            }
        }
    }
}

/// Every hit a sweep notes was read in process `pid` through a read of the
/// plan that gave that value; the hits met before are kept, in order.
pub proof fn lemma_sweep_hits_come_from_plan(
    s: ScanView,
    pid: u32,
    plan: Seq<PlannedRead>,
    outcomes: Seq<Result<i32, PointerChainError>>,
)
    requires
        outcomes.len() == plan.len(),
    ensures
        after_reads(s, pid, plan, outcomes).hits.len() >= s.hits.len(),
        after_reads(s, pid, plan, outcomes).hits.take(s.hits.len() as int) == s.hits,
        forall|n: int|
            s.hits.len() <= n < after_reads(s, pid, plan, outcomes).hits.len() ==> {
                let h = #[trigger] after_reads(s, pid, plan, outcomes).hits[n];
                &&& h.pid == pid
                &&& exists|k: int|
                    0 <= k < plan.len() && plan[k] == (h.base, h.chain, h.initial_deref) && outcomes[k]
                        == Ok::<i32, PointerChainError>(h.value)
            },
    decreases plan.len(),
{
    if plan.len() > 0 {
        let k = plan.len() - 1;
        let prev_plan = plan.drop_last();
        let prev_outcomes = outcomes.take(k);
        lemma_sweep_hits_come_from_plan(s, pid, prev_plan, prev_outcomes);
        let prev = after_reads(s, pid, prev_plan, prev_outcomes);
        let now = after_reads(s, pid, plan, outcomes);
        assert(now == recorded(prev, pid, plan[k].0, plan[k].1, plan[k].2, outcomes[k]));
        assert(now.hits.take(s.hits.len() as int) =~= s.hits) by {
            if outcomes[k] is Ok {
                assert(now.hits.take(s.hits.len() as int) =~= prev.hits.take(s.hits.len() as int));
            }
        }
        assert forall|n: int| s.hits.len() <= n < now.hits.len() implies {
            let h = #[trigger] now.hits[n];
            &&& h.pid == pid
            &&& exists|k2: int|
                0 <= k2 < plan.len() && plan[k2] == (h.base, h.chain, h.initial_deref) && outcomes[k2]
                    == Ok::<i32, PointerChainError>(h.value)
        } by {
            if n < prev.hits.len() {
                assert(now.hits[n] == prev.hits[n]);
                let h = prev.hits[n];
                let k2 = choose|k2: int|
                    0 <= k2 < prev_plan.len() && prev_plan[k2] == (h.base, h.chain, h.initial_deref)
                        && prev_outcomes[k2] == Ok::<i32, PointerChainError>(h.value);
                assert(plan[k2] == prev_plan[k2]);
                assert(outcomes[k2] == prev_outcomes[k2]);
            } else {
                assert(outcomes[k] is Ok);
                assert(now.hits[n] == now.hits.last());
            }
        }
    }
}

/// One read of the sweep, with its outcome.
fn read_one<M: PointerChainMemory + ?Sized>(memory: &M, base: u64, chain: &Vec<u64>, initial_deref: bool) -> (r: Result<
    i32,
    PointerChainError,
>)
    ensures
        possible_outcome(memory, (base, chain@, initial_deref), r),
{
    resolve_pointer_chain_i32(memory, base, chain.as_slice(), initial_deref)
}

impl SoulMemoryScan {
    /// Reads every chain from every base of process `pid` and notes each
    /// outcome, in the order of `read_plan`.
    pub fn read_bases<M: PointerChainMemory + ?Sized>(
        &mut self,
        memory: &M,
        pid: u32,
        bases: &Vec<u64>,
        chains: &Vec<Vec<u64>>,
    )
        ensures
            exists|outcomes: Seq<Result<i32, PointerChainError>>|
                outcomes_fit(memory, read_plan(bases@, chain_views(chains@)), outcomes) && final(self)@ == after_reads(
                    old(self)@,
                    pid,
                    read_plan(bases@, chain_views(chains@)),
                    outcomes,
                ),
    {
        let ghost start = self@;
        let ghost cs = chain_views(chains@);
        let ghost mut plan: Seq<PlannedRead> = seq![];
        let ghost mut outcomes: Seq<Result<i32, PointerChainError>> = seq![];
        let mut i: usize = 0;
        assert(bases@.take(0) =~= Seq::<u64>::empty());
        while i < bases.len()
            invariant
                i <= bases@.len(),
                cs == chain_views(chains@),
                plan == read_plan(bases@.take(i as int), cs),
                outcomes_fit(memory, plan, outcomes),
                self@ == after_reads(start, pid, plan, outcomes),
            decreases bases@.len() - i,
        {
            let base = bases[i];
            let mut j: usize = 0;
            let ghost outer = plan;
            assert(cs.take(0) =~= Seq::<Seq<u64>>::empty());
            assert(outer + base_plan(base, cs.take(0)) =~= outer);
            while j < chains.len()
                invariant
                    i < bases@.len(),
                    base == bases@[i as int],
                    j <= chains@.len(),
                    cs == chain_views(chains@),
                    cs.len() == chains@.len(),
                    outer == read_plan(bases@.take(i as int), cs),
                    plan == outer + base_plan(base, cs.take(j as int)),
                    outcomes_fit(memory, plan, outcomes),
                    self@ == after_reads(start, pid, plan, outcomes),
                decreases chains@.len() - j,
            {
                let chain = &chains[j];
                assert(cs[j as int] == chain@);
                let first = read_one(memory, base, chain, true);
                proof {
                    lemma_after_one_more(start, pid, plan, outcomes, (base, chain@, true), first);
                }
                self.record_read(pid, base, chain, true, first);
                proof {
                    plan = plan.push((base, chain@, true));
                    outcomes = outcomes.push(first);
                }
                let second = read_one(memory, base, chain, false);
                proof {
                    lemma_after_one_more(start, pid, plan, outcomes, (base, chain@, false), second);
                }
                self.record_read(pid, base, chain, false, second);
                proof {
                    plan = plan.push((base, chain@, false));
                    outcomes = outcomes.push(second);
                    lemma_base_plan_step(base, cs, j as int);
                    assert(plan =~= outer + base_plan(base, cs.take(j + 1)));
                    assert forall|k: int| 0 <= k < plan.len() implies possible_outcome(
                        memory,
                        plan[k],
                        #[trigger] outcomes[k],
                    ) by {
                        if k < plan.len() - 2 {
                            assert(plan[k] == plan.drop_last().drop_last()[k]);
                        }
                    }
                }
                j = j + 1;
            }
            proof {
                assert(cs.take(cs.len() as int) =~= cs);
                lemma_read_plan_step(bases@, cs, i as int);
            }
            i = i + 1;
        }
        assert(bases@.take(bases@.len() as int) =~= bases@);
    }
}

/// Reads every chain from every base of process `pid`, in the order of
/// `read_plan`, and writes a probe line for each read.
pub fn probe_bases<M: PointerChainMemory + ?Sized>(memory: &M, pid: u32, bases: &Vec<u64>, chains: &Vec<Vec<u64>>) -> (lines: Vec<String>)
    ensures
        exists|outcomes: Seq<Result<i32, PointerChainError>>|
            outcomes_fit(memory, read_plan(bases@, chain_views(chains@)), outcomes) && string_views(lines@) == probe_texts(
                pid,
                read_plan(bases@, chain_views(chains@)),
                outcomes,
            ),
{
    let mut lines: Vec<String> = Vec::new();
    let ghost cs = chain_views(chains@);
    let ghost mut plan: Seq<PlannedRead> = seq![];
    let ghost mut outcomes: Seq<Result<i32, PointerChainError>> = seq![];
    let mut i: usize = 0;
    assert(bases@.take(0) =~= Seq::<u64>::empty());
    assert(string_views(lines@) =~= probe_texts(pid, plan, outcomes));
    while i < bases.len()
        invariant
            i <= bases@.len(),
            cs == chain_views(chains@),
            plan == read_plan(bases@.take(i as int), cs),
            outcomes_fit(memory, plan, outcomes),
            string_views(lines@) == probe_texts(pid, plan, outcomes),
        decreases bases@.len() - i,
    {
        let base = bases[i];
        let mut j: usize = 0;
        let ghost outer = plan;
        assert(cs.take(0) =~= Seq::<Seq<u64>>::empty());
        assert(outer + base_plan(base, cs.take(0)) =~= outer);
        while j < chains.len()
            invariant
                i < bases@.len(),
                base == bases@[i as int],
                j <= chains@.len(),
                cs == chain_views(chains@),
                cs.len() == chains@.len(),
                outer == read_plan(bases@.take(i as int), cs),
                plan == outer + base_plan(base, cs.take(j as int)),
                outcomes_fit(memory, plan, outcomes),
                string_views(lines@) == probe_texts(pid, plan, outcomes),
            decreases chains@.len() - j,
        {
            let chain = &chains[j];
            assert(cs[j as int] == chain@);
            let first = read_one(memory, base, chain, true);
            let line = probe_read_line(pid, base, chain.as_slice(), true, &first);
            let ghost before = lines@;
            let ghost shown = line@;
            lines.push(line);
            proof {
                let ghost old_texts = probe_texts(pid, plan, outcomes);
                plan = plan.push((base, chain@, true));
                outcomes = outcomes.push(first);
                assert(lines@ == before.push(lines@.last()));
                assert(string_views(lines@) =~= string_views(before).push(shown));
                assert(probe_texts(pid, plan, outcomes) =~= old_texts.push(shown));
                assert(string_views(lines@) =~= probe_texts(pid, plan, outcomes));
            }
            let second = read_one(memory, base, chain, false);
            let line = probe_read_line(pid, base, chain.as_slice(), false, &second);
            let ghost before = lines@;
            let ghost shown = line@;
            lines.push(line);
            proof {
                let ghost old_texts = probe_texts(pid, plan, outcomes);
                plan = plan.push((base, chain@, false));
                outcomes = outcomes.push(second);
                assert(lines@ == before.push(lines@.last()));
                assert(string_views(lines@) =~= string_views(before).push(shown));
                assert(probe_texts(pid, plan, outcomes) =~= old_texts.push(shown));
                assert(string_views(lines@) =~= probe_texts(pid, plan, outcomes));
                lemma_base_plan_step(base, cs, j as int);
                assert(plan =~= outer + base_plan(base, cs.take(j + 1)));
                assert forall|k: int| 0 <= k < plan.len() implies possible_outcome(
                    memory,
                    plan[k],
                    #[trigger] outcomes[k],
                ) by {
                    if k < plan.len() - 2 {
                        assert(plan[k] == plan.drop_last().drop_last()[k]);
                    }
                }
            }
            j = j + 1;
        }
        proof {
            assert(cs.take(cs.len() as int) =~= cs);
            lemma_read_plan_step(bases@, cs, i as int);
        }
        i = i + 1;
    }
    assert(bases@.take(bases@.len() as int) =~= bases@);
    lines
}

} // verus!
