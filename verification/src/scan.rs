use vstd::prelude::*;
use vstd::string::*;

use crate::aob::vec_contains_u64;
use crate::pointer_chain::PointerChainError;
use crate::text;
use crate::proto::{MemoryConfig, OverlayConfig};
use crate::text::string_of;

verus! {

// ---------------------------------------------------------------------------
// Which pointer chains to try
// ---------------------------------------------------------------------------

/// The configured chains that are not empty, in order.
pub open spec fn nonempty_chains(chains: Seq<Vec<u64>>) -> Seq<Seq<u64>>
    decreases chains.len(),
{
    if chains.len() == 0 {
        seq![]
    } else {
        let prev = nonempty_chains(chains.drop_last());
        if chains.last()@.len() > 0 {
            prev.push(chains.last()@)
        } else {
            prev
        }
    }
}

/// The two soul memory chains known to work for the game.
pub open spec fn default_chains() -> Seq<Seq<u64>> {
    seq![seq![0xD0u64, 0x490u64, 0xF4u64], seq![0xD0u64, 0x490u64, 0xFCu64]]
}

/// The chains to try: the non-empty configured chains if there are any, else
/// the configured pointer offsets unless they are empty or the placeholder
/// `[0]`, else the default chains.
pub open spec fn chains_to_try(memory: MemoryConfig) -> Seq<Seq<u64>> {
    let configured = match memory.soul_memory_chains {
        Some(chains) => nonempty_chains(chains@),
        None => seq![],
    };
    if configured.len() > 0 {
        configured
    } else if memory.pointer_offsets@.len() > 0 && memory.pointer_offsets@ != seq![0u64] {
        seq![memory.pointer_offsets@]
    } else {
        default_chains()
    }
}

/// A copy of `v`.
pub(crate) fn copy_u64s(v: &Vec<u64>) -> (r: Vec<u64>)
    ensures
        r@ == v@,
{
    let mut out: Vec<u64> = Vec::new();
    let mut i: usize = 0;
    while i < v.len()
        invariant
            i <= v@.len(),
            out@ == v@.take(i as int),
        decreases v@.len() - i,
    {
        out.push(v[i]);
        i = i + 1;
        assert(out@ =~= v@.take(i as int));
    }
    assert(v@.take(v@.len() as int) =~= v@);
    out
}

/// The pointer chains the helper tries, in order.
pub fn candidate_chains(cfg: &OverlayConfig) -> (r: Vec<Vec<u64>>)
    ensures
        r@.len() == chains_to_try(cfg.memory).len(),
        forall|i: int| 0 <= i < r@.len() ==> (#[trigger] r@[i])@ == chains_to_try(cfg.memory)[i],
{
    let mut filtered: Vec<Vec<u64>> = Vec::new();
    match &cfg.memory.soul_memory_chains {
        Some(chains) => {
            let mut i: usize = 0;
            while i < chains.len()
                invariant
                    i <= chains@.len(),
                    filtered@.len() == nonempty_chains(chains@.take(i as int)).len(),
                    forall|k: int|
                        0 <= k < filtered@.len() ==> (#[trigger] filtered@[k])@ == nonempty_chains(
                            chains@.take(i as int),
                        )[k],
                decreases chains@.len() - i,
            {
                assert(chains@.take(i + 1).drop_last() =~= chains@.take(i as int));
                if chains[i].len() > 0 {
                    filtered.push(copy_u64s(&chains[i]));
                }
                i = i + 1;
            }
            assert(chains@.take(chains@.len() as int) =~= chains@);
            if filtered.len() > 0 {
                return filtered;
            }
        },
        None => {},
    }
    let offsets = &cfg.memory.pointer_offsets;
    if !(offsets.len() == 1 && offsets[0] == 0) && offsets.len() > 0 {
        assert(offsets@ != seq![0u64]) by {
            if offsets@ == seq![0u64] {
                assert(offsets@[0] == 0);
            }
        }
        let mut one: Vec<Vec<u64>> = Vec::new();
        one.push(copy_u64s(offsets));
        return one;
    }
    assert(offsets@.len() == 0 || offsets@ =~= seq![0u64]);
    let mut defaults: Vec<Vec<u64>> = Vec::new();
    defaults.push(vec![0xD0u64, 0x490u64, 0xF4u64]);
    defaults.push(vec![0xD0u64, 0x490u64, 0xFCu64]);
    assert(defaults@[0]@ =~= seq![0xD0u64, 0x490u64, 0xF4u64]);
    assert(defaults@[1]@ =~= seq![0xD0u64, 0x490u64, 0xFCu64]);
    defaults
}

// ---------------------------------------------------------------------------
// Choosing among successful reads
// ---------------------------------------------------------------------------

/// A value read through one chain from one base of one process.
#[derive(Debug)]
pub struct CandidateHit {
    pub pid: u32,
    pub base: u64,
    pub chain: Vec<u64>,
    pub initial_deref: bool,
    pub value: i32,
}

/// A candidate hit with its chain as a sequence.
pub struct HitView {
    pub pid: u32,
    pub base: u64,
    pub chain: Seq<u64>,
    pub initial_deref: bool,
    pub value: i32,
}

impl View for CandidateHit {
    type V = HitView;

    open spec fn view(&self) -> HitView {
        HitView {
            pid: self.pid,
            base: self.base,
            chain: self.chain@,
            initial_deref: self.initial_deref,
            value: self.value,
        }
    }
}

/// The views of a sequence of hits.
pub open spec fn hit_views(hits: Seq<CandidateHit>) -> Seq<HitView> {
    hits.map_values(|h: CandidateHit| h@)
}

/// Whether `chain` is one of the chains known to work for the game.
pub open spec fn is_known_chain(chain: Seq<u64>) -> bool {
    chain == seq![0xD0u64, 0x490u64, 0xF4u64] || chain == seq![0xD0u64, 0x490u64, 0xFCu64]
}

/// How plausible a hit is: fresh reads, known chains and values in the range
/// a soul memory can take score higher.
pub open spec fn candidate_score(c: HitView) -> int {
    (if c.initial_deref { 3int } else { 0int }) + (if is_known_chain(c.chain) { 4int } else { 0int })
        + (if 1 <= c.value <= 1_000_000_000 { 6int } else { 0int }) + (if c.value >= 1 { 1int } else { 0int })
}

/// Whether `a` ranks strictly before `b`: higher score first, then smaller
/// value, then smaller pid, then smaller base.
pub open spec fn ranks_before(a: HitView, b: HitView) -> bool {
    ||| candidate_score(a) > candidate_score(b)
    ||| candidate_score(a) == candidate_score(b) && a.value < b.value
    ||| candidate_score(a) == candidate_score(b) && a.value == b.value && a.pid < b.pid
    ||| candidate_score(a) == candidate_score(b) && a.value == b.value && a.pid == b.pid && a.base
        < b.base
}

/// Whether `k` is where a stable sort by rank puts its first element: no
/// candidate ranks before it, and every earlier one ranks after it.
pub open spec fn is_best_index(candidates: Seq<HitView>, k: int) -> bool {
    &&& 0 <= k < candidates.len()
    &&& forall|j: int| 0 <= j < k ==> ranks_before(candidates[k], #[trigger] candidates[j])
    &&& forall|j: int| k < j < candidates.len() ==> !ranks_before(#[trigger] candidates[j], candidates[k])
}

fn same_chain(chain: &Vec<u64>, a: u64, b: u64, c: u64) -> (r: bool)
    ensures
        r == (chain@ == seq![a, b, c]),
{
    let r = chain.len() == 3 && chain[0] == a && chain[1] == b && chain[2] == c;
    if r {
        assert(chain@ =~= seq![a, b, c]);
    }
    r
}

fn score(c: &CandidateHit) -> (r: u8)
    ensures
        r == candidate_score(c@),
{
    let mut s: u8 = 0;
    if c.initial_deref {
        s = s + 3;
    }
    if same_chain(&c.chain, 0xD0, 0x490, 0xF4) || same_chain(&c.chain, 0xD0, 0x490, 0xFC) {
        s = s + 4;
    }
    if 1 <= c.value && c.value <= 1_000_000_000 {
        s = s + 6;
    }
    if c.value >= 1 {
        s = s + 1;
    }
    s
}

fn ranks_first(a: &CandidateHit, b: &CandidateHit) -> (r: bool)
    ensures
        r == ranks_before(a@, b@),
{
    let sa = score(a);
    let sb = score(b);
    if sa != sb {
        sa > sb
    } else if a.value != b.value {
        a.value < b.value
    } else if a.pid != b.pid {
        a.pid < b.pid
    } else {
        a.base < b.base
    }
}

/// The position of the most plausible candidate, as the first element after a
/// stable sort by rank; `None` when there are no candidates.
pub fn choose_best(candidates: &[CandidateHit]) -> (r: Option<usize>)
    ensures
        candidates@.len() == 0 ==> r is None,
        candidates@.len() > 0 ==> (r matches Some(k) && is_best_index(hit_views(candidates@), k as int)),
{
    if candidates.len() == 0 {
        return None;
    }
    let ghost views = hit_views(candidates@);
    let mut best: usize = 0;
    let mut i: usize = 1;
    while i < candidates.len()
        invariant
            1 <= i <= candidates@.len(),
            views == hit_views(candidates@),
            views.len() == candidates@.len(),
            best < i,
            forall|j: int| 0 <= j < best ==> ranks_before(views[best as int], #[trigger] views[j]),
            forall|j: int| best < j < i ==> !ranks_before(#[trigger] views[j], views[best as int]),
        decreases candidates@.len() - i,
    {
        assert(views[i as int] == candidates@[i as int]@);
        assert(views[best as int] == candidates@[best as int]@);
        if ranks_first(&candidates[i], &candidates[best]) {
            assert forall|j: int| 0 <= j < i implies ranks_before(views[i as int], #[trigger] views[j]) by {
                lemma_ranks_before_transitive_or_tie(views[i as int], views[best as int], views[j]);
            }
            best = i;
        }
        i = i + 1;
    }
    Some(best)
}

/// Rank order is a strict weak order: ranking before `b`, where `b` ranks
/// before or ties with `c`, means ranking before `c`.
proof fn lemma_ranks_before_transitive_or_tie(a: HitView, b: HitView, c: HitView)
    requires
        ranks_before(a, b),
        !ranks_before(c, b),
    ensures
        ranks_before(a, c),
{
}

/// The configured chains kept are exactly the non-empty ones, in the order
/// given: none is dropped, none added, none reordered.
pub proof fn lemma_nonempty_chains_keeps_every_nonempty_chain(chains: Seq<Vec<u64>>)
    ensures
        nonempty_chains(chains) == chains.map_values(|c: Vec<u64>| c@).filter(|c: Seq<u64>| c.len() > 0),
    decreases chains.len(),
{
    reveal(Seq::filter);
    if chains.len() > 0 {
        let prev = chains.drop_last();
        lemma_nonempty_chains_keeps_every_nonempty_chain(prev);
        let views = chains.map_values(|c: Vec<u64>| c@);
        assert(views.drop_last() =~= prev.map_values(|c: Vec<u64>| c@));
        assert(views.last() == chains.last()@);
    }
}

/// Of two reads alike but in their value, one in the range a soul memory can
/// take (1 to 1 000 000 000) ranks before one outside it.
pub proof fn lemma_plausible_value_ranks_first(a: HitView, b: HitView)
    requires
        a.pid == b.pid,
        a.base == b.base,
        a.chain == b.chain,
        a.initial_deref == b.initial_deref,
        1 <= a.value <= 1_000_000_000,
        b.value < 1 || b.value > 1_000_000_000,
    ensures
        ranks_before(a, b),
        !ranks_before(b, a),
{
}

/// Of two reads alike but in whether the base was dereferenced first, the
/// one that was ranks before the other.
pub proof fn lemma_fresh_read_ranks_first(a: HitView, b: HitView)
    requires
        a.chain == b.chain,
        a.value == b.value,
        a.initial_deref,
        !b.initial_deref,
    ensures
        ranks_before(a, b),
        !ranks_before(b, a),
{
}

/// Of two reads alike but in their chain, one through a chain known to work
/// ranks before one through another chain.
pub proof fn lemma_known_chain_ranks_first(a: HitView, b: HitView)
    requires
        a.initial_deref == b.initial_deref,
        a.value == b.value,
        a.chain == seq![0xD0u64, 0x490u64, 0xF4u64] || a.chain == seq![0xD0u64, 0x490u64, 0xFCu64],
        b.chain != seq![0xD0u64, 0x490u64, 0xF4u64],
        b.chain != seq![0xD0u64, 0x490u64, 0xFCu64],
    ensures
        ranks_before(a, b),
        !ranks_before(b, a),
{
}

} // verus!

verus! {

// ---------------------------------------------------------------------------
// Where the game manager is
// ---------------------------------------------------------------------------

/// `out` followed by the elements of `more` that it does not hold yet, each once,
/// in order.
pub open spec fn append_new(out: Seq<u64>, more: Seq<u64>) -> Seq<u64>
    decreases more.len(),
{
    if more.len() == 0 {
        out
    } else {
        let prev = append_new(out, more.drop_last());
        if prev.contains(more.last()) {
            prev
        } else {
            prev.push(more.last())
        }
    }
}

/// The message for a module that the process does not have loaded.
pub open spec fn module_not_found_message(module: Seq<char>) -> Seq<char> {
    "module '"@ + module + "' not found in process"@
}

/// The bases from the configured address and the module base, before the
/// signature scan: `Err` on an overflowing module base, else the bases and the
/// error of a failed module lookup, if any.
pub open spec fn bases_before_signature(memory: MemoryConfig, module_base: Option<u64>) -> Result<(Seq<u64>, Option<Seq<char>>), Seq<char>> {
    let direct: Seq<u64> = match memory.game_manager_imp {
        Some(addr) => if addr > 0 {
            seq![addr]
        } else {
            seq![]
        },
        None => seq![],
    };
    if memory.base_offset > 0 {
        match module_base {
            Some(mb) => if mb + memory.base_offset > u64::MAX {
                Err("base address overflow while applying base_offset"@)
            } else {
                Ok((append_new(direct, seq![(mb + memory.base_offset) as u64]), None))
            },
            None => Ok((direct, Some(module_not_found_message(memory.module@)))),
        }
    } else {
        Ok((direct, None))
    }
}

/// The game manager bases to try, in order: the configured address, the module
/// base moved by `base_offset`, then the addresses the signature scan found;
/// or why there are none.
pub open spec fn game_manager_bases(
    memory: MemoryConfig,
    signature_enabled: bool,
    module_base: Option<u64>,
    signature_bases: Option<Result<Vec<u64>, String>>,
) -> Result<Seq<u64>, Seq<char>> {
    match bases_before_signature(memory, module_base) {
        Err(e) => Err(e),
        Ok((out, primary)) => {
            let after: Result<Seq<u64>, Seq<char>> = if signature_enabled {
                match signature_bases {
                    Some(Ok(found)) => Ok(append_new(out, found@)),
                    Some(Err(err)) => if out.len() == 0 {
                        Err(
                            match primary {
                                Some(p) => p + "; signature fallback failed: "@ + err@,
                                None => err@,
                            },
                        )
                    } else {
                        Ok(out)
                    },
                    None => Ok(out),
                }
            } else {
                Ok(out)
            };
            match after {
                Err(e) => Err(e),
                Ok(bases) => if bases.len() == 0 {
                    Err(
                        match primary {
                            Some(p) => p,
                            None => "no configured game manager base and signature fallback disabled"@,
                        },
                    )
                } else {
                    Ok(bases)
                },
            }
        },
    }
}

fn push_new(out: &mut Vec<u64>, more: &Vec<u64>)
    ensures
        final(out)@ == append_new(old(out)@, more@),
{
    let ghost start = out@;
    let mut i: usize = 0;
    assert(more@.take(0) =~= Seq::<u64>::empty());
    while i < more.len()
        invariant
            i <= more@.len(),
            out@ == append_new(start, more@.take(i as int)),
        decreases more@.len() - i,
    {
        assert(more@.take(i + 1).drop_last() =~= more@.take(i as int));
        let x = more[i];
        if !vec_contains_u64(out, x) {
            out.push(x);
        }
        i = i + 1;
    }
    assert(more@.take(more@.len() as int) =~= more@);
}

fn module_not_found(module: &str) -> (r: String)
    ensures
        r@ == module_not_found_message(module@),
{
    let mut msg = string_of("module '");
    msg.append(module);
    msg.append("' not found in process");
    msg
}

/// Decides which game manager bases to try, given what the module lookup
/// (made where `base_offset` is set) and the signature scan (made where the
/// signature is enabled) gave.
pub fn select_game_manager_bases(
    memory: &MemoryConfig,
    signature_enabled: bool,
    module_base: Option<u64>,
    signature_bases: Option<Result<Vec<u64>, String>>,
) -> (r: Result<Vec<u64>, String>)
    ensures
        match r {
            Ok(b) => game_manager_bases(*memory, signature_enabled, module_base, signature_bases)
                == Ok::<Seq<u64>, Seq<char>>(b@),
            Err(e) => game_manager_bases(*memory, signature_enabled, module_base, signature_bases)
                == Err::<Seq<u64>, Seq<char>>(e@),
        },
{
    let mut out: Vec<u64> = Vec::new();
    let mut primary_error: Option<String> = None;
    match memory.game_manager_imp {
        Some(addr) => {
            if addr > 0 {
                out.push(addr);
            }
        },
        None => {},
    }
    assert(out@ =~= match memory.game_manager_imp {
        Some(addr) => if addr > 0 {
            seq![addr]
        } else {
            seq![]
        },
        None => seq![],
    });
    if memory.base_offset > 0 {
        match module_base {
            Some(mb) => {
                let base = match mb.checked_add(memory.base_offset) {
                    Some(b) => b,
                    None => return Err(string_of("base address overflow while applying base_offset")),
                };
                let ghost before = out@;
                if !vec_contains_u64(&out, base) {
                    out.push(base);
                }
                assert(seq![base].drop_last() =~= Seq::<u64>::empty());
                assert(append_new(before, seq![base].drop_last()) == before);
                assert(seq![base].last() == base);
                assert(append_new(before, seq![base]) == out@);
            },
            None => {
                primary_error = Some(module_not_found(memory.module.as_str()));
            },
        }
    }
    let ghost out0 = out@;
    let ghost primary0: Option<Seq<char>> = match &primary_error {
        Some(p) => Some(p@),
        None => None,
    };
    assert(bases_before_signature(*memory, module_base) == Ok::<(Seq<u64>, Option<Seq<char>>), Seq<char>>((out0, primary0)));
    if signature_enabled {
        match &signature_bases {
            Some(Ok(found)) => {
                push_new(&mut out, found);
            },
            Some(Err(err)) => {
                if out.len() == 0 {
                    return match primary_error {
                        Some(primary) => {
                            let mut msg = primary;
                            msg.append("; signature fallback failed: ");
                            msg.append(err.as_str());
                            Err(msg)
                        },
                        None => Err(err.clone()),
                    };
                }
            },
            None => {},
        }
    }
    if out.len() == 0 {
        match primary_error {
            Some(err) => Err(err),
            None => Err(string_of("no configured game manager base and signature fallback disabled")),
        }
    } else {
        Ok(out)
    }
}

} // verus!

verus! {

// ---------------------------------------------------------------------------
// Reading soul memory across processes, bases and chains
// ---------------------------------------------------------------------------

/// What `{:?}` writes for a string: the string quoted, with escapes.
pub uninterp spec fn debug_quoted(s: Seq<char>) -> Seq<char>;

/// Writes `s` as `{:?}` does.
#[verifier::external_body]
fn quote_debug(s: &str) -> (r: String)
    ensures
        r@ == debug_quoted(s@),
{
    format!("{:?}", s)
}

/// What `{:?}` writes for a pointer chain error.
pub open spec fn chain_error_debug(e: PointerChainError) -> Seq<char> {
    match e {
        PointerChainError::EmptyChain => "EmptyChain"@,
        PointerChainError::CharacterUnavailable => "CharacterUnavailable"@,
        PointerChainError::AddressOverflow => "AddressOverflow"@,
        PointerChainError::ReadFailed(msg) => "ReadFailed("@ + debug_quoted(msg@) + ")"@,
        PointerChainError::ValueOutOfRange => "ValueOutOfRange"@,
    }
}

/// Writes a pointer chain error as `{:?}` does.
pub fn chain_error_text(e: &PointerChainError) -> (r: String)
    ensures
        r@ == chain_error_debug(*e),
{
    match e {
        PointerChainError::EmptyChain => string_of("EmptyChain"),
        PointerChainError::CharacterUnavailable => string_of("CharacterUnavailable"),
        PointerChainError::AddressOverflow => string_of("AddressOverflow"),
        PointerChainError::ReadFailed(msg) => {
            let mut out = string_of("ReadFailed(");
            let quoted = quote_debug(msg.as_str());
            out.append(quoted.as_str());
            out.append(")");
            out
        },
        PointerChainError::ValueOutOfRange => string_of("ValueOutOfRange"),
    }
}

/// The message for a process that is not running.
pub open spec fn process_not_found_message(exe: Seq<char>) -> Seq<char> {
    "target process '"@ + exe + "' not found"@
}

/// Reports that no process runs `exe`.
pub fn process_not_found(exe: &str) -> (r: String)
    ensures
        r@ == process_not_found_message(exe@),
{
    let mut msg = string_of("target process '");
    msg.append(exe);
    msg.append("' not found");
    msg
}

/// Whether any process runs the target: `Err` with the report that none
/// does when `pids` is empty.
pub fn processes_found(pids: &Vec<u32>, exe: &str) -> (r: Result<(), String>)
    ensures
        pids@.len() == 0 <==> r is Err,
        r matches Err(e) ==> e@ == process_not_found_message(exe@),
{
    if pids.len() == 0 {
        Err(process_not_found(exe))
    } else {
        Ok(())
    }
}

/// A failure noted against a process.
pub open spec fn pid_failure(pid: u32, message: Seq<char>) -> Seq<char> {
    "pid "@ + text::decimal(pid as nat) + ": "@ + message
}

/// The hits whose read began by dereferencing the base, in order.
pub open spec fn fresh_hits(hits: Seq<HitView>) -> Seq<HitView>
    decreases hits.len(),
{
    if hits.len() == 0 {
        seq![]
    } else {
        let prev = fresh_hits(hits.drop_last());
        if hits.last().initial_deref {
            prev.push(hits.last())
        } else {
            prev
        }
    }
}

/// `parts` joined by `sep`.
pub open spec fn joined(parts: Seq<Seq<char>>, sep: Seq<char>) -> Seq<char>
    decreases parts.len(),
{
    if parts.len() == 0 {
        seq![]
    } else if parts.len() == 1 {
        parts[0]
    } else {
        joined(parts.drop_last(), sep) + sep + parts.last()
    }
}

/// The views of a sequence of strings.
pub open spec fn string_views(v: Seq<String>) -> Seq<Seq<char>> {
    v.map_values(|s: String| s@)
}

/// The outcome of a scan: the value of the best fresh hit; else, where some
/// read found no character data, that; else the failures met, or that there
/// were none.
pub open spec fn scan_result(successes: Seq<HitView>, had_character_unavailable: bool, failures: Seq<Seq<char>>) -> Result<i32, Seq<char>> {
    let fresh = fresh_hits(successes);
    if fresh.len() > 0 {
        Ok(fresh[choose|k: int| is_best_index(fresh, k)].value)
    } else if had_character_unavailable {
        Err("character data unavailable; load into a character/world before reading soul memory"@)
    } else if failures.len() == 0 {
        Err("unable to resolve soul memory from configured candidate chains"@)
    } else {
        Err("unable to resolve soul memory: "@ + joined(failures, " | "@))
    }
}

/// What a scan over the target's processes has met so far.
pub struct SoulMemoryScan {
    pub successes: Vec<CandidateHit>,
    pub had_character_unavailable: bool,
    pub other_errors: Vec<String>,
}

/// What a scan has met: its hits, whether some read found no character data,
/// and the failures noted.
#[verifier::ext_equal]
pub struct ScanView {
    pub hits: Seq<HitView>,
    pub had_character_unavailable: bool,
    pub failures: Seq<Seq<char>>,
}

impl View for SoulMemoryScan {
    type V = ScanView;

    open spec fn view(&self) -> ScanView {
        ScanView {
            hits: hit_views(self.successes@),
            had_character_unavailable: self.had_character_unavailable,
            failures: string_views(self.other_errors@),
        }
    }
}

/// What a scan has met after noting the outcome of reading `chain` from
/// `base` in process `pid`.
pub open spec fn recorded(
    s: ScanView,
    pid: u32,
    base: u64,
    chain: Seq<u64>,
    initial_deref: bool,
    outcome: Result<i32, PointerChainError>,
) -> ScanView {
    match outcome {
        Ok(value) => ScanView { hits: s.hits.push(HitView { pid, base, chain, initial_deref, value }), ..s },
        Err(PointerChainError::CharacterUnavailable) => ScanView { had_character_unavailable: true, ..s },
        Err(e) => ScanView { failures: s.failures.push(pid_failure(pid, chain_error_debug(e))), ..s },
    }
}

fn copy_hit(h: &CandidateHit) -> (r: CandidateHit)
    ensures
        r@ == h@,
{
    CandidateHit {
        pid: h.pid,
        base: h.base,
        chain: copy_u64s(&h.chain),
        initial_deref: h.initial_deref,
        value: h.value,
    }
}

pub(crate) fn join_strings(parts: &Vec<String>, sep: &str) -> (r: String)
    ensures
        r@ == joined(string_views(parts@), sep@),
{
    let mut out = String::new();
    let ghost views = string_views(parts@);
    let mut i: usize = 0;
    assert(views.take(0) =~= Seq::<Seq<char>>::empty());
    while i < parts.len()
        invariant
            i <= parts@.len(),
            views == string_views(parts@),
            views.len() == parts@.len(),
            out@ == joined(views.take(i as int), sep@),
        decreases parts@.len() - i,
    {
        assert(views.take(i + 1).drop_last() =~= views.take(i as int));
        assert(views[i as int] == parts@[i as int]@);
        if i > 0 {
            out.append(sep);
        } else {
            assert(views.take(1) =~= seq![views[0]]);
        }
        out.append(parts[i].as_str());
        i = i + 1;
    }
    assert(views.take(parts@.len() as int) =~= views);
    out
}

impl SoulMemoryScan {
    /// A scan that has met nothing yet.
    pub fn new() -> (r: Self)
        ensures
            r.successes@.len() == 0,
            !r.had_character_unavailable,
            r.other_errors@.len() == 0,
    {
        SoulMemoryScan { successes: Vec::new(), had_character_unavailable: false, other_errors: Vec::new() }
    }

    /// Notes that a process could not be opened or its bases not be found.
    pub fn record_failure(&mut self, pid: u32, message: &str)
        ensures
            final(self).successes@ == old(self).successes@,
            final(self).had_character_unavailable == old(self).had_character_unavailable,
            final(self).other_errors@.len() == old(self).other_errors@.len() + 1,
            final(self).other_errors@.drop_last() == old(self).other_errors@,
            final(self).other_errors@.last()@ == pid_failure(pid, message@),
    {
        let mut line = string_of("pid ");
        text::push_decimal(&mut line, pid as u64);
        line.append(": ");
        line.append(message);
        self.other_errors.push(line);
        assert(self.other_errors@.drop_last() =~= old(self).other_errors@);
    }

    /// Notes the outcome of reading `chain` from `base` in process `pid`.
    pub fn record_read(&mut self, pid: u32, base: u64, chain: &Vec<u64>, initial_deref: bool, outcome: Result<i32, PointerChainError>)
        ensures
            final(self)@ == recorded(old(self)@, pid, base, chain@, initial_deref, outcome),
            match outcome {
                Ok(value) => {
                    &&& final(self).successes@.len() == old(self).successes@.len() + 1
                    &&& final(self).successes@.drop_last() == old(self).successes@
                    &&& final(self).successes@.last()@ == (HitView { pid, base, chain: chain@, initial_deref, value })
                    &&& final(self).had_character_unavailable == old(self).had_character_unavailable
                    &&& final(self).other_errors@ == old(self).other_errors@
                },
                Err(PointerChainError::CharacterUnavailable) => {
                    &&& final(self).successes@ == old(self).successes@
                    &&& final(self).had_character_unavailable
                    &&& final(self).other_errors@ == old(self).other_errors@
                },
                Err(e) => {
                    &&& final(self).successes@ == old(self).successes@
                    &&& final(self).had_character_unavailable == old(self).had_character_unavailable
                    &&& final(self).other_errors@.len() == old(self).other_errors@.len() + 1
                    &&& final(self).other_errors@.drop_last() == old(self).other_errors@
                    &&& final(self).other_errors@.last()@ == pid_failure(pid, chain_error_debug(e))
                },
            },
    {
        match outcome {
            Ok(value) => {
                self.successes.push(CandidateHit { pid, base, chain: copy_u64s(chain), initial_deref, value });
                assert(self.successes@.drop_last() =~= old(self).successes@);
                assert(hit_views(self.successes@) =~= hit_views(old(self).successes@).push(
                    HitView { pid, base, chain: chain@, initial_deref, value },
                ));
            },
            Err(PointerChainError::CharacterUnavailable) => {
                self.had_character_unavailable = true;
            },
            Err(e) => {
                let msg = chain_error_text(&e);
                self.record_failure(pid, msg.as_str());
            },
        }
    }

    /// The soul memory value the scan settles on, or why there is none.
    pub fn finish(&self) -> (r: Result<i32, String>)
        ensures
            match r {
                Ok(v) => scan_result(hit_views(self.successes@), self.had_character_unavailable, string_views(self.other_errors@))
                    == Ok::<i32, Seq<char>>(v),
                Err(e) => scan_result(hit_views(self.successes@), self.had_character_unavailable, string_views(self.other_errors@))
                    == Err::<i32, Seq<char>>(e@),
            },
    {
        let mut fresh: Vec<CandidateHit> = Vec::new();
        let ghost all = hit_views(self.successes@);
        let mut i: usize = 0;
        assert(all.take(0) =~= Seq::<HitView>::empty());
        while i < self.successes.len()
            invariant
                i <= self.successes@.len(),
                all == hit_views(self.successes@),
                all.len() == self.successes@.len(),
                hit_views(fresh@) == fresh_hits(all.take(i as int)),
            decreases self.successes@.len() - i,
        {
            assert(all.take(i + 1).drop_last() =~= all.take(i as int));
            assert(all[i as int] == self.successes@[i as int]@);
            let ghost before = fresh@;
            if self.successes[i].initial_deref {
                fresh.push(copy_hit(&self.successes[i]));
                assert(hit_views(fresh@) =~= hit_views(before).push(all[i as int]));
            }
            i = i + 1;
        }
        assert(all.take(all.len() as int) =~= all);
        match choose_best(fresh.as_slice()) {
            Some(k) => {
                let ghost fv = fresh_hits(all);
                proof {
                    assert(is_best_index(fv, k as int));
                    lemma_best_index_unique(fv, k as int, choose|j: int| is_best_index(fv, j));
                    assert(hit_views(fresh@)[k as int] == fresh@[k as int]@);
                }
                Ok(fresh[k].value)
            },
            None => {
                if self.had_character_unavailable {
                    Err(string_of("character data unavailable; load into a character/world before reading soul memory"))
                } else if self.other_errors.len() == 0 {
                    Err(string_of("unable to resolve soul memory from configured candidate chains"))
                } else {
                    let mut msg = string_of("unable to resolve soul memory: ");
                    let joined_errors = join_strings(&self.other_errors, " | ");
                    msg.append(joined_errors.as_str());
                    Err(msg)
                }
            },
        }
    }
}

/// At most one position is where a stable sort by rank puts its first element.
pub proof fn lemma_best_index_unique(candidates: Seq<HitView>, k: int, m: int)
    requires
        is_best_index(candidates, k),
        is_best_index(candidates, m),
    ensures
        k == m,
{
    if k < m {
        assert(ranks_before(candidates[m], candidates[k]));
    } else if m < k {
        assert(ranks_before(candidates[k], candidates[m]));
    }
}

} // verus!

verus! {

// ---------------------------------------------------------------------------
// Probe report lines
// ---------------------------------------------------------------------------

/// The offsets of a chain as `0x`-prefixed upper-case hexadecimal, comma-separated.
pub open spec fn chain_hex(chain: Seq<u64>) -> Seq<char>
    decreases chain.len(),
{
    if chain.len() == 0 {
        seq![]
    } else if chain.len() == 1 {
        "0x"@ + text::hex_upper(chain[0] as nat)
    } else {
        chain_hex(chain.drop_last()) + ","@ + "0x"@ + text::hex_upper(chain.last() as nat)
    }
}

/// What `{}` writes for a boolean.
pub open spec fn bool_text(b: bool) -> Seq<char> {
    if b {
        "true"@
    } else {
        "false"@
    }
}

/// Where a probed read was made: process, base, chain and whether the base was dereferenced.
pub open spec fn probe_location(pid: u32, base: u64, chain: Seq<u64>, initial_deref: bool) -> Seq<char> {
    "pid="@ + text::decimal(pid as nat) + " base=0x"@ + text::hex_upper(base as nat) + " chain=["@
        + chain_hex(chain) + "] deref="@ + bool_text(initial_deref)
}

/// The probe line for one read.
pub open spec fn probe_read_text(pid: u32, base: u64, chain: Seq<u64>, initial_deref: bool, outcome: Result<i32, PointerChainError>) -> Seq<char> {
    let at = probe_location(pid, base, chain, initial_deref);
    match outcome {
        Ok(v) => "ok "@ + at + " value="@ + text::signed_decimal(v as int),
        Err(PointerChainError::CharacterUnavailable) => "unavailable "@ + at,
        Err(e) => "err "@ + at + " msg="@ + chain_error_debug(e),
    }
}

fn push_str(s: &mut String, t: &str)
    ensures
        final(s)@ == old(s)@ + t@,
{
    s.append(t);
}

fn push_chain_hex(s: &mut String, chain: &[u64])
    ensures
        final(s)@ == old(s)@ + chain_hex(chain@),
{
    let ghost start = s@;
    let mut i: usize = 0;
    assert(chain@.take(0) =~= Seq::<u64>::empty());
    assert(s@ =~= start + chain_hex(chain@.take(0)));
    while i < chain.len()
        invariant
            i <= chain@.len(),
            s@ == start + chain_hex(chain@.take(i as int)),
        decreases chain@.len() - i,
    {
        assert(chain@.take(i + 1).drop_last() =~= chain@.take(i as int));
        assert(chain@.take(i + 1).last() == chain@[i as int]);
        if i > 0 {
            push_str(s, ",");
        }
        push_str(s, "0x");
        text::push_hex_upper(s, chain[i]);
        if i == 0 {
            assert(chain@.take(1) =~= seq![chain@[0]]);
        }
        i = i + 1;
        assert(s@ =~= start + chain_hex(chain@.take(i as int)));
    }
    assert(chain@.take(chain@.len() as int) =~= chain@);
}

fn push_bool(s: &mut String, b: bool)
    ensures
        final(s)@ == old(s)@ + bool_text(b),
{
    if b {
        push_str(s, "true");
    } else {
        push_str(s, "false");
    }
}

/// The probe line for one read of `chain` from `base` in process `pid`.
pub fn probe_read_line(pid: u32, base: u64, chain: &[u64], initial_deref: bool, outcome: &Result<i32, PointerChainError>) -> (r: String)
    ensures
        r@ == probe_read_text(pid, base, chain@, initial_deref, *outcome),
{
    let mut line = match outcome {
        Ok(_) => string_of("ok "),
        Err(PointerChainError::CharacterUnavailable) => string_of("unavailable "),
        Err(_) => string_of("err "),
    };
    let ghost head = line@;
    push_str(&mut line, "pid=");
    text::push_decimal(&mut line, pid as u64);
    push_str(&mut line, " base=0x");
    text::push_hex_upper(&mut line, base);
    push_str(&mut line, " chain=[");
    push_chain_hex(&mut line, chain);
    push_str(&mut line, "] deref=");
    push_bool(&mut line, initial_deref);
    assert(line@ =~= head + probe_location(pid, base, chain@, initial_deref));
    match outcome {
        Ok(v) => {
            push_str(&mut line, " value=");
            text::push_signed_decimal(&mut line, *v as i64);
        },
        Err(PointerChainError::CharacterUnavailable) => {},
        Err(e) => {
            push_str(&mut line, " msg=");
            let msg = chain_error_text(e);
            push_str(&mut line, msg.as_str());
        },
    }
    assert(line@ =~= probe_read_text(pid, base, chain@, initial_deref, *outcome));
    line
}

/// The probe line for a process that could not be opened.
pub fn probe_open_error(pid: u32, error: &str) -> (r: String)
    ensures
        r@ == "pid="@ + text::decimal(pid as nat) + " open_error="@ + error@,
{
    let mut line = string_of("pid=");
    text::push_decimal(&mut line, pid as u64);
    push_str(&mut line, " open_error=");
    push_str(&mut line, error);
    line
}

/// The probe line for a process whose game manager bases could not be found.
pub fn probe_base_error(pid: u32, error: &str) -> (r: String)
    ensures
        r@ == "pid="@ + text::decimal(pid as nat) + " base_error="@ + error@,
{
    let mut line = string_of("pid=");
    text::push_decimal(&mut line, pid as u64);
    push_str(&mut line, " base_error=");
    push_str(&mut line, error);
    line
}

/// The probe line giving how many game manager bases a process has.
pub fn probe_bases_found(pid: u32, count: usize) -> (r: String)
    ensures
        r@ == "pid="@ + text::decimal(pid as nat) + " bases_found="@ + text::decimal(count as nat),
{
    let mut line = string_of("pid=");
    text::push_decimal(&mut line, pid as u64);
    push_str(&mut line, " bases_found=");
    text::push_decimal(&mut line, count as u64);
    line
}

} // verus!
