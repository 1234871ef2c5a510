use vstd::prelude::*;

verus! {

/// Reads of a target process's memory, as a pointer-chain walk needs them.
pub trait PointerChainMemory {
    /// Whether `r` is an answer this memory may give to an 8-byte read at
    /// `address`. A relation, not a function: live memory may change between
    /// two reads of one address. A memory that does not define it admits
    /// every answer.
    open spec fn answers_u64(&self, address: u64, r: Result<u64, String>) -> bool {
        true
    }

    /// Whether `r` is an answer this memory may give to a 4-byte read at
    /// `address`. A memory that does not define it admits every answer.
    open spec fn answers_u32(&self, address: u64, r: Result<u32, String>) -> bool {
        true
    }

    /// Reads the 8 bytes at `address`.
    fn read_u64(&self, address: u64) -> (r: Result<u64, String>)
        ensures
            self.answers_u64(address, r),
    ;

    /// Reads the 4 bytes at `address`.
    fn read_u32(&self, address: u64) -> (r: Result<u32, String>)
        ensures
            self.answers_u32(address, r),
    ;
}

/// Why a pointer chain could not be resolved to a value.
#[derive(Debug, Clone, PartialEq, Eq)]
pub enum PointerChainError {
    EmptyChain,
    CharacterUnavailable,
    AddressOverflow,
    ReadFailed(String),
    ValueOutOfRange,
}

/// A memory as a walk sees it: what each 8-byte read gives.
pub type Reads64 = spec_fn(u64) -> Result<u64, String>;

/// A memory as a walk sees it: what each 4-byte read gives.
pub type Reads32 = spec_fn(u64) -> Result<u32, String>;

/// A pointer read back from memory: a failed read is reported as such, and a
/// null pointer means that the game holds no character data yet.
pub open spec fn pointer_from_read(read: Result<u64, String>) -> Result<u64, PointerChainError> {
    match read {
        Err(e) => Err(PointerChainError::ReadFailed(e)),
        Ok(p) => if p == 0 {
            Err(PointerChainError::CharacterUnavailable)
        } else {
            Ok(p)
        },
    }
}

/// The signed value of a 32-bit read, which must fit in an `i32`.
pub open spec fn value_from_read(read: Result<u32, String>) -> Result<i32, PointerChainError> {
    match read {
        Err(e) => Err(PointerChainError::ReadFailed(e)),
        Ok(v) => if v <= i32::MAX {
            Ok(v as i32)
        } else {
            Err(PointerChainError::ValueOutOfRange)
        },
    }
}

/// The value reached from pointer `ptr` by the offsets of `chain` from
/// `index` on: every offset but the last is followed as a pointer, and the
/// 32-bit value at the last is read.
pub open spec fn walk_from(m64: Reads64, m32: Reads32, ptr: u64, chain: Seq<u64>, index: int) -> Result<i32, PointerChainError>
    decreases chain.len() - index,
{
    if index < 0 || index >= chain.len() {
        Err(PointerChainError::EmptyChain)
    } else if index + 1 < chain.len() {
        if ptr + chain[index] > u64::MAX {
            Err(PointerChainError::AddressOverflow)
        } else {
            match pointer_from_read(m64((ptr + chain[index]) as u64)) {
                Err(e) => Err(e),
                Ok(next) => walk_from(m64, m32, next, chain, index + 1),
            }
        }
    } else if ptr + chain[index] > u64::MAX {
        Err(PointerChainError::AddressOverflow)
    } else {
        value_from_read(m32((ptr + chain[index]) as u64))
    }
}

/// What resolving `chain` from `base` gives in a memory whose reads are
/// `m64` and `m32`: optionally dereference `base` first, follow every offset
/// but the last as a pointer, and read the 32-bit value at the last.
pub open spec fn chain_value(m64: Reads64, m32: Reads32, base: u64, chain: Seq<u64>, initial_deref: bool) -> Result<i32, PointerChainError> {
    if chain.len() == 0 {
        Err(PointerChainError::EmptyChain)
    } else {
        let start = if initial_deref {
            pointer_from_read(m64(base))
        } else {
            Ok(base)
        };
        match start {
            Err(e) => Err(e),
            Ok(p) => walk_from(m64, m32, p, chain, 0),
        }
    }
}

/// Where a walk along a pointer chain stands: a read it needs, or its outcome.
#[derive(Debug)]
pub enum WalkStep {
    /// Read the pointer at `address`; it is followed by the offsets from `next_index` on.
    ReadPointer { address: u64, next_index: usize },
    /// Read the 32-bit value at `address`.
    ReadValue { address: u64 },
    /// The walk is over.
    Done(Result<i32, PointerChainError>),
}

/// The step after arriving at pointer `ptr` with the offsets from `index` on still to apply.
pub open spec fn step_from(ptr: u64, chain: Seq<u64>, index: int) -> WalkStep {
    if ptr + chain[index] > u64::MAX {
        WalkStep::Done(Err(PointerChainError::AddressOverflow))
    } else if index + 1 < chain.len() {
        WalkStep::ReadPointer { address: (ptr + chain[index]) as u64, next_index: (index + 1) as usize }
    } else {
        WalkStep::ReadValue { address: (ptr + chain[index]) as u64 }
    }
}

/// The first step of a walk.
pub open spec fn first_step(base: u64, chain: Seq<u64>, initial_deref: bool) -> WalkStep {
    if chain.len() == 0 {
        WalkStep::Done(Err(PointerChainError::EmptyChain))
    } else if initial_deref {
        WalkStep::ReadPointer { address: base, next_index: 0 }
    } else {
        step_from(base, chain, 0)
    }
}

/// The step after a pointer read that was to be followed by the offsets from `next_index` on.
pub open spec fn step_after_pointer(chain: Seq<u64>, next_index: int, read: Result<u64, String>) -> WalkStep {
    match pointer_from_read(read) {
        Err(e) => WalkStep::Done(Err(e)),
        Ok(p) => step_from(p, chain, next_index),
    }
}

fn next_step(ptr: u64, chain: &[u64], index: usize) -> (s: WalkStep)
    requires
        index < chain@.len(),
    ensures
        s == step_from(ptr, chain@, index as int),
{
    match ptr.checked_add(chain[index]) {
        None => WalkStep::Done(Err(PointerChainError::AddressOverflow)),
        Some(address) => if index + 1 < chain.len() {
            WalkStep::ReadPointer { address, next_index: index + 1 }
        } else {
            WalkStep::ReadValue { address }
        },
    }
}

/// Starts a walk along `chain` from `base`.
pub fn walk_start(base: u64, chain: &[u64], initial_deref: bool) -> (s: WalkStep)
    ensures
        s == first_step(base, chain@, initial_deref),
{
    if chain.len() == 0 {
        WalkStep::Done(Err(PointerChainError::EmptyChain))
    } else if initial_deref {
        WalkStep::ReadPointer { address: base, next_index: 0 }
    } else {
        next_step(base, chain, 0)
    }
}

/// Continues a walk with what the pointer read asked for gave.
pub fn walk_after_pointer(chain: &[u64], next_index: usize, read: Result<u64, String>) -> (s: WalkStep)
    requires
        next_index < chain@.len(),
    ensures
        s == step_after_pointer(chain@, next_index as int, read),
{
    match read {
        Err(e) => WalkStep::Done(Err(PointerChainError::ReadFailed(e))),
        Ok(p) => if p == 0 {
            WalkStep::Done(Err(PointerChainError::CharacterUnavailable))
        } else {
            next_step(p, chain, next_index)
        },
    }
}

/// Ends a walk with what the value read gave.
pub fn walk_after_value(read: Result<u32, String>) -> (r: Result<i32, PointerChainError>)
    ensures
        r == value_from_read(read),
{
    match read {
        Err(e) => Err(PointerChainError::ReadFailed(e)),
        Ok(v) => if v <= 0x7fff_ffff {
            Ok(v as i32)
        } else {
            Err(PointerChainError::ValueOutOfRange)
        },
    }
}

/// Whether a step of a walk along `chain` only asks for positions in it.
pub open spec fn step_fits(step: WalkStep, chain: Seq<u64>) -> bool {
    step matches WalkStep::ReadPointer { next_index, .. } ==> next_index < chain.len()
}

/// The outcome of a walk from `step` when every read is answered by `m64` and `m32`.
pub open spec fn drive(m64: Reads64, m32: Reads32, chain: Seq<u64>, step: WalkStep, fuel: nat) -> Result<i32, PointerChainError>
    decreases fuel,
{
    match step {
        WalkStep::Done(r) => r,
        WalkStep::ReadValue { address } => value_from_read(m32(address)),
        WalkStep::ReadPointer { address, next_index } => if fuel == 0 {
            Err(PointerChainError::EmptyChain)
        } else {
            drive(m64, m32, chain, step_after_pointer(chain, next_index as int, m64(address)), (fuel - 1) as nat)
        },
    }
}

/// The outcome of a walk from `step` when its pointer reads give `reads`, in
/// order, and its value read gives `value_read`.
pub open spec fn replay(chain: Seq<u64>, step: WalkStep, reads: Seq<Result<u64, String>>, value_read: Result<u32, String>) -> Result<i32, PointerChainError>
    decreases reads.len(),
{
    match step {
        WalkStep::Done(r) => r,
        WalkStep::ReadValue { .. } => value_from_read(value_read),
        WalkStep::ReadPointer { next_index, .. } => if reads.len() == 0 {
            Err(PointerChainError::EmptyChain)
        } else {
            replay(chain, step_after_pointer(chain, next_index as int, reads[0]), reads.drop_first(), value_read)
        },
    }
}

/// Whether `memory` answered a walk from `step`: each pointer read is made at
/// the address its step gives, in order, and answered with the next of
/// `reads`; the value read, where the walk gets that far, is made at its
/// step's address and answered with `value_read`; and no read is left over.
pub open spec fn answered<M: PointerChainMemory + ?Sized>(
    memory: &M,
    chain: Seq<u64>,
    step: WalkStep,
    reads: Seq<Result<u64, String>>,
    value_read: Result<u32, String>,
) -> bool
    decreases reads.len(),
{
    match step {
        WalkStep::Done(_) => reads.len() == 0,
        WalkStep::ReadValue { address } => reads.len() == 0 && memory.answers_u32(address, value_read),
        WalkStep::ReadPointer { address, next_index } => {
            &&& reads.len() > 0
            &&& memory.answers_u64(address, reads[0])
            &&& answered(
                memory,
                chain,
                step_after_pointer(chain, next_index as int, reads[0]),
                reads.drop_first(),
                value_read,
            )
        },
    }
}

/// What resolving `chain` from `base` in `memory` may give: what the walk
/// makes of answers that the memory gave at the walk's addresses.
pub open spec fn resolves_to<M: PointerChainMemory + ?Sized>(
    memory: &M,
    base: u64,
    chain: Seq<u64>,
    initial_deref: bool,
    r: Result<i32, PointerChainError>,
) -> bool {
    exists|reads: Seq<Result<u64, String>>, value_read: Result<u32, String>|
        #[trigger] answered(memory, chain, first_step(base, chain, initial_deref), reads, value_read)
            && r == replay(chain, first_step(base, chain, initial_deref), reads, value_read)
}

proof fn lemma_drive_step_from(m64: Reads64, m32: Reads32, ptr: u64, chain: Seq<u64>, index: int, fuel: nat)
    requires
        0 <= index < chain.len(),
        chain.len() <= usize::MAX,
        fuel >= chain.len() - index,
    ensures
        drive(m64, m32, chain, step_from(ptr, chain, index), fuel) == walk_from(m64, m32, ptr, chain, index),
    decreases chain.len() - index,
{
    if ptr + chain[index] <= u64::MAX && index + 1 < chain.len() {
        let address = (ptr + chain[index]) as u64;
        let step = step_from(ptr, chain, index);
        assert(step == WalkStep::ReadPointer { address, next_index: (index + 1) as usize });
        assert(drive(m64, m32, chain, step, fuel) == drive(m64, m32, chain, step_after_pointer(chain, index + 1, m64(address)), (fuel - 1) as nat));
        match pointer_from_read(m64(address)) {
            Err(e) => {},
            Ok(next) => {
                lemma_drive_step_from(m64, m32, next, chain, index + 1, (fuel - 1) as nat);
            },
        }
    }
}

/// A walk driven by the reads of one memory resolves the chain as
/// `chain_value` says, for every memory, base, chain and choice of first
/// dereference.
pub proof fn lemma_walk_resolves_chain(m64: Reads64, m32: Reads32, base: u64, chain: Seq<u64>, initial_deref: bool)
    requires
        chain.len() <= usize::MAX,
    ensures
        drive(m64, m32, chain, first_step(base, chain, initial_deref), chain.len() + 1) == chain_value(
            m64,
            m32,
            base,
            chain,
            initial_deref,
        ),
{
    if chain.len() > 0 {
        if initial_deref {
            let step = first_step(base, chain, initial_deref);
            assert(step == WalkStep::ReadPointer { address: base, next_index: 0 });
            assert(drive(m64, m32, chain, step, chain.len() + 1) == drive(m64, m32, chain, step_after_pointer(chain, 0, m64(base)), chain.len()));
            match pointer_from_read(m64(base)) {
                Err(e) => {},
                Ok(p) => {
                    lemma_drive_step_from(m64, m32, p, chain, 0, chain.len());
                },
            }
        } else {
            lemma_drive_step_from(m64, m32, base, chain, 0, chain.len() + 1);
        }
    }
}

proof fn lemma_answered_reads_bound<M: PointerChainMemory + ?Sized>(
    memory: &M,
    chain: Seq<u64>,
    step: WalkStep,
    reads: Seq<Result<u64, String>>,
    value_read: Result<u32, String>,
)
    requires
        answered(memory, chain, step, reads, value_read),
        step_fits(step, chain),
        chain.len() <= usize::MAX,
    ensures
        step matches WalkStep::ReadPointer { next_index, .. } ==> reads.len() <= chain.len() - next_index,
        !(step is ReadPointer) ==> reads.len() == 0,
    decreases reads.len(),
{
    if let WalkStep::ReadPointer { address, next_index } = step {
        let next = step_after_pointer(chain, next_index as int, reads[0]);
        assert(next_index < chain.len());
        match pointer_from_read(reads[0]) {
            Err(e) => {
                assert(next == WalkStep::Done(Err(e)));
            },
            Ok(p) => {
                assert(next == step_from(p, chain, next_index as int));
                if p + chain[next_index as int] <= u64::MAX && next_index + 1 < chain.len() {
                    assert(next == WalkStep::ReadPointer {
                        address: (p + chain[next_index as int]) as u64,
                        next_index: (next_index + 1) as usize,
                    });
                }
            },
        }
        lemma_answered_reads_bound(memory, chain, next, reads.drop_first(), value_read);
        assert(reads.len() == reads.drop_first().len() + 1);
    }
}

proof fn lemma_answered_replay_is_drive<M: PointerChainMemory + ?Sized>(
    memory: &M,
    m64: Reads64,
    m32: Reads32,
    chain: Seq<u64>,
    step: WalkStep,
    reads: Seq<Result<u64, String>>,
    value_read: Result<u32, String>,
    fuel: nat,
)
    requires
        forall|a: u64, x: Result<u64, String>| #[trigger] memory.answers_u64(a, x) ==> x == m64(a),
        forall|a: u64, x: Result<u32, String>| #[trigger] memory.answers_u32(a, x) ==> x == m32(a),
        answered(memory, chain, step, reads, value_read),
        fuel > reads.len(),
    ensures
        replay(chain, step, reads, value_read) == drive(m64, m32, chain, step, fuel),
    decreases reads.len(),
{
    if let WalkStep::ReadPointer { address, next_index } = step {
        let next = step_after_pointer(chain, next_index as int, reads[0]);
        assert(memory.answers_u64(address, reads[0]));
        lemma_answered_replay_is_drive(memory, m64, m32, chain, next, reads.drop_first(), value_read, (fuel - 1) as nat);
    } else if let WalkStep::ReadValue { address } = step {
        assert(memory.answers_u32(address, value_read));
    }
}

/// In a memory that answers every read of an address as `m64` and `m32`
/// say, whatever `resolve_pointer_chain_i32` may give is what `chain_value`
/// says of that memory.
pub proof fn lemma_resolves_as_memory_answers<M: PointerChainMemory + ?Sized>(
    memory: &M,
    m64: Reads64,
    m32: Reads32,
    base: u64,
    chain: Seq<u64>,
    initial_deref: bool,
    r: Result<i32, PointerChainError>,
)
    requires
        forall|a: u64, x: Result<u64, String>| #[trigger] memory.answers_u64(a, x) ==> x == m64(a),
        forall|a: u64, x: Result<u32, String>| #[trigger] memory.answers_u32(a, x) ==> x == m32(a),
        chain.len() <= usize::MAX,
        resolves_to(memory, base, chain, initial_deref, r),
    ensures
        r == chain_value(m64, m32, base, chain, initial_deref),
{
    let first = first_step(base, chain, initial_deref);
    let (reads, value_read) = choose|reads: Seq<Result<u64, String>>, value_read: Result<u32, String>|
        #[trigger] answered(memory, chain, first, reads, value_read) && r == replay(chain, first, reads, value_read);
    lemma_answered_reads_bound(memory, chain, first, reads, value_read);
    lemma_answered_replay_is_drive(memory, m64, m32, chain, first, reads, value_read, chain.len() + 1);
    lemma_walk_resolves_chain(m64, m32, base, chain, initial_deref);
}

/// The value read converts exactly: every 32-bit value up to `i32::MAX`,
/// zero included, is the value found; only a larger one is out of range; and
/// a failed read is reported with its message. A value read never reports
/// missing character data.
pub proof fn lemma_value_read_exact(v: u32, e: String)
    ensures
        v <= 0x7fff_ffff ==> value_from_read(Ok(v)) == Ok::<i32, PointerChainError>(v as i32) && (v as i32) as int
            == v as int,
        v > 0x7fff_ffff ==> value_from_read(Ok(v)) == Err::<i32, PointerChainError>(PointerChainError::ValueOutOfRange),
        value_from_read(Err(e)) == Err::<i32, PointerChainError>(PointerChainError::ReadFailed(e)),
        value_from_read(Ok(v)) != Err::<i32, PointerChainError>(PointerChainError::CharacterUnavailable),
        value_from_read(Err(e)) != Err::<i32, PointerChainError>(PointerChainError::CharacterUnavailable),
{
}

proof fn lemma_walk_unavailable_means_null(m64: Reads64, m32: Reads32, ptr: u64, chain: Seq<u64>, index: int)
    requires
        walk_from(m64, m32, ptr, chain, index) == Err::<i32, PointerChainError>(PointerChainError::CharacterUnavailable),
    ensures
        exists|a: u64| #[trigger] m64(a) == Ok::<u64, String>(0),
    decreases chain.len() - index,
{
    if 0 <= index < chain.len() && index + 1 < chain.len() && ptr + chain[index] <= u64::MAX {
        let a = (ptr + chain[index]) as u64;
        match pointer_from_read(m64(a)) {
            Err(e) => {
                assert(m64(a) == Ok::<u64, String>(0));
            },
            Ok(next) => {
                lemma_walk_unavailable_means_null(m64, m32, next, chain, index + 1);
            },
        }
    } else if 0 <= index < chain.len() && index + 1 >= chain.len() && ptr + chain[index] <= u64::MAX {
        match m32((ptr + chain[index]) as u64) {
            Ok(v) => lemma_value_read_exact(v, arbitrary()),
            Err(e) => lemma_value_read_exact(0, e),
        }
    }
}

/// Missing character data is reported only where a pointer read gave a
/// null pointer: a chain resolves to `CharacterUnavailable` only in a memory
/// that holds a zero pointer at some address.
pub proof fn lemma_unavailable_means_null_pointer(
    m64: Reads64,
    m32: Reads32,
    base: u64,
    chain: Seq<u64>,
    initial_deref: bool,
)
    requires
        chain_value(m64, m32, base, chain, initial_deref) == Err::<i32, PointerChainError>(
            PointerChainError::CharacterUnavailable,
        ),
    ensures
        exists|a: u64| #[trigger] m64(a) == Ok::<u64, String>(0),
{
    if chain.len() > 0 {
        if initial_deref {
            match pointer_from_read(m64(base)) {
                Err(e) => {
                    assert(m64(base) == Ok::<u64, String>(0));
                },
                Ok(p) => {
                    lemma_walk_unavailable_means_null(m64, m32, p, chain, 0);
                },
            }
        } else {
            lemma_walk_unavailable_means_null(m64, m32, base, chain, 0);
        }
    }
}

/// Resolves a pointer chain to the 32-bit value at its end: optionally
/// dereference `base` first, follow every offset but the last as a pointer,
/// and read the value at the last. Each read goes to the address the walk's
/// step gives; the outcome is what the walk makes of the answers.
pub fn resolve_pointer_chain_i32<M: PointerChainMemory + ?Sized>(
    memory: &M,
    base: u64,
    chain: &[u64],
    initial_deref: bool,
) -> (r: Result<i32, PointerChainError>)
    ensures
        chain@.len() == 0 <==> r == Err::<i32, PointerChainError>(PointerChainError::EmptyChain),
        r matches Ok(v) ==> v >= 0,
        resolves_to(memory, base, chain@, initial_deref, r),
{
    let ghost first = first_step(base, chain@, initial_deref);
    let ghost mut reads: Seq<Result<u64, String>> = seq![];
    let mut step = walk_start(base, chain, initial_deref);
    let mut taken: usize = 0;
    assert forall|rest: Seq<Result<u64, String>>, value_read: Result<u32, String>|
        #[trigger] replay(chain@, first, reads + rest, value_read) == replay(chain@, step, rest, value_read) by {
        assert(reads + rest =~= rest);
    }
    assert forall|rest: Seq<Result<u64, String>>, value_read: Result<u32, String>|
        #[trigger] answered(memory, chain@, step, rest, value_read) implies answered(
            memory,
            chain@,
            first,
            reads + rest,
            value_read,
        ) by {
        assert(reads + rest =~= rest);
    }
    loop
        invariant
            step_fits(step, chain@),
            first == first_step(base, chain@, initial_deref),
            chain@.len() > 0 ==> !(step matches WalkStep::Done(Err(PointerChainError::EmptyChain))),
            chain@.len() == 0 ==> step == WalkStep::Done(Err(PointerChainError::EmptyChain)),
            step matches WalkStep::Done(Ok(v)) ==> v >= 0,
            step matches WalkStep::ReadPointer { next_index, .. } ==> taken <= next_index,
            taken <= chain@.len(),
            chain@.len() == chain.len(),
            forall|rest: Seq<Result<u64, String>>, value_read: Result<u32, String>|
                #[trigger] replay(chain@, first, reads + rest, value_read) == replay(chain@, step, rest, value_read),
            forall|rest: Seq<Result<u64, String>>, value_read: Result<u32, String>|
                #[trigger] answered(memory, chain@, step, rest, value_read) ==> answered(
                    memory,
                    chain@,
                    first,
                    reads + rest,
                    value_read,
                ),
        decreases chain@.len() + 1 - taken,
    {
        match step {
            WalkStep::ReadPointer { address, next_index } => {
                let read = memory.read_u64(address);
                let ghost prev_step = step;
                step = walk_after_pointer(chain, next_index, read);
                proof {
                    assert forall|rest: Seq<Result<u64, String>>, value_read: Result<u32, String>|
                        #[trigger] replay(chain@, first, reads.push(read) + rest, value_read) == replay(chain@, step, rest, value_read) by {
                        assert(reads.push(read) + rest =~= reads + (seq![read] + rest));
                        assert((seq![read] + rest).drop_first() =~= rest);
                        assert(replay(chain@, prev_step, seq![read] + rest, value_read) == replay(chain@, step, rest, value_read));
                    }
                    assert forall|rest: Seq<Result<u64, String>>, value_read: Result<u32, String>|
                        #[trigger] answered(memory, chain@, step, rest, value_read) implies answered(
                            memory,
                            chain@,
                            first,
                            reads.push(read) + rest,
                            value_read,
                        ) by {
                        assert(reads.push(read) + rest =~= reads + (seq![read] + rest));
                        assert((seq![read] + rest).drop_first() =~= rest);
                        assert(answered(memory, chain@, prev_step, seq![read] + rest, value_read));
                    }
                    reads = reads.push(read);
                }
                taken = taken + 1;
            },
            WalkStep::ReadValue { address } => {
                let read = memory.read_u32(address);
                let r = walk_after_value(read);
                assert(reads + seq![] =~= reads);
                assert(replay(chain@, first, reads + seq![], read) == r);
                assert(replay(chain@, first_step(base, chain@, initial_deref), reads, read) == r);
                assert(answered(memory, chain@, step, seq![], read));
                assert(answered(memory, chain@, first, reads, read));
                return r;
            },
            WalkStep::Done(r) => {
                let ghost any: Result<u32, String> = Ok(0);
                assert(reads + seq![] =~= reads);
                assert(replay(chain@, first, reads + seq![], any) == r);
                assert(replay(chain@, first_step(base, chain@, initial_deref), reads, any) == r);
                assert(answered(memory, chain@, step, seq![], any));
                assert(answered(memory, chain@, first, reads, any));
                return r;
            },
        }
    }
}

} // verus!
