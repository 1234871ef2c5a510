use vstd::prelude::*;
use vstd::string::*;

use crate::text;
use crate::text::string_of;

verus! {

/// A copy of a loaded module's bytes, built region by region as the target's
/// memory map is walked from the module's base to its end. Bytes of regions
/// that cannot be read stay zero.
pub struct ModuleImage {
    pub base: u64,
    pub end: u64,
    pub bytes: Vec<u8>,
    pub cursor: u64,
}

/// The state of committed pages, as Windows reports it for a region.
pub const MEM_COMMIT: u32 = 0x1000;

/// The protection flag of pages that cannot be accessed.
pub const PAGE_NOACCESS: u32 = 0x01;

/// The protection flag of guard pages.
pub const PAGE_GUARD: u32 = 0x100;

/// Whether a region in `state` with protection `protect` can be read: its
/// pages are committed, and neither inaccessible nor guard pages.
pub fn region_is_readable(state: u32, protect: u32) -> (r: bool)
    ensures
        r == (state == MEM_COMMIT && protect & PAGE_NOACCESS == 0 && protect & PAGE_GUARD == 0),
{
    state == MEM_COMMIT && protect & PAGE_NOACCESS == 0 && protect & PAGE_GUARD == 0
}

/// The part of a memory region to copy into the image: where the region is
/// readable and overlaps the module, the overlap as its start and length.
pub open spec fn region_read_range(base: u64, end: u64, region_base: u64, region_size: u64, readable: bool) -> Option<(u64, nat)> {
    let region_end = if region_base + region_size > u64::MAX {
        u64::MAX as int
    } else {
        region_base + region_size
    };
    if region_end > base && region_base < end && readable {
        let start = if region_base > base {
            region_base as int
        } else {
            base as int
        };
        let stop = if region_end < end {
            region_end
        } else {
            end as int
        };
        if stop > start {
            Some((start as u64, (stop - start) as nat))
        } else {
            None
        }
    } else {
        None
    }
}

/// `n` in upper-case hexadecimal, zero-padded to 16 digits.
pub open spec fn hex16(n: u64) -> Seq<char> {
    Seq::new((16 - text::hex_upper(n as nat).len()) as nat, |i: int| '0') + text::hex_upper(n as nat)
}

/// Sixteen to the power `k`.
pub open spec fn pow16(k: nat) -> nat
    decreases k,
{
    if k == 0 {
        1
    } else {
        16 * pow16((k - 1) as nat)
    }
}

/// A number below `16^k` has at most `k` hexadecimal digits.
proof fn lemma_hex_upper_len(n: nat, k: nat)
    requires
        k >= 1,
        n < pow16(k),
    ensures
        1 <= text::hex_upper(n).len() <= k,
    decreases n,
{
    if n >= 16 {
        if k == 1 {
            assert(pow16(1) == 16 * pow16(0));
        }
        assert(k >= 2);
        assert(n / 16 < pow16((k - 1) as nat)) by (nonlinear_arith)
            requires
                n < 16 * pow16((k - 1) as nat),
        ;
        lemma_hex_upper_len(n / 16, (k - 1) as nat);
    }
}

proof fn lemma_pow16_16()
    ensures
        pow16(16) == 0x1_0000_0000_0000_0000,
{
    reveal_with_fuel(pow16, 17);
}

/// Writes `n` as `{:016X}` does.
fn push_hex16(s: &mut String, n: u64)
    ensures
        final(s)@ == old(s)@ + hex16(n),
{
    let mut digits = String::new();
    text::push_hex_upper(&mut digits, n);
    let width = digits.as_str().unicode_len();
    proof {
        lemma_pow16_16();
        lemma_hex_upper_len(n as nat, 16);
    }
    let ghost start = s@;
    let mut i = width;
    while i < 16
        invariant
            width <= i <= 16,
            width == text::hex_upper(n as nat).len(),
            s@ == start + Seq::new((i - width) as nat, |k: int| '0'),
        decreases 16 - i,
    {
        text::push_char(s, '0');
        i = i + 1;
        assert(s@ =~= start + Seq::new((i - width) as nat, |k: int| '0'));
    }
    s.append(digits.as_str());
    assert(s@ =~= start + hex16(n));
}

/// The message for a failed memory query.
pub fn query_failure(cursor: u64) -> (r: String)
    ensures
        r@ == "VirtualQueryEx failed while scanning module at 0x"@ + hex16(cursor),
{
    let mut r = string_of("VirtualQueryEx failed while scanning module at 0x");
    push_hex16(&mut r, cursor);
    r
}

/// How much of `chunk` a placement of `len` bytes copies: all of it, or
/// `len` bytes of it where it is longer.
pub open spec fn copied_len(len: int, chunk: Seq<u8>) -> int {
    if chunk.len() < len {
        chunk.len() as int
    } else {
        len
    }
}

/// `bytes` with `chunk`, cut to `len`, written from `offset` on.
pub open spec fn placed(bytes: Seq<u8>, offset: int, len: int, chunk: Seq<u8>) -> Seq<u8> {
    bytes.subrange(0, offset) + chunk.subrange(0, copied_len(len, chunk)) + bytes.subrange(
        offset + copied_len(len, chunk),
        bytes.len() as int,
    )
}

/// `bytes` after the placements `ps`, each an offset, a length and a chunk,
/// in order.
pub open spec fn image_after(bytes: Seq<u8>, ps: Seq<(int, int, Seq<u8>)>) -> Seq<u8>
    decreases ps.len(),
{
    if ps.len() == 0 {
        bytes
    } else {
        placed(image_after(bytes, ps.drop_last()), ps.last().0, ps.last().1, ps.last().2)
    }
}

/// The byte at `o` after the placements `ps`: from the last chunk that covers
/// `o`, or `initial`'s where none does.
pub open spec fn byte_after(initial: Seq<u8>, ps: Seq<(int, int, Seq<u8>)>, o: int) -> u8
    decreases ps.len(),
{
    if ps.len() == 0 {
        initial[o]
    } else {
        let (offset, len, chunk) = ps.last();
        if offset <= o < offset + copied_len(len, chunk) {
            chunk[o - offset]
        } else {
            byte_after(initial, ps.drop_last(), o)
        }
    }
}

/// However the regions of a module are met, the image keeps its size, and
/// each byte is the one the last chunk to cover it gave, or its first value
/// (zero, from `ModuleImage::new`) where no chunk did.
pub proof fn lemma_image_after_placements(initial: Seq<u8>, ps: Seq<(int, int, Seq<u8>)>)
    requires
        forall|i: int| 0 <= i < ps.len() ==> 0 <= (#[trigger] ps[i]).0 && ps[i].1 >= 0 && ps[i].0 + ps[i].1 <= initial.len(),
    ensures
        image_after(initial, ps).len() == initial.len(),
        forall|o: int| 0 <= o < initial.len() ==> #[trigger] image_after(initial, ps)[o] == byte_after(initial, ps, o),
    decreases ps.len(),
{
    if ps.len() > 0 {
        let prev = ps.drop_last();
        assert forall|i: int| 0 <= i < prev.len() implies 0 <= (#[trigger] prev[i]).0 && prev[i].1 >= 0 && prev[i].0
            + prev[i].1 <= initial.len() by {
            assert(prev[i] == ps[i]);
        }
        lemma_image_after_placements(initial, prev);
        let before = image_after(initial, prev);
        let (offset, len, chunk) = ps.last();
        assert(ps.last() == ps[ps.len() - 1]);
        let c = copied_len(len, chunk);
        let after = placed(before, offset, len, chunk);
        assert(after.len() == initial.len());
        assert forall|o: int| 0 <= o < initial.len() implies #[trigger] image_after(initial, ps)[o] == byte_after(
            initial,
            ps,
            o,
        ) by {
            assert(image_after(initial, ps) == after);
            if o < offset {
                assert(after[o] == before[o]);
            } else if o < offset + c {
                assert(after[o] == chunk[o - offset]);
            } else {
                assert(after[o] == before[o]);
            }
        }
    }
}

impl ModuleImage {
    /// The image's bounds hold its bytes.
    pub open spec fn wf(&self) -> bool {
        self.base + self.bytes@.len() == self.end
    }

    /// An all-zero image of the module at `module_base` of `module_size` bytes,
    /// to be walked from its base; an error if the module would pass the end of
    /// the address space.
    pub fn new(module_base: u64, module_size: usize) -> (r: Result<Self, String>)
        ensures
            module_base + module_size <= u64::MAX <==> r is Ok,
            r matches Ok(m) ==> {
                &&& m.wf()
                &&& m.base == module_base
                &&& m.end == module_base + module_size
                &&& m.cursor == module_base
                &&& m.bytes@ == Seq::new(module_size as nat, |i: int| 0u8)
            },
            r matches Err(e) ==> e@ == "module range overflow while scanning memory"@,
    {
        let end = match module_base.checked_add(module_size as u64) {
            Some(e) => e,
            None => return Err(string_of("module range overflow while scanning memory")),
        };
        let mut bytes: Vec<u8> = Vec::new();
        let mut i: usize = 0;
        while i < module_size
            invariant
                i <= module_size,
                bytes@ == Seq::new(i as nat, |k: int| 0u8),
            decreases module_size - i,
        {
            bytes.push(0);
            i = i + 1;
            assert(bytes@ =~= Seq::new(i as nat, |k: int| 0u8));
        }
        Ok(ModuleImage { base: module_base, end, bytes, cursor: module_base })
    }

    /// Where to query the memory map next; `None` once the walk has passed the module.
    pub fn next_query(&self) -> (r: Option<u64>)
        ensures
            r == if self.cursor < self.end {
                Some(self.cursor)
            } else {
                None::<u64>
            },
    {
        if self.cursor < self.end {
            Some(self.cursor)
        } else {
            None
        }
    }

    /// Takes the region the query at the cursor found: the walk moves past it,
    /// and the part of it to read, if any, is returned. A region of size zero
    /// is an error.
    pub fn take_region(&mut self, region_base: u64, region_size: u64, readable: bool) -> (r: Result<Option<(u64, usize)>, String>)
        requires
            old(self).wf(),
        ensures
            final(self).wf(),
            final(self).base == old(self).base,
            final(self).end == old(self).end,
            final(self).bytes@ == old(self).bytes@,
            region_size == 0 ==> final(self).cursor == old(self).cursor && (r matches Err(e) && e@
                == "VirtualQueryEx returned zero-sized region"@),
            region_size > 0 ==> {
                &&& final(self).cursor == if region_base + region_size > u64::MAX {
                    u64::MAX as int
                } else {
                    region_base + region_size
                }
                &&& (r matches Ok(range) && match range {
                    Some((start, len)) => region_read_range(old(self).base, old(self).end, region_base, region_size, readable)
                        == Some((start, len as nat)),
                    None => region_read_range(old(self).base, old(self).end, region_base, region_size, readable) is None,
                })
            },
            r matches Ok(Some((start, len))) ==> old(self).base <= start && start + len <= old(self).end,
    {
        if region_size == 0 {
            return Err(string_of("VirtualQueryEx returned zero-sized region"));
        }
        let region_end = region_base.saturating_add(region_size);
        self.cursor = region_end;
        if region_end > self.base && region_base < self.end && readable {
            let start = if region_base > self.base {
                region_base
            } else {
                self.base
            };
            let stop = if region_end < self.end {
                region_end
            } else {
                self.end
            };
            if stop > start {
                let byte_count = self.bytes.len();
                assert(byte_count == self.bytes@.len());
                let len = (stop - start) as usize;
                assert(stop - start <= self.bytes@.len());
                return Ok(Some((start, len)));
            }
        }
        Ok(None)
    }

    /// Copies what a read of `len` bytes at `start` gave into the image; a
    /// short read fills only its own length.
    pub fn place(&mut self, start: u64, len: usize, chunk: &[u8])
        requires
            old(self).wf(),
            old(self).base <= start,
            start + len <= old(self).end,
        ensures
            final(self).wf(),
            final(self).base == old(self).base,
            final(self).end == old(self).end,
            final(self).cursor == old(self).cursor,
            final(self).bytes@ == placed(old(self).bytes@, start - old(self).base, len as int, chunk@),
            ({
                let offset = start - old(self).base;
                let copied = if chunk@.len() < len {
                    chunk@.len() as int
                } else {
                    len as int
                };
                final(self).bytes@ == old(self).bytes@.subrange(0, offset) + chunk@.subrange(0, copied)
                    + old(self).bytes@.subrange(offset + copied, old(self).bytes@.len() as int)
            }),
    {
        let byte_count = self.bytes.len();
        assert(byte_count == self.bytes@.len());
        let offset = (start - self.base) as usize;
        assert(offset == start - self.base);
        let copied = if chunk.len() < len {
            chunk.len()
        } else {
            len
        };
        let ghost before = self.bytes@;
        let mut i: usize = 0;
        while i < copied
            invariant
                i <= copied,
                offset + copied <= before.len(),
                copied <= chunk@.len(),
                self.base == old(self).base,
                self.end == old(self).end,
                self.cursor == old(self).cursor,
                self.bytes@.len() == before.len(),
                self.bytes@.len() == self.bytes.len(),
                offset == start - self.base,
                copied == (if chunk@.len() < len {
                    chunk@.len() as int
                } else {
                    len as int
                }),
                self.bytes@ == before.subrange(0, offset as int) + chunk@.subrange(0, i as int) + before.subrange(
                    offset + i,
                    before.len() as int,
                ),
            decreases copied - i,
        {
            self.bytes.set(offset + i, chunk[i]);
            i = i + 1;
            assert(self.bytes@ =~= before.subrange(0, offset as int) + chunk@.subrange(0, i as int) + before.subrange(
                offset + i,
                before.len() as int,
            ));
        }
    }
}

} // verus!
