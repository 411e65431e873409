use vstd::prelude::*;

use crate::maps::{wadd_usize, wsub};
use crate::memory::{le_at, le_value};
use crate::rtti::valid_ptr;
use crate::text::str_eq;

verus! {

/// The bytes read from a section are taken in batches of this size.
pub const BATCH_SIZE: usize = 1024 * 1024;

/// The batch reads of a section of `size` bytes at `start`: batch `k`
/// starts `k` batches in and takes the rest of the section, at most one
/// batch.
pub open spec fn batch_of(start: usize, size: usize, k: int) -> (usize, usize) {
    let off = k * BATCH_SIZE;
    (wadd_usize(start, off as usize), if size - off < BATCH_SIZE { (size - off) as usize } else { BATCH_SIZE })
}

/// The reads that cover a section, in order: one per batch, the last one
/// shorter when the size is not a whole number of batches.
pub fn section_batches(start: usize, size: usize) -> (r: Vec<(usize, usize)>)
    ensures
        r@.len() == (size + BATCH_SIZE - 1) / (BATCH_SIZE as int),
        forall|k: int| 0 <= k < r@.len() ==> #[trigger] r@[k] == batch_of(start, size, k),
{
    let mut out: Vec<(usize, usize)> = Vec::new();
    let mut offset: usize = 0;
    while offset < size
        invariant_except_break
            offset == out@.len() * BATCH_SIZE,
            offset <= size,
        invariant
            forall|k: int| 0 <= k < out@.len() ==> #[trigger] out@[k] == batch_of(start, size, k),
        ensures
            size <= out@.len() * BATCH_SIZE,
            out@.len() * BATCH_SIZE < size + BATCH_SIZE,
        decreases size - offset,
    {
        let len = if size - offset < BATCH_SIZE {
            size - offset
        } else {
            BATCH_SIZE
        };
        let ghost n0 = out@.len();
        out.push((start.wrapping_add(offset), len));
        assert(out@.len() * BATCH_SIZE == n0 * BATCH_SIZE + BATCH_SIZE) by (nonlinear_arith)
            requires
                out@.len() == n0 + 1,
        {
        }
        if size - offset <= BATCH_SIZE {
            break;
        }
        offset = offset + BATCH_SIZE;
    }
    proof {
        let n = out@.len() as int;
        assert((size + BATCH_SIZE - 1) / (BATCH_SIZE as int) == n) by (nonlinear_arith)
            requires
                n * 1048576 < size + 1048576,
                size <= n * 1048576,
        {
        }
    }
    out
}

/// The little-endian word at position `i` of a chunk.
pub open spec fn chunk_word(c: Seq<u8>, i: int) -> nat {
    le_value(c.subrange(i, i + 8))
}

/// The positions `i` of a chunk read at `chunk_addr`, multiples of `stride`
/// with `i + 8` within the chunk's last full stride, whose word is a
/// user-space pointer, given as offsets from `module_base` with the word found
/// there; positions from `i` on.
pub open spec fn chunk_hits(c: Seq<u8>, stride: nat, chunk_addr: usize, module_base: usize, i: nat) -> Seq<(usize, u64)>
    decreases (c.len() / stride) * stride + stride + 8 - i,
{
    let end = (c.len() / stride) * stride;
    if stride == 0 || i + 8 > end {
        Seq::empty()
    } else {
        let rest = chunk_hits(c, stride, chunk_addr, module_base, i + stride);
        if valid_ptr(chunk_word(c, i as int) as u64) {
            seq![(wsub(wadd_usize(chunk_addr, i as usize), module_base), chunk_word(c, i as int) as u64)] + rest
        } else {
            rest
        }
    }
}

/// Every pointer reported for a chunk is a user-space address.
pub proof fn law_hits_are_pointers(c: Seq<u8>, stride: nat, chunk_addr: usize, module_base: usize, i: nat)
    ensures
        forall|k: int| 0 <= k < chunk_hits(c, stride, chunk_addr, module_base, i).len()
            ==> valid_ptr(#[trigger] chunk_hits(c, stride, chunk_addr, module_base, i)[k].1),
    decreases (c.len() / stride) * stride + stride + 8 - i,
{
    let end = (c.len() / stride) * stride;
    if stride == 0 || i + 8 > end {
    } else {
        law_hits_are_pointers(c, stride, chunk_addr, module_base, i + stride);
        let rest = chunk_hits(c, stride, chunk_addr, module_base, i + stride);
        if valid_ptr(chunk_word(c, i as int) as u64) {
            let h = seq![(wsub(wadd_usize(chunk_addr, i as usize), module_base), chunk_word(c, i as int) as u64)];
            assert forall|k: int| 0 <= k < (h + rest).len() implies valid_ptr(#[trigger] (h + rest)[k].1) by {
                if k >= 1 {
                    assert((h + rest)[k] == rest[k - 1]);
                }
            }
        }
    }
}

/// The pointers found in one chunk of a section (see `chunk_hits`).
pub fn chunk_candidates(chunk: &[u8], stride: usize, chunk_addr: usize, module_base: usize) -> (r: Vec<(usize, u64)>)
    requires
        stride > 0,
    ensures
        r@ == chunk_hits(chunk@, stride as nat, chunk_addr, module_base, 0),
{
    let n = chunk.len();
    let q = n / stride;
    assert(q * stride <= n) by (nonlinear_arith)
        requires
            q == n / stride,
            stride > 0,
    ;
    let end = q * stride;
    let mut out: Vec<(usize, u64)> = Vec::new();
    let mut i: usize = 0;
    while 8 <= end && i <= end - 8
        invariant
            stride > 0,
            end == (chunk@.len() / stride as nat) * stride as nat,
            end <= n,
            n == chunk@.len(),
            chunk_hits(chunk@, stride as nat, chunk_addr, module_base, 0) == out@ + chunk_hits(
                chunk@,
                stride as nat,
                chunk_addr,
                module_base,
                i as nat,
            ),
        decreases end + stride + 8 - i,
    {
        let w = le_at(chunk, i, 8);
        let ghost rest = chunk_hits(chunk@, stride as nat, chunk_addr, module_base, (i + stride) as nat);
        proof {
            crate::memory::lemma_le_bound(chunk@.subrange(i as int, i + 8));
            reveal_with_fuel(crate::memory::pow256, 9);
        }
        if w >= 0x10000 && w <= 0x7fffffffffff {
            let off = chunk_addr.wrapping_add(i).wrapping_sub(module_base);
            let ghost before = out@;
            out.push((off, w));
            assert(before + chunk_hits(chunk@, stride as nat, chunk_addr, module_base, i as nat) =~= out@ + rest);
        } else {
            assert(out@ + chunk_hits(chunk@, stride as nat, chunk_addr, module_base, i as nat) =~= out@ + rest);
        }
        if end - i - 8 < stride {
            assert(chunk_hits(chunk@, stride as nat, chunk_addr, module_base, (i + stride) as nat) =~= Seq::empty());
            assert(out@ + rest =~= out@);
            return out;
        }
        i = i + stride;
    }
    assert(out@ + chunk_hits(chunk@, stride as nat, chunk_addr, module_base, i as nat) =~= out@);
    out
}

/// The two anchors the section scan looks for: the first pointer to the
/// render engine object and the first pointer to the (fake) data model.
pub struct Anchors {
    pub visual_engine: Option<usize>,
    pub data_model: Option<usize>,
}

impl Anchors {
    pub fn new() -> (a: Anchors)
        ensures
            a.visual_engine is None,
            a.data_model is None,
    {
        Anchors { visual_engine: None, data_model: None }
    }

    /// Records a pointer at `module_off` to an object of class `name`; the
    /// first offset found for each anchor is kept.
    pub fn note(&mut self, module_off: usize, name: &str)
        ensures
            final(self).visual_engine == (if old(self).visual_engine is None && name@ == "VisualEngine@Graphics@RBX"@ {
                Some(module_off)
            } else {
                old(self).visual_engine
            }),
            final(self).data_model == (if old(self).data_model is None && name@ == "DataModel@RBX"@ {
                Some(module_off)
            } else {
                old(self).data_model
            }),
    {
        if self.visual_engine.is_none() && str_eq(name, "VisualEngine@Graphics@RBX") {
            self.visual_engine = Some(module_off);
        }
        if self.data_model.is_none() && str_eq(name, "DataModel@RBX") {
            self.data_model = Some(module_off);
        }
    }

    /// Both anchors are known.
    pub fn complete(&self) -> (b: bool)
        ensures
            b == (self.visual_engine is Some && self.data_model is Some),
    {
        self.visual_engine.is_some() && self.data_model.is_some()
    }
}

} // verus!
