//! The memory tape: a fixed-length array of cells addressed by a single
//! pointer, with a configurable representable range for cell values and
//! configurable wrap/strict policies for cell overflow and pointer bounds.
//!
//! Every operation either succeeds, leaving the tape well formed, or fails
//! atomically, leaving pointer and cells exactly as they were.

use vstd::prelude::*;

verus! {

/// What happens when cell arithmetic leaves the representable range.
#[derive(Clone, Copy, PartialEq, Eq, Structural, Debug)]
pub enum OverflowPolicy {
    /// Values wrap modulo the size of the representable range.
    Wrap,
    /// The operation fails with `MemoryError::Overflow`.
    Strict,
}

/// What happens when a pointer move leaves the tape.
#[derive(Clone, Copy, PartialEq, Eq, Structural, Debug)]
pub enum BoundPolicy {
    /// Positions wrap modulo the tape length.
    Wrap,
    /// The operation fails with `MemoryError::OutOfBound`.
    Strict,
}

/// An error raised by a memory operation under a strict policy.
#[derive(Clone, Copy, PartialEq, Eq, Structural, Debug)]
pub enum MemoryError {
    /// A pointer move would have left the tape.
    OutOfBound,
    /// Cell arithmetic would have left the representable range.
    Overflow,
}

/// The mathematical value of a tape: cell contents, pointer position and
/// configuration, with none of the representation.
#[verifier::ext_equal]
pub ghost struct MemSnapshot {
    pub cells: Seq<i32>,
    pub ptr: int,
    pub cell_max: int,
    pub overflow: OverflowPolicy,
    pub bound: BoundPolicy,
}

impl MemSnapshot {
    /// A tape is well formed when it has at least one cell, the pointer is on
    /// the tape, and every cell holds a value of the representable range
    /// `[0, cell_max]`.
    pub open spec fn wf(self) -> bool {
        &&& 1 <= self.cells.len()
        &&& 0 <= self.ptr < self.cells.len()
        &&& 0 <= self.cell_max <= i32::MAX
        &&& forall|i: int|
            0 <= i < self.cells.len() ==> 0 <= #[trigger] self.cells[i] <= self.cell_max
    }

    /// The number of representable cell values.
    pub open spec fn range(self) -> int {
        self.cell_max + 1
    }

    /// The value of the cell under the pointer.
    pub open spec fn cur(self) -> int {
        self.cells[self.ptr] as int
    }
}

/// What `Memory::set` computes: the written value is kept if representable,
/// wrapped modulo the range size under the wrap policy, and rejected with
/// `Overflow` under the strict policy.
pub open spec fn spec_set(m: MemSnapshot, value: int) -> Result<MemSnapshot, MemoryError> {
    if 0 <= value <= m.cell_max {
        Ok(MemSnapshot { cells: m.cells.update(m.ptr, value as i32), ..m })
    } else if m.overflow is Wrap {
        Ok(MemSnapshot { cells: m.cells.update(m.ptr, (value % m.range()) as i32), ..m })
    } else {
        Err(MemoryError::Overflow)
    }
}

/// What `Memory::add` computes: a write of the current cell plus the delta.
pub open spec fn spec_add(m: MemSnapshot, delta: int) -> Result<MemSnapshot, MemoryError> {
    spec_set(m, m.cur() + delta)
}

/// What `Memory::seek` computes: the moved pointer is kept if it stays on the
/// tape, wrapped modulo the tape length under the wrap policy, and rejected
/// with `OutOfBound` under the strict policy.
pub open spec fn spec_seek(m: MemSnapshot, offset: int) -> Result<MemSnapshot, MemoryError> {
    let p = m.ptr + offset;
    if 0 <= p < m.cells.len() {
        Ok(MemSnapshot { ptr: p, ..m })
    } else if m.bound is Wrap {
        Ok(MemSnapshot { ptr: p % m.cells.len() as int, ..m })
    } else {
        Err(MemoryError::OutOfBound)
    }
}

/// Relates one executed memory operation to its mathematical outcome `step`:
/// on success the tape becomes exactly the computed snapshot, on failure the
/// tape is unchanged and the computed error is returned.
pub open spec fn mem_result(
    pre: MemSnapshot,
    post: MemSnapshot,
    r: Result<(), MemoryError>,
    step: Result<MemSnapshot, MemoryError>,
) -> bool {
    match step {
        Ok(m) => r is Ok && post == m,
        Err(e) => r == Err::<(), MemoryError>(e) && post == pre,
    }
}

/// The memory tape.
pub struct Memory {
    cells: Vec<i32>,
    ptr: usize,
    cell_max: i32,
    overflow: OverflowPolicy,
    bound: BoundPolicy,
}

impl View for Memory {
    type V = MemSnapshot;

    closed spec fn view(&self) -> MemSnapshot {
        MemSnapshot {
            cells: self.cells@,
            ptr: self.ptr as int,
            cell_max: self.cell_max as int,
            overflow: self.overflow,
            bound: self.bound,
        }
    }
}

/// The Euclidean remainder of `v` modulo `m`, always in `[0, m)`.
fn euclid_rem(v: i128, m: i128) -> (r: i128)
    requires
        1 <= m,
    ensures
        r == v as int % m as int,
        0 <= r < m,
{
    if v >= 0 {
        v % m
    } else {
        let t = (-(v + 1)) % m;
        proof {
            let n = -(v + 1) as int;
            let mi = m as int;
            vstd::arithmetic::div_mod::lemma_fundamental_div_mod(n, mi);
            vstd::arithmetic::div_mod::lemma_mod_multiples_vanish(
                -(n / mi) - 1,
                mi - 1 - t as int,
                mi,
            );
            vstd::arithmetic::div_mod::lemma_small_mod((mi - 1 - t) as nat, m as nat);
            let q = n / mi;
            assert(n == mi * q + t);
            assert(v as int == mi * (-q - 1) + (mi - 1 - t)) by (nonlinear_arith)
                requires
                    n == mi * q + t as int,
                    v as int == -(n + 1),
            ;
        }
        m - 1 - t
    }
}

impl Memory {
    /// Builds a zeroed tape of `length` cells with the pointer on cell 0.
    pub fn new(length: usize, cell_max: i32, overflow: OverflowPolicy, bound: BoundPolicy) -> (m:
        Memory)
        requires
            1 <= length,
            0 <= cell_max,
        ensures
            m@ == (MemSnapshot {
                cells: Seq::new(length as nat, |i: int| 0i32),
                ptr: 0,
                cell_max: cell_max as int,
                overflow,
                bound,
            }),
            m@.wf(),
    {
        let mut cells: Vec<i32> = Vec::new();
        let mut i: usize = 0;
        while i < length
            invariant
                i <= length,
                cells@ =~= Seq::new(i as nat, |j: int| 0i32),
            decreases length - i,
        {
            cells.push(0);
            i = i + 1;
        }
        let m = Memory { cells, ptr: 0, cell_max, overflow, bound };
        proof {
            assert(m@ =~= MemSnapshot {
                cells: Seq::new(length as nat, |i: int| 0i32),
                ptr: 0,
                cell_max: cell_max as int,
                overflow,
                bound,
            });
        }
        m
    }

    /// The number of cells on the tape.
    pub fn len(&self) -> (n: usize)
        ensures
            n == self@.cells.len(),
    {
        self.cells.len()
    }

    /// The current pointer position.
    pub fn pointer(&self) -> (p: usize)
        ensures
            p == self@.ptr,
    {
        self.ptr
    }

    /// The value of the cell at position `i`, for inspection.
    pub fn cell_at(&self, i: usize) -> (v: i32)
        requires
            i < self@.cells.len(),
        ensures
            v == self@.cells[i as int],
    {
        self.cells[i]
    }

    /// Reads the cell under the pointer; never fails.
    pub fn get(&self) -> (v: i32)
        requires
            self@.wf(),
        ensures
            v == self@.cells[self@.ptr],
    {
        self.cells[self.ptr]
    }

    /// Writes `value` into the cell under the pointer, subject to the
    /// overflow policy.
    pub fn set(&mut self, value: i32) -> (r: Result<(), MemoryError>)
        requires
            old(self)@.wf(),
        ensures
            final(self)@.wf(),
            mem_result(old(self)@, final(self)@, r, spec_set(old(self)@, value as int)),
    {
        self.store(value as i128)
    }

    /// Adds `delta` to the cell under the pointer, subject to the overflow
    /// policy.
    pub fn add(&mut self, delta: i64) -> (r: Result<(), MemoryError>)
        requires
            old(self)@.wf(),
        ensures
            final(self)@.wf(),
            mem_result(old(self)@, final(self)@, r, spec_add(old(self)@, delta as int)),
    {
        let cur = self.cells[self.ptr];
        self.store(cur as i128 + delta as i128)
    }

    /// Writes the mathematical value `value` into the cell under the pointer,
    /// applying the overflow policy.
    fn store(&mut self, value: i128) -> (r: Result<(), MemoryError>)
        requires
            old(self)@.wf(),
        ensures
            final(self)@.wf(),
            mem_result(old(self)@, final(self)@, r, spec_set(old(self)@, value as int)),
    {
        if 0 <= value && value <= self.cell_max as i128 {
            self.cells[self.ptr] = value as i32;
            proof {
                assert(final(self)@ =~= spec_set(old(self)@, value as int).unwrap());
            }
            Ok(())
        } else {
            match self.overflow {
                OverflowPolicy::Wrap => {
                    let range = self.cell_max as i128 + 1;
                    let w = euclid_rem(value, range);
                    self.cells[self.ptr] = w as i32;
                    proof {
                        assert(final(self)@ =~= spec_set(old(self)@, value as int).unwrap());
                    }
                    Ok(())
                },
                OverflowPolicy::Strict => Err(MemoryError::Overflow),
            }
        }
    }

    /// Moves the pointer by the signed `offset`, subject to the bound policy.
    pub fn seek(&mut self, offset: i64) -> (r: Result<(), MemoryError>)
        requires
            old(self)@.wf(),
        ensures
            final(self)@.wf(),
            mem_result(old(self)@, final(self)@, r, spec_seek(old(self)@, offset as int)),
    {
        let p = self.ptr as i128 + offset as i128;
        let len = self.cells.len();
        if 0 <= p && p < len as i128 {
            self.ptr = p as usize;
            Ok(())
        } else {
            match self.bound {
                BoundPolicy::Wrap => {
                    let w = euclid_rem(p, len as i128);
                    self.ptr = w as usize;
                    Ok(())
                },
                BoundPolicy::Strict => Err(MemoryError::OutOfBound),
            }
        }
    }
}

} // verus!
