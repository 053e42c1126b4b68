//! The tape: a sequence of byte cells, a pointer, and two independently
//! configurable overflow behaviours (cell arithmetic, pointer movement).
//!
//! Every fault is reported as a value; the tape never panics and never
//! silently corrupts a cell. The spec functions in this module are the single
//! definition of what each operation does; the evaluator in
//! [`crate::semantics`] reuses them, so the executable tape and the
//! mathematical semantics agree by construction.

use vstd::prelude::*;

use crate::errors::{Fault, SpecFault};
use crate::flags::TapeFlags;

verus! {

/// Behaviour of pointer movement at a tape boundary.
#[derive(Copy, Clone, Debug, PartialEq, Eq, Structural)]
pub enum TapeMode {
    /// The pointer wraps modulo the current tape length.
    Circular,
    /// The tape grows by exactly the requested distance at the boundary being
    /// crossed; the pointer lands inside the newly created region.
    Append,
    /// Movement past a boundary fails with a `PointerRange` fault.
    Panic,
}

/// Behaviour of cell arithmetic at the byte range boundary.
#[derive(Copy, Clone, Debug, PartialEq, Eq, Structural)]
pub enum CellMode {
    /// Values wrap modulo 256.
    Circular,
    /// Values saturate: underflow stops at 0, overflow stops at 255.
    Nothing,
    /// Out-of-range arithmetic fails with a `CellRange` fault.
    Panic,
}

/// `n` zero cells.
pub open spec fn zero_cells(n: nat) -> Seq<u8> {
    Seq::new(n, |i: int| 0u8)
}

/// Whether adding `count` to a cell holding `value` succeeds under `mode`.
pub open spec fn cell_add_ok(mode: CellMode, value: u8, count: nat) -> bool {
    mode != CellMode::Panic || value + count <= 255
}

/// The cell value after a successful addition.
pub open spec fn cell_add_value(mode: CellMode, value: u8, count: nat) -> u8 {
    match mode {
        CellMode::Circular => (((value + count) % 256) as u8),
        CellMode::Nothing => if value + count > 255 {
            255u8
        } else {
            ((value + count) as u8)
        },
        CellMode::Panic => if value + count <= 255 {
            ((value + count) as u8)
        } else {
            value
        },
    }
}

/// Whether subtracting `count` from a cell holding `value` succeeds under
/// `mode`.
pub open spec fn cell_sub_ok(mode: CellMode, value: u8, count: nat) -> bool {
    mode != CellMode::Panic || count <= value
}

/// The cell value after a successful subtraction.
pub open spec fn cell_sub_value(mode: CellMode, value: u8, count: nat) -> u8 {
    match mode {
        CellMode::Circular => (((value - count) % 256) as u8),
        CellMode::Nothing => if count > value {
            0u8
        } else {
            ((value - count) as u8)
        },
        CellMode::Panic => if count <= value {
            ((value - count) as u8)
        } else {
            value
        },
    }
}

/// Whether moving the pointer left by `count` succeeds.
///
/// Under `Append`, growth prepends `count` cells, so it is possible only
/// while the grown length still fits in a machine word.
pub open spec fn ptr_left_ok(mode: TapeMode, len: int, pointer: int, count: nat) -> bool {
    match mode {
        TapeMode::Circular => true,
        TapeMode::Append => pointer >= count || len + count <= usize::MAX,
        TapeMode::Panic => count <= pointer,
    }
}

/// The pointer after a successful left move.
pub open spec fn ptr_left_pointer(mode: TapeMode, len: int, pointer: int, count: nat) -> int {
    match mode {
        TapeMode::Circular => (pointer - count) % len,
        TapeMode::Append => if pointer >= count {
            pointer - count
        } else {
            0
        },
        TapeMode::Panic => pointer - count,
    }
}

/// The cells after a successful left move (grown only under `Append` when the
/// left boundary is crossed).
pub open spec fn ptr_left_cells(mode: TapeMode, cells: Seq<u8>, pointer: int, count: nat) -> Seq<
    u8,
> {
    if mode == TapeMode::Append && pointer < count {
        zero_cells(count) + cells
    } else {
        cells
    }
}

/// The fault reported by a failed left move.
pub open spec fn ptr_left_fault(mode: TapeMode, len: int, pointer: int, count: nat) -> SpecFault {
    if mode == TapeMode::Append {
        SpecFault::PointerRange { limit: usize::MAX as int, distance: count, pointer }
    } else {
        SpecFault::PointerRange { limit: 0, distance: count, pointer }
    }
}

/// Whether moving the pointer right by `count` succeeds.
pub open spec fn ptr_right_ok(mode: TapeMode, len: int, pointer: int, count: nat) -> bool {
    match mode {
        TapeMode::Circular => true,
        TapeMode::Append => pointer + count < len || len + count <= usize::MAX,
        TapeMode::Panic => pointer + count < len,
    }
}

/// The pointer after a successful right move.
pub open spec fn ptr_right_pointer(mode: TapeMode, len: int, pointer: int, count: nat) -> int {
    match mode {
        TapeMode::Circular => (pointer + count) % len,
        TapeMode::Append => pointer + count,
        TapeMode::Panic => pointer + count,
    }
}

/// The cells after a successful right move (grown only under `Append` when
/// the right boundary is crossed).
pub open spec fn ptr_right_cells(mode: TapeMode, cells: Seq<u8>, pointer: int, count: nat) -> Seq<
    u8,
> {
    if mode == TapeMode::Append && pointer + count >= cells.len() {
        cells + zero_cells(count)
    } else {
        cells
    }
}

/// The fault reported by a failed right move.
pub open spec fn ptr_right_fault(mode: TapeMode, len: int, pointer: int, count: nat) -> SpecFault {
    if mode == TapeMode::Append {
        SpecFault::PointerRange { limit: usize::MAX as int, distance: count, pointer }
    } else {
        SpecFault::PointerRange { limit: len, distance: count, pointer }
    }
}

/// The memory a program operates on.
pub struct Tape {
    cells: Vec<u8>,
    tape_behaviour: TapeMode,
    cell_behaviour: CellMode,
    pointer: usize,
}

/// A zero-filled byte vector of the given length.
fn zeros(size: usize) -> (r: Vec<u8>)
    ensures
        r@ == zero_cells(size as nat),
{
    let mut out: Vec<u8> = Vec::new();
    let mut i: usize = 0;
    while i < size
        invariant
            i <= size,
            out@ == zero_cells(i as nat),
        decreases size - i,
    {
        out.push(0u8);
        i += 1;
        proof {
            assert(out@ =~= zero_cells(i as nat));
        }
    }
    out
}

impl Tape {
    /// The cells, as a mathematical sequence of bytes.
    pub closed spec fn spec_cells(&self) -> Seq<u8> {
        self.cells@
    }

    /// The pointer, as a mathematical integer.
    pub closed spec fn spec_pointer(&self) -> int {
        self.pointer as int
    }

    /// The configured pointer-movement behaviour.
    pub closed spec fn spec_tape_mode(&self) -> TapeMode {
        self.tape_behaviour
    }

    /// The configured cell-arithmetic behaviour.
    pub closed spec fn spec_cell_mode(&self) -> CellMode {
        self.cell_behaviour
    }

    /// Well-formedness: at least one cell, and the pointer inside the tape.
    pub open spec fn wf(&self) -> bool {
        &&& 1 <= self.spec_cells().len() <= usize::MAX
        &&& 0 <= self.spec_pointer() < self.spec_cells().len()
    }

    /// Both behaviours unchanged between two tape values.
    pub open spec fn same_modes(&self, other: &Tape) -> bool {
        &&& self.spec_tape_mode() == other.spec_tape_mode()
        &&& self.spec_cell_mode() == other.spec_cell_mode()
    }

    pub fn new(flags: TapeFlags) -> (r: Self)
        requires
            flags.tape_size >= 1,
        ensures
            r.wf(),
            r.spec_cells() == zero_cells(flags.tape_size as nat),
            r.spec_pointer() == 0,
            r.spec_tape_mode() == flags.tape_mode,
            r.spec_cell_mode() == flags.cell_mode,
    {
        Tape {
            cells: zeros(flags.tape_size),
            tape_behaviour: flags.tape_mode,
            cell_behaviour: flags.cell_mode,
            pointer: 0,
        }
    }

    /// Moves the pointer back to address 0.
    pub fn realign(&mut self)
        ensures
            final(self).spec_cells() == old(self).spec_cells(),
            final(self).spec_pointer() == 0,
            old(self).same_modes(final(self)),
    {
        self.pointer = 0;
    }

    /// Zeroes every cell; the length is unchanged.
    pub fn clear(&mut self)
        ensures
            final(self).spec_cells() == zero_cells(old(self).spec_cells().len()),
            final(self).spec_pointer() == old(self).spec_pointer(),
            old(self).same_modes(final(self)),
    {
        let len = self.cells.len();
        let mut i: usize = 0;
        while i < len
            invariant
                i <= len,
                self.cells@.len() == len,
                forall|j: int| 0 <= j < i ==> self.cells@[j] == 0u8,
                forall|j: int| i <= j < len ==> self.cells@[j] == old(self).cells@[j],
                self.pointer == old(self).pointer,
                self.tape_behaviour == old(self).tape_behaviour,
                self.cell_behaviour == old(self).cell_behaviour,
            decreases len - i,
        {
            self.cells[i] = 0u8;
            i += 1;
        }
        proof {
            assert(self.cells@ =~= zero_cells(old(self).spec_cells().len()));
        }
    }

    /// The value of the cell under the pointer.
    pub fn get_value(&self) -> (r: u8)
        requires
            self.wf(),
        ensures
            r == self.spec_cells()[self.spec_pointer()],
    {
        self.cells[self.pointer]
    }

    /// The value of the cell at `address`.
    pub fn get_value_at_index(&self, address: usize) -> (r: u8)
        requires
            address < self.spec_cells().len(),
        ensures
            r == self.spec_cells()[address as int],
    {
        self.cells[address]
    }

    /// Overwrites the cell at `address`.
    pub fn set_value_at_index(&mut self, address: usize, value: u8)
        requires
            address < old(self).spec_cells().len(),
        ensures
            final(self).spec_cells() == old(self).spec_cells().update(address as int, value),
            final(self).spec_pointer() == old(self).spec_pointer(),
            old(self).same_modes(final(self)),
    {
        self.cells[address] = value;
    }

    /// Overwrites the cell under the pointer.
    pub fn set_value(&mut self, value: u8)
        requires
            old(self).wf(),
        ensures
            final(self).spec_cells() == old(self).spec_cells().update(
                old(self).spec_pointer(),
                value,
            ),
            final(self).spec_pointer() == old(self).spec_pointer(),
            old(self).same_modes(final(self)),
    {
        let p = self.pointer;
        self.cells[p] = value;
    }

    /// The current pointer.
    pub fn get_pointer(&self) -> (r: usize)
        ensures
            r as int == self.spec_pointer(),
    {
        self.pointer
    }

    /// Moves the pointer directly to `value`.
    pub fn set_pointer(&mut self, value: usize)
        requires
            (value as int) < old(self).spec_cells().len(),
        ensures
            final(self).spec_cells() == old(self).spec_cells(),
            final(self).spec_pointer() == value as int,
            old(self).same_modes(final(self)),
    {
        self.pointer = value;
    }

    /// The current number of cells.
    pub fn size(&self) -> (r: usize)
        ensures
            r as int == self.spec_cells().len(),
    {
        self.cells.len()
    }

    /// Adds `count` to the cell under the pointer, under the configured cell
    /// behaviour.
    pub fn add(&mut self, count: usize) -> (r: Result<(), Fault>)
        requires
            old(self).wf(),
        ensures
            final(self).wf(),
            old(self).same_modes(final(self)),
            final(self).spec_pointer() == old(self).spec_pointer(),
            final(self).spec_cells().len() == old(self).spec_cells().len(),
            match r {
                Ok(()) => {
                    &&& cell_add_ok(
                        old(self).spec_cell_mode(),
                        old(self).spec_cells()[old(self).spec_pointer()],
                        count as nat,
                    )
                    &&& final(self).spec_cells() == old(self).spec_cells().update(
                        old(self).spec_pointer(),
                        cell_add_value(
                            old(self).spec_cell_mode(),
                            old(self).spec_cells()[old(self).spec_pointer()],
                            count as nat,
                        ),
                    )
                },
                Err(f) => {
                    &&& !cell_add_ok(
                        old(self).spec_cell_mode(),
                        old(self).spec_cells()[old(self).spec_pointer()],
                        count as nat,
                    )
                    &&& final(self).spec_cells() == old(self).spec_cells()
                    &&& f@ == (SpecFault::CellRange {
                        address: old(self).spec_pointer(),
                        value: old(self).spec_cells()[old(self).spec_pointer()],
                        delta: count as nat,
                    })
                },
            },
    {
        let p = self.pointer;
        let v = self.cells[p];
        match self.cell_behaviour {
            CellMode::Circular => {
                let c: usize = count % 256;
                let s: usize = v as usize + c;
                proof {
                    vstd::arithmetic::div_mod::lemma_add_mod_noop(v as int, count as int, 256);
                    vstd::arithmetic::div_mod::lemma_small_mod(v as nat, 256);
                }
                self.cells[p] = (s % 256) as u8;
                Ok(())
            },
            CellMode::Nothing => {
                if count > (255 - v) as usize {
                    self.cells[p] = 255u8;
                } else {
                    self.cells[p] = v + (count as u8);
                }
                Ok(())
            },
            CellMode::Panic => {
                if count > (255 - v) as usize {
                    Err(Fault::CellRange { address: p, value: v, delta: count })
                } else {
                    self.cells[p] = v + (count as u8);
                    Ok(())
                }
            },
        }
    }

    /// Subtracts `count` from the cell under the pointer, under the
    /// configured cell behaviour.
    pub fn sub(&mut self, count: usize) -> (r: Result<(), Fault>)
        requires
            old(self).wf(),
        ensures
            final(self).wf(),
            old(self).same_modes(final(self)),
            final(self).spec_pointer() == old(self).spec_pointer(),
            final(self).spec_cells().len() == old(self).spec_cells().len(),
            match r {
                Ok(()) => {
                    &&& cell_sub_ok(
                        old(self).spec_cell_mode(),
                        old(self).spec_cells()[old(self).spec_pointer()],
                        count as nat,
                    )
                    &&& final(self).spec_cells() == old(self).spec_cells().update(
                        old(self).spec_pointer(),
                        cell_sub_value(
                            old(self).spec_cell_mode(),
                            old(self).spec_cells()[old(self).spec_pointer()],
                            count as nat,
                        ),
                    )
                },
                Err(f) => {
                    &&& !cell_sub_ok(
                        old(self).spec_cell_mode(),
                        old(self).spec_cells()[old(self).spec_pointer()],
                        count as nat,
                    )
                    &&& final(self).spec_cells() == old(self).spec_cells()
                    &&& f@ == (SpecFault::CellRange {
                        address: old(self).spec_pointer(),
                        value: old(self).spec_cells()[old(self).spec_pointer()],
                        delta: count as nat,
                    })
                },
            },
    {
        let p = self.pointer;
        let v = self.cells[p];
        match self.cell_behaviour {
            CellMode::Circular => {
                let c: usize = count % 256;
                proof {
                    vstd::arithmetic::div_mod::lemma_sub_mod_noop(v as int, count as int, 256);
                    vstd::arithmetic::div_mod::lemma_small_mod(v as nat, 256);
                    if c > v {
                        vstd::arithmetic::div_mod::lemma_mod_add_multiples_vanish(
                            v as int - c as int,
                            256,
                        );
                        vstd::arithmetic::div_mod::lemma_small_mod((v + 256 - c) as nat, 256);
                    } else {
                        vstd::arithmetic::div_mod::lemma_small_mod((v - c) as nat, 256);
                    }
                }
                if (c as usize) > v as usize {
                    self.cells[p] = ((v as usize + 256) - c) as u8;
                } else {
                    self.cells[p] = v - (c as u8);
                }
                Ok(())
            },
            CellMode::Nothing => {
                if count > v as usize {
                    self.cells[p] = 0u8;
                } else {
                    self.cells[p] = v - (count as u8);
                }
                Ok(())
            },
            CellMode::Panic => {
                if count > v as usize {
                    Err(Fault::CellRange { address: p, value: v, delta: count })
                } else {
                    self.cells[p] = v - (count as u8);
                    Ok(())
                }
            },
        }
    }

    /// Moves the pointer `count` cells to the left, under the configured
    /// pointer behaviour.
    pub fn left(&mut self, count: usize) -> (r: Result<(), Fault>)
        requires
            old(self).wf(),
        ensures
            final(self).wf(),
            old(self).same_modes(final(self)),
            match r {
                Ok(()) => {
                    &&& ptr_left_ok(
                        old(self).spec_tape_mode(),
                        old(self).spec_cells().len() as int,
                        old(self).spec_pointer(),
                        count as nat,
                    )
                    &&& final(self).spec_cells() == ptr_left_cells(
                        old(self).spec_tape_mode(),
                        old(self).spec_cells(),
                        old(self).spec_pointer(),
                        count as nat,
                    )
                    &&& final(self).spec_pointer() == ptr_left_pointer(
                        old(self).spec_tape_mode(),
                        old(self).spec_cells().len() as int,
                        old(self).spec_pointer(),
                        count as nat,
                    )
                },
                Err(f) => {
                    &&& !ptr_left_ok(
                        old(self).spec_tape_mode(),
                        old(self).spec_cells().len() as int,
                        old(self).spec_pointer(),
                        count as nat,
                    )
                    &&& final(self).spec_cells() == old(self).spec_cells()
                    &&& final(self).spec_pointer() == old(self).spec_pointer()
                    &&& f@ == ptr_left_fault(
                        old(self).spec_tape_mode(),
                        old(self).spec_cells().len() as int,
                        old(self).spec_pointer(),
                        count as nat,
                    )
                },
            },
    {
        match self.tape_behaviour {
            TapeMode::Circular => {
                let len = self.cells.len();
                let c: usize = count % len;
                proof {
                    vstd::arithmetic::div_mod::lemma_sub_mod_noop(
                        self.pointer as int,
                        count as int,
                        len as int,
                    );
                    vstd::arithmetic::div_mod::lemma_small_mod(self.pointer as nat, len as nat);
                    if c > self.pointer {
                        vstd::arithmetic::div_mod::lemma_mod_add_multiples_vanish(
                            self.pointer as int - c as int,
                            len as int,
                        );
                        vstd::arithmetic::div_mod::lemma_small_mod(
                            (self.pointer + len - c) as nat,
                            len as nat,
                        );
                    } else {
                        vstd::arithmetic::div_mod::lemma_small_mod(
                            (self.pointer - c) as nat,
                            len as nat,
                        );
                    }
                }
                if c > self.pointer {
                    self.pointer = self.pointer + (len - c);
                } else {
                    self.pointer = self.pointer - c;
                }
                Ok(())
            },
            TapeMode::Append => {
                if self.pointer >= count {
                    self.pointer = self.pointer - count;
                    Ok(())
                } else {
                    let len = self.cells.len();
                    if len > usize::MAX - count {
                        Err(
                            Fault::PointerRange {
                                limit: usize::MAX,
                                distance: count,
                                pointer: self.pointer,
                            },
                        )
                    } else {
                        let mut grown = zeros(count);
                        let mut i: usize = 0;
                        while i < len
                            invariant
                                i <= len,
                                len + count <= usize::MAX,
                                self.cells@.len() == len,
                                grown@ == zero_cells(count as nat) + self.cells@.subrange(
                                    0,
                                    i as int,
                                ),
                            decreases len - i,
                        {
                            let b = self.cells[i];
                            grown.push(b);
                            i += 1;
                            proof {
                                assert(grown@ =~= zero_cells(count as nat)
                                    + self.cells@.subrange(0, i as int));
                            }
                        }
                        proof {
                            assert(grown@ =~= zero_cells(count as nat) + self.cells@);
                        }
                        self.cells = grown;
                        self.pointer = 0;
                        Ok(())
                    }
                }
            },
            TapeMode::Panic => {
                if count > self.pointer {
                    Err(Fault::PointerRange { limit: 0, distance: count, pointer: self.pointer })
                } else {
                    self.pointer = self.pointer - count;
                    Ok(())
                }
            },
        }
    }

    /// Moves the pointer `count` cells to the right, under the configured
    /// pointer behaviour.
    pub fn right(&mut self, count: usize) -> (r: Result<(), Fault>)
        requires
            old(self).wf(),
        ensures
            final(self).wf(),
            old(self).same_modes(final(self)),
            match r {
                Ok(()) => {
                    &&& ptr_right_ok(
                        old(self).spec_tape_mode(),
                        old(self).spec_cells().len() as int,
                        old(self).spec_pointer(),
                        count as nat,
                    )
                    &&& final(self).spec_cells() == ptr_right_cells(
                        old(self).spec_tape_mode(),
                        old(self).spec_cells(),
                        old(self).spec_pointer(),
                        count as nat,
                    )
                    &&& final(self).spec_pointer() == ptr_right_pointer(
                        old(self).spec_tape_mode(),
                        old(self).spec_cells().len() as int,
                        old(self).spec_pointer(),
                        count as nat,
                    )
                },
                Err(f) => {
                    &&& !ptr_right_ok(
                        old(self).spec_tape_mode(),
                        old(self).spec_cells().len() as int,
                        old(self).spec_pointer(),
                        count as nat,
                    )
                    &&& final(self).spec_cells() == old(self).spec_cells()
                    &&& final(self).spec_pointer() == old(self).spec_pointer()
                    &&& f@ == ptr_right_fault(
                        old(self).spec_tape_mode(),
                        old(self).spec_cells().len() as int,
                        old(self).spec_pointer(),
                        count as nat,
                    )
                },
            },
    {
        match self.tape_behaviour {
            TapeMode::Circular => {
                let len = self.cells.len();
                let c: usize = count % len;
                proof {
                    vstd::arithmetic::div_mod::lemma_add_mod_noop(
                        self.pointer as int,
                        count as int,
                        len as int,
                    );
                    vstd::arithmetic::div_mod::lemma_small_mod(self.pointer as nat, len as nat);
                    if c <= (len - 1) - self.pointer {
                        vstd::arithmetic::div_mod::lemma_small_mod(
                            (self.pointer + c) as nat,
                            len as nat,
                        );
                    } else {
                        vstd::arithmetic::div_mod::lemma_mod_add_multiples_vanish(
                            self.pointer + c as int - len as int,
                            len as int,
                        );
                        vstd::arithmetic::div_mod::lemma_small_mod(
                            (self.pointer + c - len) as nat,
                            len as nat,
                        );
                    }
                }
                if c <= (len - 1) - self.pointer {
                    self.pointer = self.pointer + c;
                } else {
                    self.pointer = self.pointer - (len - c);
                }
                Ok(())
            },
            TapeMode::Append => {
                let len = self.cells.len();
                if count <= (len - 1) - self.pointer {
                    self.pointer = self.pointer + count;
                    Ok(())
                } else {
                    if len > usize::MAX - count {
                        Err(
                            Fault::PointerRange {
                                limit: usize::MAX,
                                distance: count,
                                pointer: self.pointer,
                            },
                        )
                    } else {
                        let mut i: usize = 0;
                        while i < count
                            invariant
                                i <= count,
                                len + count <= usize::MAX,
                                self.cells@ == old(self).cells@ + zero_cells(i as nat),
                                self.pointer == old(self).pointer,
                                self.tape_behaviour == old(self).tape_behaviour,
                                self.cell_behaviour == old(self).cell_behaviour,
                            decreases count - i,
                        {
                            self.cells.push(0u8);
                            i += 1;
                            proof {
                                assert(self.cells@ =~= old(self).cells@ + zero_cells(i as nat));
                            }
                        }
                        self.pointer = self.pointer + count;
                        Ok(())
                    }
                }
            },
            TapeMode::Panic => {
                let len = self.cells.len();
                if count <= (len - 1) - self.pointer {
                    self.pointer = self.pointer + count;
                    Ok(())
                } else {
                    Err(
                        Fault::PointerRange {
                            limit: len,
                            distance: count,
                            pointer: self.pointer,
                        },
                    )
                }
            },
        }
    }
}

impl Default for Tape {
    /// A 30000-cell tape, all cells zero, pointer at 0, both behaviours
    /// `Circular`.
    fn default() -> (r: Self)
        ensures
            r.wf(),
            r.spec_cells() == zero_cells(30000),
            r.spec_pointer() == 0,
            r.spec_tape_mode() == TapeMode::Circular,
            r.spec_cell_mode() == CellMode::Circular,
    {
        Tape {
            cells: zeros(30000),
            tape_behaviour: TapeMode::Circular,
            cell_behaviour: CellMode::Circular,
            pointer: 0,
        }
    }
}

} // verus!
