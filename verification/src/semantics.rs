//! The meaning of a program, written down once.
//!
//! [`eval_spanned`] and [`eval_list`] form a fuel-indexed big-step evaluator
//! over the mathematical instruction tree: the fuel bounds the number of loop
//! passes, and a run that needs more fuel (or waits forever for input) comes
//! out as [`SpecRes::Pending`]. The executor in [`crate::machine`] is proved
//! to return exactly what some fuel makes the evaluator return, and the
//! optimizer is proved to leave the evaluator's verdict unchanged.

use vstd::prelude::*;

use crate::alias::{alias_in_range, alias_lookup, spec_free_slot};
use crate::ast::{SpecInstruction, SpecSpanned};
use crate::errors::SpecFault;
use crate::span::Span;
use crate::tape::{
    cell_add_ok, cell_add_value, cell_sub_ok, cell_sub_value, ptr_left_cells, ptr_left_fault,
    ptr_left_ok, ptr_left_pointer, ptr_right_cells, ptr_right_fault, ptr_right_ok,
    ptr_right_pointer, zero_cells, CellMode, TapeMode,
};

verus! {

/// The whole machine state, as the evaluator sees it: the tape, the alias
/// bindings, the input not yet consumed, and the output produced so far.
pub struct SpecState {
    pub cells: Seq<u8>,
    pub pointer: int,
    pub aliases: Seq<(Seq<u8>, int)>,
    pub input: Seq<u8>,
    pub output: Seq<u8>,
}

/// Per-run configuration: the two overflow behaviours and whether aliases
/// are bound on first use instead of up front.
pub struct SpecConfig {
    pub cell_mode: CellMode,
    pub tape_mode: TapeMode,
    pub lazy_alloc: bool,
}

/// A well-formed state: a nonempty tape that fits the machine, the pointer
/// inside it, and every alias binding inside it.
pub open spec fn state_wf(st: SpecState) -> bool {
    &&& 1 <= st.cells.len() <= usize::MAX
    &&& 0 <= st.pointer < st.cells.len()
    &&& alias_in_range(st.aliases, st.cells.len() as int)
}

/// Outcome of evaluating with a given amount of fuel.
pub enum SpecRes {
    /// The run completed, in this state.
    Done(SpecState),
    /// The run stopped at a fault, in this state, with the fault and the
    /// span of the instruction that raised it.
    Fault(SpecState, SpecFault, Span),
    /// The run did not complete: it needs more fuel, or it is waiting for
    /// input that never arrives.
    Pending,
}

/// One `Add` step.
pub open spec fn eval_add(cfg: SpecConfig, st: SpecState, n: nat, sp: Span) -> SpecRes {
    let v = st.cells[st.pointer];
    if cell_add_ok(cfg.cell_mode, v, n) {
        SpecRes::Done(
            SpecState {
                cells: st.cells.update(st.pointer, cell_add_value(cfg.cell_mode, v, n)),
                ..st
            },
        )
    } else {
        SpecRes::Fault(st, SpecFault::CellRange { address: st.pointer, value: v, delta: n }, sp)
    }
}

/// One `Subtract` step.
pub open spec fn eval_sub(cfg: SpecConfig, st: SpecState, n: nat, sp: Span) -> SpecRes {
    let v = st.cells[st.pointer];
    if cell_sub_ok(cfg.cell_mode, v, n) {
        SpecRes::Done(
            SpecState {
                cells: st.cells.update(st.pointer, cell_sub_value(cfg.cell_mode, v, n)),
                ..st
            },
        )
    } else {
        SpecRes::Fault(st, SpecFault::CellRange { address: st.pointer, value: v, delta: n }, sp)
    }
}

/// One `Left` step.
pub open spec fn eval_left(cfg: SpecConfig, st: SpecState, n: nat, sp: Span) -> SpecRes {
    let len = st.cells.len() as int;
    if ptr_left_ok(cfg.tape_mode, len, st.pointer, n) {
        SpecRes::Done(
            SpecState {
                cells: ptr_left_cells(cfg.tape_mode, st.cells, st.pointer, n),
                pointer: ptr_left_pointer(cfg.tape_mode, len, st.pointer, n),
                ..st
            },
        )
    } else {
        SpecRes::Fault(st, ptr_left_fault(cfg.tape_mode, len, st.pointer, n), sp)
    }
}

/// One `Right` step.
pub open spec fn eval_right(cfg: SpecConfig, st: SpecState, n: nat, sp: Span) -> SpecRes {
    let len = st.cells.len() as int;
    if ptr_right_ok(cfg.tape_mode, len, st.pointer, n) {
        SpecRes::Done(
            SpecState {
                cells: ptr_right_cells(cfg.tape_mode, st.cells, st.pointer, n),
                pointer: ptr_right_pointer(cfg.tape_mode, len, st.pointer, n),
                ..st
            },
        )
    } else {
        SpecRes::Fault(st, ptr_right_fault(cfg.tape_mode, len, st.pointer, n), sp)
    }
}

/// One `Input` step: consumes the next input byte, or stays pending forever
/// when no byte will ever arrive.
pub open spec fn eval_input(st: SpecState) -> SpecRes {
    if st.input.len() == 0 {
        SpecRes::Pending
    } else {
        SpecRes::Done(
            SpecState {
                cells: st.cells.update(st.pointer, st.input[0]),
                input: st.input.drop_first(),
                ..st
            },
        )
    }
}

/// One `Output` step.
pub open spec fn eval_output(st: SpecState) -> SpecRes {
    SpecRes::Done(SpecState { output: st.output.push(st.cells[st.pointer]), ..st })
}

/// One `Goto` step: moves the pointer to the bound address, allocating on
/// first use in lazy mode; an unbound name outside lazy mode is an
/// internal-consistency fault.
pub open spec fn eval_goto(cfg: SpecConfig, st: SpecState, name: Seq<u8>, sp: Span) -> SpecRes {
    match alias_lookup(st.aliases, name) {
        Some(a) => SpecRes::Done(SpecState { pointer: a, ..st }),
        None => if cfg.lazy_alloc {
            match spec_free_slot(st.cells, st.aliases, st.cells.len()) {
                Some(a) => SpecRes::Done(
                    SpecState { pointer: a, aliases: st.aliases.push((name, a)), ..st },
                ),
                None => SpecRes::Fault(st, SpecFault::TapeFull { name }, sp),
            }
        } else {
            SpecRes::Fault(st, SpecFault::AliasUnbound { name }, sp)
        },
    }
}

/// Evaluates one spanned instruction. A `Loop` re-reads the cell under the
/// pointer before every pass and runs its body while the cell is nonzero;
/// each pass costs one unit of fuel.
pub open spec fn eval_spanned(cfg: SpecConfig, s: SpecSpanned, st: SpecState, fuel: nat) -> SpecRes
    decreases fuel, s,
{
    match s.instruction {
        SpecInstruction::Add(n) => eval_add(cfg, st, n, s.span),
        SpecInstruction::Subtract(n) => eval_sub(cfg, st, n, s.span),
        SpecInstruction::Left(n) => eval_left(cfg, st, n, s.span),
        SpecInstruction::Right(n) => eval_right(cfg, st, n, s.span),
        SpecInstruction::Input => eval_input(st),
        SpecInstruction::Output => eval_output(st),
        SpecInstruction::Goto(name) => eval_goto(cfg, st, name, s.span),
        SpecInstruction::Loop(body) => {
            if st.cells[st.pointer] == 0 {
                SpecRes::Done(st)
            } else if fuel == 0 {
                SpecRes::Pending
            } else {
                match eval_list(cfg, body, st, (fuel - 1) as nat) {
                    SpecRes::Done(st1) => eval_spanned(cfg, s, st1, (fuel - 1) as nat),
                    other => other,
                }
            }
        },
    }
}

/// Evaluates a sequence of spanned instructions in order, stopping at the
/// first fault or pending step.
pub open spec fn eval_list(cfg: SpecConfig, l: Seq<SpecSpanned>, st: SpecState, fuel: nat) -> SpecRes
    decreases fuel, l,
{
    if l.len() == 0 {
        SpecRes::Done(st)
    } else {
        match eval_spanned(cfg, l[0], st, fuel) {
            SpecRes::Done(st1) => eval_list(cfg, l.drop_first(), st1, fuel),
            other => other,
        }
    }
}

/// Some fuel makes the instruction complete, taking `st` to `st2`.
pub open spec fn reaches_spanned(
    cfg: SpecConfig,
    s: SpecSpanned,
    st: SpecState,
    st2: SpecState,
) -> bool {
    exists|fuel: nat| eval_spanned(cfg, s, st, fuel) == SpecRes::Done(st2)
}

/// Some fuel makes the sequence complete, taking `st` to `st2`.
pub open spec fn reaches_list(
    cfg: SpecConfig,
    l: Seq<SpecSpanned>,
    st: SpecState,
    st2: SpecState,
) -> bool {
    exists|fuel: nat| eval_list(cfg, l, st, fuel) == SpecRes::Done(st2)
}

/// Some fuel makes the instruction stop at fault `f` with span `sp`, in
/// state `st2`.
pub open spec fn faults_spanned(
    cfg: SpecConfig,
    s: SpecSpanned,
    st: SpecState,
    st2: SpecState,
    f: SpecFault,
    sp: Span,
) -> bool {
    exists|fuel: nat| eval_spanned(cfg, s, st, fuel) == SpecRes::Fault(st2, f, sp)
}

/// Some fuel makes the sequence stop at fault `f` with span `sp`, in state
/// `st2`.
pub open spec fn faults_list(
    cfg: SpecConfig,
    l: Seq<SpecSpanned>,
    st: SpecState,
    st2: SpecState,
    f: SpecFault,
    sp: Span,
) -> bool {
    exists|fuel: nat| eval_list(cfg, l, st, fuel) == SpecRes::Fault(st2, f, sp)
}

/// More fuel never changes a verdict that was already reached.
pub proof fn lemma_eval_spanned_mono(
    cfg: SpecConfig,
    s: SpecSpanned,
    st: SpecState,
    fuel: nat,
    fuel2: nat,
)
    requires
        fuel <= fuel2,
        eval_spanned(cfg, s, st, fuel) != SpecRes::Pending,
    ensures
        eval_spanned(cfg, s, st, fuel2) == eval_spanned(cfg, s, st, fuel),
    decreases fuel, s,
{
    match s.instruction {
        SpecInstruction::Loop(body) => {
            if st.cells[st.pointer] != 0 {
                lemma_eval_list_mono(cfg, body, st, (fuel - 1) as nat, (fuel2 - 1) as nat);
                match eval_list(cfg, body, st, (fuel - 1) as nat) {
                    SpecRes::Done(st1) => {
                        lemma_eval_spanned_mono(cfg, s, st1, (fuel - 1) as nat, (fuel2 - 1) as nat);
                    },
                    _ => {},
                }
            }
        },
        _ => {},
    }
}

/// More fuel never changes a verdict that was already reached.
pub proof fn lemma_eval_list_mono(
    cfg: SpecConfig,
    l: Seq<SpecSpanned>,
    st: SpecState,
    fuel: nat,
    fuel2: nat,
)
    requires
        fuel <= fuel2,
        eval_list(cfg, l, st, fuel) != SpecRes::Pending,
    ensures
        eval_list(cfg, l, st, fuel2) == eval_list(cfg, l, st, fuel),
    decreases fuel, l,
{
    if l.len() > 0 {
        lemma_eval_spanned_mono(cfg, l[0], st, fuel, fuel2);
        match eval_spanned(cfg, l[0], st, fuel) {
            SpecRes::Done(st1) => {
                lemma_eval_list_mono(cfg, l.drop_first(), st1, fuel, fuel2);
            },
            _ => {},
        }
    }
}

/// The empty sequence completes at once, changing nothing.
pub proof fn lemma_reaches_list_empty(cfg: SpecConfig, l: Seq<SpecSpanned>, st: SpecState)
    requires
        l.len() == 0,
    ensures
        reaches_list(cfg, l, st, st),
{
    assert(eval_list(cfg, l, st, 0) == SpecRes::Done(st));
}

/// Completing the head and then the tail completes the whole sequence.
pub proof fn lemma_reaches_list_step(
    cfg: SpecConfig,
    l: Seq<SpecSpanned>,
    st: SpecState,
    st1: SpecState,
    st2: SpecState,
)
    requires
        l.len() > 0,
        reaches_spanned(cfg, l[0], st, st1),
        reaches_list(cfg, l.drop_first(), st1, st2),
    ensures
        reaches_list(cfg, l, st, st2),
{
    let f1 = choose|f1: nat| eval_spanned(cfg, l[0], st, f1) == SpecRes::Done(st1);
    let f2 = choose|f2: nat| eval_list(cfg, l.drop_first(), st1, f2) == SpecRes::Done(st2);
    let f = if f1 <= f2 {
        f2
    } else {
        f1
    };
    lemma_eval_spanned_mono(cfg, l[0], st, f1, f);
    lemma_eval_list_mono(cfg, l.drop_first(), st1, f2, f);
    assert(eval_list(cfg, l, st, f) == SpecRes::Done(st2));
}

/// A fault in the head is a fault of the whole sequence.
pub proof fn lemma_faults_list_head(
    cfg: SpecConfig,
    l: Seq<SpecSpanned>,
    st: SpecState,
    st2: SpecState,
    flt: SpecFault,
    sp: Span,
)
    requires
        l.len() > 0,
        faults_spanned(cfg, l[0], st, st2, flt, sp),
    ensures
        faults_list(cfg, l, st, st2, flt, sp),
{
    let f = choose|f: nat| eval_spanned(cfg, l[0], st, f) == SpecRes::Fault(st2, flt, sp);
    assert(eval_list(cfg, l, st, f) == SpecRes::Fault(st2, flt, sp));
}

/// Completing the head and then faulting in the tail faults the whole
/// sequence.
pub proof fn lemma_faults_list_step(
    cfg: SpecConfig,
    l: Seq<SpecSpanned>,
    st: SpecState,
    st1: SpecState,
    st2: SpecState,
    flt: SpecFault,
    sp: Span,
)
    requires
        l.len() > 0,
        reaches_spanned(cfg, l[0], st, st1),
        faults_list(cfg, l.drop_first(), st1, st2, flt, sp),
    ensures
        faults_list(cfg, l, st, st2, flt, sp),
{
    let f1 = choose|f1: nat| eval_spanned(cfg, l[0], st, f1) == SpecRes::Done(st1);
    let f2 = choose|f2: nat|
        eval_list(cfg, l.drop_first(), st1, f2) == SpecRes::Fault(st2, flt, sp);
    let f = if f1 <= f2 {
        f2
    } else {
        f1
    };
    lemma_eval_spanned_mono(cfg, l[0], st, f1, f);
    lemma_eval_list_mono(cfg, l.drop_first(), st1, f2, f);
    assert(eval_list(cfg, l, st, f) == SpecRes::Fault(st2, flt, sp));
}

/// A loop whose cell reads zero completes at once, changing nothing.
pub proof fn lemma_reaches_loop_exit(cfg: SpecConfig, s: SpecSpanned, st: SpecState)
    requires
        s.instruction matches SpecInstruction::Loop(_),
        st.cells[st.pointer] == 0,
    ensures
        reaches_spanned(cfg, s, st, st),
{
    assert(eval_spanned(cfg, s, st, 0) == SpecRes::Done(st));
}

/// One completed pass followed by a completed rest-of-loop completes the
/// loop.
pub proof fn lemma_reaches_loop_step(
    cfg: SpecConfig,
    s: SpecSpanned,
    body: Seq<SpecSpanned>,
    st: SpecState,
    st1: SpecState,
    st2: SpecState,
)
    requires
        s.instruction == SpecInstruction::Loop(body),
        st.cells[st.pointer] != 0,
        reaches_list(cfg, body, st, st1),
        reaches_spanned(cfg, s, st1, st2),
    ensures
        reaches_spanned(cfg, s, st, st2),
{
    let f1 = choose|f1: nat| eval_list(cfg, body, st, f1) == SpecRes::Done(st1);
    let f2 = choose|f2: nat| eval_spanned(cfg, s, st1, f2) == SpecRes::Done(st2);
    let f = if f1 <= f2 {
        f2
    } else {
        f1
    };
    lemma_eval_list_mono(cfg, body, st, f1, f);
    lemma_eval_spanned_mono(cfg, s, st1, f2, f);
    assert(eval_spanned(cfg, s, st, f + 1) == SpecRes::Done(st2));
}

/// A fault during a pass of the body faults the loop.
pub proof fn lemma_faults_loop_body(
    cfg: SpecConfig,
    s: SpecSpanned,
    body: Seq<SpecSpanned>,
    st: SpecState,
    st2: SpecState,
    flt: SpecFault,
    sp: Span,
)
    requires
        s.instruction == SpecInstruction::Loop(body),
        st.cells[st.pointer] != 0,
        faults_list(cfg, body, st, st2, flt, sp),
    ensures
        faults_spanned(cfg, s, st, st2, flt, sp),
{
    let f = choose|f: nat| eval_list(cfg, body, st, f) == SpecRes::Fault(st2, flt, sp);
    assert(eval_spanned(cfg, s, st, f + 1) == SpecRes::Fault(st2, flt, sp));
}

/// One completed pass followed by a faulting rest-of-loop faults the loop.
pub proof fn lemma_faults_loop_step(
    cfg: SpecConfig,
    s: SpecSpanned,
    body: Seq<SpecSpanned>,
    st: SpecState,
    st1: SpecState,
    st2: SpecState,
    flt: SpecFault,
    sp: Span,
)
    requires
        s.instruction == SpecInstruction::Loop(body),
        st.cells[st.pointer] != 0,
        reaches_list(cfg, body, st, st1),
        faults_spanned(cfg, s, st1, st2, flt, sp),
    ensures
        faults_spanned(cfg, s, st, st2, flt, sp),
{
    let f1 = choose|f1: nat| eval_list(cfg, body, st, f1) == SpecRes::Done(st1);
    let f2 = choose|f2: nat| eval_spanned(cfg, s, st1, f2) == SpecRes::Fault(st2, flt, sp);
    let f = if f1 <= f2 {
        f2
    } else {
        f1
    };
    lemma_eval_list_mono(cfg, body, st, f1, f);
    lemma_eval_spanned_mono(cfg, s, st1, f2, f);
    assert(eval_spanned(cfg, s, st, f + 1) == SpecRes::Fault(st2, flt, sp));
}

/// The state a run starts from: every cell zeroed (the length kept) and the
/// pointer back at address zero.
pub open spec fn spec_reset(st: SpecState) -> SpecState {
    SpecState { cells: zero_cells(st.cells.len()), pointer: 0, ..st }
}

/// Pre-allocation of one name: nothing to do when it is already bound,
/// otherwise the highest eligible address is claimed for it.
pub open spec fn spec_prealloc_one(st: SpecState, name: Seq<u8>) -> Result<SpecState, SpecFault> {
    match alias_lookup(st.aliases, name) {
        Some(_) => Ok(st),
        None => match spec_free_slot(st.cells, st.aliases, st.cells.len()) {
            Some(a) => Ok(SpecState { aliases: st.aliases.push((name, a)), ..st }),
            None => Err(SpecFault::TapeFull { name }),
        },
    }
}

/// Pre-allocation of every name, in the order given.
pub open spec fn spec_prealloc(st: SpecState, names: Seq<Seq<u8>>) -> Result<SpecState, SpecFault>
    decreases names.len(),
{
    if names.len() == 0 {
        Ok(st)
    } else {
        match spec_prealloc_one(st, names[0]) {
            Ok(st1) => spec_prealloc(st1, names.drop_first()),
            Err(f) => Err(f),
        }
    }
}

} // verus!
