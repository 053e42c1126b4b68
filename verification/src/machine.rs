//! The executor: walks the instruction tree, drives the tape and the alias
//! table, exchanges bytes with an I/O device, and reports the first fault as
//! a value carrying the offending instruction's source span.
//!
//! Every entry point is proved against the evaluator in
//! [`crate::semantics`]: when a run completes, some fuel makes
//! [`crate::semantics::eval_list`] return exactly the machine state the
//! executor left behind, and when it stops at a fault, some fuel makes the
//! evaluator report the same fault at the same span.
//!
//! Loop nesting is walked with the call stack, and the number of loop passes
//! is bounded only by the externally supplied step budget, which is checked
//! before every loop-body pass and every input poll: it doubles as the
//! cancellation signal for embedders that need one. A run that exhausts it
//! ends as [`Halt::Interrupted`].

use vstd::prelude::*;

use crate::alias::{
    alias_in_range, alias_lookup, alias_wf, clone_bytes, lemma_free_slot_in_range,
    lemma_lookup_some_claimed, names_of, spec_free_slot, AliasTable,
};
use crate::ast::{
    lemma_pause_free_index, lemma_spec_of_list_index, lemma_spec_of_list_len, pause_free_list,
    pause_free_spanned, spec_of_spanned, spec_of_vec, Instruction, SpannedInstruction,
    SpecInstruction,
};
use crate::errors::{Fault, RunError, SpecFault};
use crate::flags::DisableFlags;
use crate::semantics::{
    eval_list, eval_spanned, faults_list, faults_spanned, lemma_faults_list_head,
    lemma_faults_list_step, lemma_faults_loop_body, lemma_faults_loop_step,
    lemma_reaches_list_empty, lemma_reaches_list_step, lemma_reaches_loop_exit,
    lemma_reaches_loop_step, reaches_list, reaches_spanned, spec_prealloc, spec_prealloc_one,
    spec_reset, SpecConfig, SpecRes, SpecState,
};
use crate::span::Span;
use crate::tape::Tape;

verus! {

/// The minimal capability the executor needs from the outside world: one
/// byte in (possibly not yet available), one byte out.
///
/// `pending` is the sequence of bytes the device will still yield, and
/// `written` the bytes it has received so far; the contracts of the two
/// methods say no more than that reads consume `pending` in order and
/// writes append to `written`.
pub trait ByteDevice {
    /// The bytes this device will still yield, in order. A device outside
    /// the verified world may leave this at its default; nothing is then
    /// known of what it yields.
    open spec fn pending(&self) -> Seq<u8> {
        Seq::empty()
    }

    /// The bytes written to this device so far, in order.
    open spec fn written(&self) -> Seq<u8> {
        Seq::empty()
    }

    /// Polls for one byte; `None` means "no byte yet", not end of input.
    fn read_byte(&mut self) -> (r: Option<u8>)
        ensures
            final(self).written() == old(self).written(),
            match r {
                Some(b) => old(self).pending().len() > 0 && b == old(self).pending()[0]
                    && final(self).pending() == old(self).pending().drop_first(),
                None => final(self).pending() == old(self).pending(),
            },
    ;

    /// Emits one byte.
    fn write_byte(&mut self, value: u8)
        ensures
            final(self).pending() == old(self).pending(),
            final(self).written() == old(self).written().push(value),
    ;
}

/// An in-memory device: reads come from a fixed byte vector, writes collect
/// into another. It never says "no byte yet" while input remains.
pub struct BufferDevice {
    input: Vec<u8>,
    cursor: usize,
    output: Vec<u8>,
}

impl BufferDevice {
    /// A device that will yield exactly `input` and has written nothing.
    pub fn new(input: Vec<u8>) -> (r: Self)
        ensures
            r.pending() == input@,
            r.written() == Seq::<u8>::empty(),
    {
        let r = BufferDevice { input, cursor: 0, output: Vec::new() };
        proof {
            assert(r.pending() =~= r.input@);
            assert(r.written() =~= Seq::<u8>::empty());
        }
        r
    }

    /// The bytes written so far.
    pub fn output(&self) -> (r: &Vec<u8>)
        ensures
            r@ == self.written(),
    {
        &self.output
    }
}

impl ByteDevice for BufferDevice {
    closed spec fn pending(&self) -> Seq<u8> {
        self.input@.skip(self.cursor as int)
    }

    closed spec fn written(&self) -> Seq<u8> {
        self.output@
    }

    fn read_byte(&mut self) -> (r: Option<u8>) {
        if self.cursor < self.input.len() {
            let b = self.input[self.cursor];
            self.cursor = self.cursor + 1;
            proof {
                assert(old(self).pending()[0] == b);
                assert(self.pending() =~= old(self).pending().drop_first());
            }
            Some(b)
        } else {
            proof {
                assert(self.pending() =~= old(self).pending());
            }
            None
        }
    }

    fn write_byte(&mut self, value: u8) {
        self.output.push(value);
    }
}

/// Why a run stopped short of completing.
#[derive(Clone, Debug, PartialEq, Eq)]
pub enum Halt {
    /// The run stopped at a fault, located at its instruction.
    Fault(RunError),
    /// The step budget ran out before the run finished.
    Interrupted,
}

/// The machine state that a tape, an alias table and a device together
/// denote.
pub open spec fn abs_state<D: ByteDevice>(tape: Tape, aliases: AliasTable, dev: D) -> SpecState {
    SpecState {
        cells: tape.spec_cells(),
        pointer: tape.spec_pointer(),
        aliases: aliases@,
        input: dev.pending(),
        output: dev.written(),
    }
}

/// The executor's running invariant over its mutable pieces: a well-formed
/// tape, the configuration it was started with, every alias binding inside
/// the tape, and the pairing unique in both directions.
pub open spec fn machine_inv(cfg: SpecConfig, tape: Tape, aliases: AliasTable, lazy: bool) -> bool {
    &&& tape.wf()
    &&& cfg.cell_mode == tape.spec_cell_mode()
    &&& cfg.tape_mode == tape.spec_tape_mode()
    &&& cfg.lazy_alloc == lazy
    &&& alias_in_range(aliases@, tape.spec_cells().len() as int)
    &&& alias_wf(aliases@)
}

fn run_spanned<D: ByteDevice>(
    s: &SpannedInstruction,
    tape: &mut Tape,
    aliases: &mut AliasTable,
    dev: &mut D,
    budget: &mut u64,
    lazy_alloc: bool,
    Ghost(cfg): Ghost<SpecConfig>,
) -> (r: Result<(), Halt>)
    requires
        machine_inv(cfg, *old(tape), *old(aliases), lazy_alloc),
    ensures
        machine_inv(cfg, *final(tape), *final(aliases), lazy_alloc),
        *final(budget) <= *old(budget),
        pause_free_spanned(spec_of_spanned(*s)) ==> !(r matches Err(Halt::Interrupted)),
        match r {
            Ok(()) => reaches_spanned(
                cfg,
                spec_of_spanned(*s),
                abs_state(*old(tape), *old(aliases), *old(dev)),
                abs_state(*final(tape), *final(aliases), *final(dev)),
            ),
            Err(Halt::Fault(e)) => faults_spanned(
                cfg,
                spec_of_spanned(*s),
                abs_state(*old(tape), *old(aliases), *old(dev)),
                abs_state(*final(tape), *final(aliases), *final(dev)),
                e.fault@,
                e.span,
            ),
            Err(Halt::Interrupted) => true,
        },
    decreases *s,
{
    let ghost st0 = abs_state(*tape, *aliases, *dev);
    let ghost gs = spec_of_spanned(*s);
    match &s.instruction {
        Instruction::Add(count) => {
            match tape.add(*count) {
                Ok(()) => {
                    proof {
                        assert(eval_spanned(cfg, gs, st0, 0) == SpecRes::Done(
                            abs_state(*tape, *aliases, *dev),
                        ));
                    }
                    Ok(())
                },
                Err(f) => {
                    proof {
                        assert(eval_spanned(cfg, gs, st0, 0) == SpecRes::Fault(
                            abs_state(*tape, *aliases, *dev),
                            f@,
                            s.span,
                        ));
                    }
                    Err(Halt::Fault(RunError { fault: f, span: s.span }))
                },
            }
        },
        Instruction::Subtract(count) => {
            match tape.sub(*count) {
                Ok(()) => {
                    proof {
                        assert(eval_spanned(cfg, gs, st0, 0) == SpecRes::Done(
                            abs_state(*tape, *aliases, *dev),
                        ));
                    }
                    Ok(())
                },
                Err(f) => {
                    proof {
                        assert(eval_spanned(cfg, gs, st0, 0) == SpecRes::Fault(
                            abs_state(*tape, *aliases, *dev),
                            f@,
                            s.span,
                        ));
                    }
                    Err(Halt::Fault(RunError { fault: f, span: s.span }))
                },
            }
        },
        Instruction::Left(count) => {
            match tape.left(*count) {
                Ok(()) => {
                    proof {
                        assert(eval_spanned(cfg, gs, st0, 0) == SpecRes::Done(
                            abs_state(*tape, *aliases, *dev),
                        ));
                    }
                    Ok(())
                },
                Err(f) => {
                    proof {
                        assert(eval_spanned(cfg, gs, st0, 0) == SpecRes::Fault(
                            abs_state(*tape, *aliases, *dev),
                            f@,
                            s.span,
                        ));
                    }
                    Err(Halt::Fault(RunError { fault: f, span: s.span }))
                },
            }
        },
        Instruction::Right(count) => {
            match tape.right(*count) {
                Ok(()) => {
                    proof {
                        assert(eval_spanned(cfg, gs, st0, 0) == SpecRes::Done(
                            abs_state(*tape, *aliases, *dev),
                        ));
                    }
                    Ok(())
                },
                Err(f) => {
                    proof {
                        assert(eval_spanned(cfg, gs, st0, 0) == SpecRes::Fault(
                            abs_state(*tape, *aliases, *dev),
                            f@,
                            s.span,
                        ));
                    }
                    Err(Halt::Fault(RunError { fault: f, span: s.span }))
                },
            }
        },
        Instruction::Output => {
            let v = tape.get_value();
            dev.write_byte(v);
            proof {
                assert(eval_spanned(cfg, gs, st0, 0) == SpecRes::Done(
                    abs_state(*tape, *aliases, *dev),
                ));
            }
            Ok(())
        },
        Instruction::Input => {
            let mut got = dev.read_byte();
            while got.is_none()
                invariant
                    s.instruction == Instruction::Input,
                    machine_inv(cfg, *tape, *aliases, lazy_alloc),
                    *tape == *old(tape),
                    *aliases == *old(aliases),
                    *budget <= *old(budget),
                    dev.written() == old(dev).written(),
                    match got {
                        Some(b) => old(dev).pending().len() > 0 && b == old(dev).pending()[0]
                            && dev.pending() == old(dev).pending().drop_first(),
                        None => dev.pending() == old(dev).pending(),
                    },
                decreases *budget,
            {
                if *budget == 0 {
                    return Err(Halt::Interrupted);
                }
                *budget = *budget - 1;
                got = dev.read_byte();
            }
            let b = got.unwrap();
            tape.set_value(b);
            proof {
                assert(eval_spanned(cfg, gs, st0, 0) == SpecRes::Done(
                    abs_state(*tape, *aliases, *dev),
                ));
            }
            Ok(())
        },
        Instruction::Goto(name) => {
            match aliases.resolve(name) {
                Some(a) => {
                    proof {
                        lemma_lookup_some_claimed(aliases@, name@);
                        let j = choose|j: int|
                            0 <= j < aliases@.len() && aliases@[j] == (name@, a as int);
                        assert(aliases@[j].1 == a as int);
                    }
                    tape.set_pointer(a);
                    proof {
                        assert(eval_spanned(cfg, gs, st0, 0) == SpecRes::Done(
                            abs_state(*tape, *aliases, *dev),
                        ));
                    }
                    Ok(())
                },
                None => {
                    if lazy_alloc {
                        match aliases.assign_address(tape, name) {
                            Some(a) => {
                                proof {
                                    lemma_free_slot_in_range(
                                        tape.spec_cells(),
                                        old(aliases)@,
                                        tape.spec_cells().len() as nat,
                                    );
                                    AliasTable::lemma_push_preserves_wf(
                                        old(aliases)@,
                                        name@,
                                        a as int,
                                    );
                                    assert forall|t: int| 0 <= t < aliases@.len() implies 0
                                        <= #[trigger] aliases@[t].1 < tape.spec_cells().len() by {
                                        if t < old(aliases)@.len() {
                                            assert(aliases@[t] == old(aliases)@[t]);
                                        } else {
                                            assert(aliases@[t] == (name@, a as int));
                                        }
                                    }
                                }
                                tape.set_pointer(a);
                                proof {
                                    assert(eval_spanned(cfg, gs, st0, 0) == SpecRes::Done(
                                        abs_state(*tape, *aliases, *dev),
                                    ));
                                }
                                Ok(())
                            },
                            None => {
                                let e = RunError {
                                    fault: Fault::TapeFull { name: clone_bytes(name) },
                                    span: s.span,
                                };
                                proof {
                                    assert(eval_spanned(cfg, gs, st0, 0) == SpecRes::Fault(
                                        abs_state(*tape, *aliases, *dev),
                                        e.fault@,
                                        s.span,
                                    ));
                                }
                                Err(Halt::Fault(e))
                            },
                        }
                    } else {
                        let e = RunError {
                            fault: Fault::AliasUnbound { name: clone_bytes(name) },
                            span: s.span,
                        };
                        proof {
                            assert(eval_spanned(cfg, gs, st0, 0) == SpecRes::Fault(
                                abs_state(*tape, *aliases, *dev),
                                e.fault@,
                                s.span,
                            ));
                        }
                        Err(Halt::Fault(e))
                    }
                },
            }
        },
        Instruction::Loop(body) => {
            proof {
                assert(decreases_to!(*s => *body));
            }
            let ghost gbody = spec_of_vec(*body);
            let mut v = tape.get_value();
            while v != 0
                invariant
                    machine_inv(cfg, *tape, *aliases, lazy_alloc),
                    *budget <= *old(budget),
                    gs == spec_of_spanned(*s),
                    s.instruction == Instruction::Loop(*body),
                    gs.instruction == SpecInstruction::Loop(gbody),
                    gbody == spec_of_vec(*body),
                    st0 == abs_state(*old(tape), *old(aliases), *old(dev)),
                    v == tape.spec_cells()[tape.spec_pointer()],
                    forall|st2: SpecState|
                        reaches_spanned(cfg, gs, abs_state(*tape, *aliases, *dev), st2)
                            ==> reaches_spanned(cfg, gs, st0, st2),
                    forall|stf: SpecState, f: SpecFault, sp: Span|
                        faults_spanned(cfg, gs, abs_state(*tape, *aliases, *dev), stf, f, sp)
                            ==> faults_spanned(cfg, gs, st0, stf, f, sp),
                decreases *budget,
            {
                if *budget == 0 {
                    return Err(Halt::Interrupted);
                }
                *budget = *budget - 1;
                let ghost st_iter = abs_state(*tape, *aliases, *dev);
                proof {
                    assert(decreases_to!(*s => *body));
                }
                match run_list(body, tape, aliases, dev, budget, lazy_alloc, Ghost(cfg)) {
                    Ok(()) => {
                        proof {
                            let st_next = abs_state(*tape, *aliases, *dev);
                            assert forall|st2: SpecState|
                                reaches_spanned(cfg, gs, st_next, st2) implies reaches_spanned(
                                cfg,
                                gs,
                                st0,
                                st2,
                            ) by {
                                lemma_reaches_loop_step(cfg, gs, gbody, st_iter, st_next, st2);
                            }
                            assert forall|stf: SpecState, f: SpecFault, sp: Span|
                                faults_spanned(cfg, gs, st_next, stf, f, sp) implies faults_spanned(
                                cfg,
                                gs,
                                st0,
                                stf,
                                f,
                                sp,
                            ) by {
                                lemma_faults_loop_step(cfg, gs, gbody, st_iter, st_next, stf, f, sp);
                            }
                        }
                    },
                    Err(Halt::Fault(e)) => {
                        proof {
                            lemma_faults_loop_body(
                                cfg,
                                gs,
                                gbody,
                                st_iter,
                                abs_state(*tape, *aliases, *dev),
                                e.fault@,
                                e.span,
                            );
                        }
                        return Err(Halt::Fault(e));
                    },
                    Err(Halt::Interrupted) => {
                        return Err(Halt::Interrupted);
                    },
                }
                v = tape.get_value();
            }
            proof {
                lemma_reaches_loop_exit(cfg, gs, abs_state(*tape, *aliases, *dev));
            }
            Ok(())
        },
    }
}

fn run_list<D: ByteDevice>(
    l: &Vec<SpannedInstruction>,
    tape: &mut Tape,
    aliases: &mut AliasTable,
    dev: &mut D,
    budget: &mut u64,
    lazy_alloc: bool,
    Ghost(cfg): Ghost<SpecConfig>,
) -> (r: Result<(), Halt>)
    requires
        machine_inv(cfg, *old(tape), *old(aliases), lazy_alloc),
    ensures
        machine_inv(cfg, *final(tape), *final(aliases), lazy_alloc),
        *final(budget) <= *old(budget),
        pause_free_list(spec_of_vec(*l)) ==> !(r matches Err(Halt::Interrupted)),
        match r {
            Ok(()) => reaches_list(
                cfg,
                spec_of_vec(*l),
                abs_state(*old(tape), *old(aliases), *old(dev)),
                abs_state(*final(tape), *final(aliases), *final(dev)),
            ),
            Err(Halt::Fault(e)) => faults_list(
                cfg,
                spec_of_vec(*l),
                abs_state(*old(tape), *old(aliases), *old(dev)),
                abs_state(*final(tape), *final(aliases), *final(dev)),
                e.fault@,
                e.span,
            ),
            Err(Halt::Interrupted) => true,
        },
    decreases *l,
{
    let ghost gl = spec_of_vec(*l);
    let ghost st0 = abs_state(*tape, *aliases, *dev);
    proof {
        lemma_spec_of_list_len(l@);
        assert(gl.skip(0) =~= gl);
    }
    let n = l.len();
    let mut k: usize = 0;
    while k < n
        invariant
            k <= n,
            n == l@.len(),
            gl == spec_of_vec(*l),
            gl.len() == n,
            machine_inv(cfg, *tape, *aliases, lazy_alloc),
            *budget <= *old(budget),
            st0 == abs_state(*old(tape), *old(aliases), *old(dev)),
            forall|st2: SpecState|
                reaches_list(cfg, gl.skip(k as int), abs_state(*tape, *aliases, *dev), st2)
                    ==> reaches_list(cfg, gl, st0, st2),
            forall|stf: SpecState, f: SpecFault, sp: Span|
                faults_list(cfg, gl.skip(k as int), abs_state(*tape, *aliases, *dev), stf, f, sp)
                    ==> faults_list(cfg, gl, st0, stf, f, sp),
        decreases n - k,
    {
        let ghost st_iter = abs_state(*tape, *aliases, *dev);
        proof {
            lemma_spec_of_list_index(l@, k as int);
            assert(gl.skip(k as int)[0] == gl[k as int]);
            assert(gl.skip(k as int).drop_first() =~= gl.skip(k as int + 1));
            assert(decreases_to!(*l => l@[k as int]));
        }
        let si = &l[k];
        match run_spanned(si, tape, aliases, dev, budget, lazy_alloc, Ghost(cfg)) {
            Ok(()) => {
                proof {
                    let st_next = abs_state(*tape, *aliases, *dev);
                    assert forall|st2: SpecState|
                        reaches_list(cfg, gl.skip(k as int + 1), st_next, st2) implies reaches_list(
                        cfg,
                        gl,
                        st0,
                        st2,
                    ) by {
                        lemma_reaches_list_step(cfg, gl.skip(k as int), st_iter, st_next, st2);
                    }
                    assert forall|stf: SpecState, f: SpecFault, sp: Span|
                        faults_list(cfg, gl.skip(k as int + 1), st_next, stf, f, sp)
                            implies faults_list(cfg, gl, st0, stf, f, sp) by {
                        lemma_faults_list_step(cfg, gl.skip(k as int), st_iter, st_next, stf, f, sp);
                    }
                }
            },
            Err(Halt::Fault(e)) => {
                proof {
                    lemma_faults_list_head(
                        cfg,
                        gl.skip(k as int),
                        st_iter,
                        abs_state(*tape, *aliases, *dev),
                        e.fault@,
                        e.span,
                    );
                }
                return Err(Halt::Fault(e));
            },
            Err(Halt::Interrupted) => {
                proof {
                    if pause_free_list(gl) {
                        lemma_pause_free_index(gl, k as int);
                    }
                }
                return Err(Halt::Interrupted);
            },
        }
        k += 1;
    }
    proof {
        assert(gl.skip(n as int).len() == 0);
        lemma_reaches_list_empty(cfg, gl.skip(n as int), abs_state(*tape, *aliases, *dev));
    }
    Ok(())
}

/// What [`run`] promises: starting from the reset state, pre-allocation
/// (unless disabled) and then the program behave exactly as the evaluator
/// says, for some fuel.
pub open spec fn run_contract<D: ByteDevice>(
    instructions: Vec<SpannedInstruction>,
    alias_names: Vec<Vec<u8>>,
    t0: Tape,
    a0: AliasTable,
    d0: D,
    t1: Tape,
    a1: AliasTable,
    d1: D,
    flags: DisableFlags,
    r: Result<(), Halt>,
) -> bool {
    let cfg = (SpecConfig {
        cell_mode: t0.spec_cell_mode(),
        tape_mode: t0.spec_tape_mode(),
        lazy_alloc: flags.disable_alloc,
    });
    let st0 = spec_reset(abs_state(t0, a0, d0));
    let pre = if flags.disable_alloc {
        Ok::<SpecState, SpecFault>(st0)
    } else {
        spec_prealloc(st0, names_of(alias_names))
    };
    match pre {
        Ok(st1) => match r {
            Ok(()) => reaches_list(cfg, spec_of_vec(instructions), st1, abs_state(t1, a1, d1)),
            Err(Halt::Fault(e)) => faults_list(
                cfg,
                spec_of_vec(instructions),
                st1,
                abs_state(t1, a1, d1),
                e.fault@,
                e.span,
            ),
            Err(Halt::Interrupted) => true,
        },
        Err(f) => match r {
            Err(Halt::Fault(e)) => e.fault@ == f && e.span == (Span { offset: 0, length: 0 })
                && d1.written() == d0.written(),
            _ => false,
        },
    }
}

/// Runs a program: zeroes the tape, realigns the pointer, binds every known
/// alias name up front (unless pre-allocation is disabled), then walks the
/// instruction tree.
///
/// On `Ok`, some fuel makes the evaluator complete with exactly the final
/// tape, alias table and device state; on a fault, some fuel makes the
/// evaluator report the same fault at the same span. The step `budget`
/// bounds loop passes and input polls; a run that exhausts it ends as
/// `Halt::Interrupted`, about which nothing further is claimed.
#[verifier::rlimit(50)]
pub fn run<D: ByteDevice>(
    instructions: &Vec<SpannedInstruction>,
    alias_names: &Vec<Vec<u8>>,
    tape: &mut Tape,
    aliases: &mut AliasTable,
    dev: &mut D,
    flags: DisableFlags,
    budget: u64,
) -> (r: Result<(), Halt>)
    requires
        old(tape).wf(),
        alias_in_range(old(aliases)@, old(tape).spec_cells().len() as int),
        alias_wf(old(aliases)@),
    ensures
        final(tape).wf(),
        alias_in_range(final(aliases)@, final(tape).spec_cells().len() as int),
        alias_wf(final(aliases)@),
        pause_free_list(spec_of_vec(*instructions)) ==> !(r matches Err(Halt::Interrupted)),
        run_contract(
            *instructions,
            *alias_names,
            *old(tape),
            *old(aliases),
            *old(dev),
            *final(tape),
            *final(aliases),
            *final(dev),
            flags,
            r,
        ),
{
    let ghost cfg = SpecConfig {
        cell_mode: tape.spec_cell_mode(),
        tape_mode: tape.spec_tape_mode(),
        lazy_alloc: flags.disable_alloc,
    };
    tape.clear();
    tape.realign();
    let ghost st0 = abs_state(*tape, *aliases, *dev);
    proof {
        assert(st0 == spec_reset(abs_state(*old(tape), *old(aliases), *old(dev))));
    }
    let ghost gnames = names_of(*alias_names);
    let ghost tape_ready = *tape;
    if !flags.disable_alloc {
        let count = alias_names.len();
        let mut i: usize = 0;
        proof {
            assert(gnames.skip(0) =~= gnames);
        }
        while i < count
            invariant
                i <= count,
                count == alias_names@.len(),
                gnames == names_of(*alias_names),
                !flags.disable_alloc,
                machine_inv(cfg, *tape, *aliases, flags.disable_alloc),
                *tape == tape_ready,
                *dev == *old(dev),
                st0 == spec_reset(abs_state(*old(tape), *old(aliases), *old(dev))),
                cfg == (SpecConfig {
                    cell_mode: old(tape).spec_cell_mode(),
                    tape_mode: old(tape).spec_tape_mode(),
                    lazy_alloc: flags.disable_alloc,
                }),
                spec_prealloc(st0, gnames) == spec_prealloc(
                    abs_state(*tape, *aliases, *dev),
                    gnames.skip(i as int),
                ),
            decreases count - i,
        {
            let ghost st_cur = abs_state(*tape, *aliases, *dev);
            proof {
                assert(gnames.skip(i as int)[0] == gnames[i as int]);
                assert(gnames.skip(i as int).drop_first() =~= gnames.skip(i as int + 1));
            }
            let name = &alias_names[i];
            match aliases.resolve(name) {
                Some(_) => {
                    proof {
                        assert(spec_prealloc_one(st_cur, name@) == Ok::<SpecState, SpecFault>(
                            st_cur,
                        ));
                    }
                },
                None => {
                    match aliases.assign_address(tape, name) {
                        Some(a) => {
                            proof {
                                lemma_free_slot_in_range(
                                    tape.spec_cells(),
                                    st_cur.aliases,
                                    tape.spec_cells().len() as nat,
                                );
                                AliasTable::lemma_push_preserves_wf(
                                    st_cur.aliases,
                                    name@,
                                    a as int,
                                );
                            }
                        },
                        None => {
                            let e = RunError {
                                fault: Fault::TapeFull { name: clone_bytes(name) },
                                span: Span { offset: 0, length: 0 },
                            };
                            proof {
                                assert(spec_prealloc(st_cur, gnames.skip(i as int))
                                    == Err::<SpecState, SpecFault>(e.fault@));
                            }
                            return Err(Halt::Fault(e));
                        },
                    }
                },
            }
            i += 1;
        }
        proof {
            assert(gnames.skip(count as int).len() == 0);
        }
    }
    let mut budget_cell: u64 = budget;
    run_list(instructions, tape, aliases, dev, &mut budget_cell, flags.disable_alloc, Ghost(cfg))
}

} // verus!
