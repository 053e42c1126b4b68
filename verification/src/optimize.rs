//! The optional merge pass: consecutive instructions of the identical
//! mergeable kind (`Add`, `Subtract`, `Left`, `Right`) collapse into one
//! instruction whose count is the sum; `Loop`, `Goto`, `Input` and `Output`
//! are structural boundaries that never merge, and a `Loop` body is merged
//! recursively.
//!
//! A run is extended greedily, and always through the final element of a
//! sibling list; it stops early only where the summed count would no longer
//! fit in a machine word, so no count ever wraps silently. The merged
//! instruction keeps the span of the first instruction of its run, and
//! structural instructions keep their spans unchanged.
//!
//! [`spec_opt`] is the pass as a spec function; the executable pass returns
//! exactly its result. The laws module proves the pass idempotent and
//! semantics-preserving.

use vstd::prelude::*;

use crate::alias::clone_bytes;
use crate::ast::{
    group_ast_lemmas, spec_count_of, spec_mergeable, spec_of_instruction, spec_of_list,
    spec_of_spanned, spec_same_kind, spec_with_count, Instruction, SpannedInstruction,
    SpecInstruction, SpecSpanned,
};
use crate::parser::Parser;

verus! {

broadcast use group_ast_lemmas;

/// How many further instructions, starting at the head of `l`, extend a run
/// of kind `head` whose counts so far sum to `acc` without leaving the
/// machine-word range.
pub open spec fn take_run(l: Seq<SpecSpanned>, head: SpecInstruction, acc: nat) -> nat
    decreases l.len(),
{
    if l.len() == 0 {
        0
    } else if spec_same_kind(head, l[0].instruction) && acc + spec_count_of(l[0].instruction)
        <= usize::MAX {
        1 + take_run(l.drop_first(), head, (acc + spec_count_of(l[0].instruction)) as nat)
    } else {
        0
    }
}

/// The sum of the counts of the first `k` instructions of `l`.
pub open spec fn run_sum(l: Seq<SpecSpanned>, k: int) -> nat
    decreases k,
{
    if k <= 0 {
        0
    } else {
        (run_sum(l, k - 1) + spec_count_of(l[k - 1].instruction)) as nat
    }
}

/// A run never extends past the end of the list.
pub proof fn lemma_take_run_le_len(l: Seq<SpecSpanned>, head: SpecInstruction, acc: nat)
    ensures
        take_run(l, head, acc) <= l.len(),
    decreases l.len(),
{
    if l.len() > 0 && spec_same_kind(head, l[0].instruction) && acc + spec_count_of(
        l[0].instruction,
    ) <= usize::MAX {
        lemma_take_run_le_len(
            l.drop_first(),
            head,
            (acc + spec_count_of(l[0].instruction)) as nat,
        );
    }
}

/// The merged instruction list. One output element per structural
/// instruction or per maximal-within-range run.
pub open spec fn spec_opt(l: Seq<SpecSpanned>) -> Seq<SpecSpanned>
    decreases l,
{
    if l.len() == 0 {
        Seq::empty()
    } else {
        let h = l[0];
        match h.instruction {
            SpecInstruction::Loop(body) => seq![
                SpecSpanned { span: h.span, instruction: SpecInstruction::Loop(spec_opt(body)) },
            ] + spec_opt(l.subrange(1, l.len() as int)),
            SpecInstruction::Goto(_) => seq![h] + spec_opt(l.subrange(1, l.len() as int)),
            SpecInstruction::Input => seq![h] + spec_opt(l.subrange(1, l.len() as int)),
            SpecInstruction::Output => seq![h] + spec_opt(l.subrange(1, l.len() as int)),
            _ => {
                let k0 = 1 + take_run(
                    l.subrange(1, l.len() as int),
                    h.instruction,
                    spec_count_of(h.instruction),
                );
                let k = if k0 <= l.len() {
                    k0 as int
                } else {
                    l.len() as int
                };
                seq![
                    SpecSpanned {
                        span: h.span,
                        instruction: spec_with_count(h.instruction, run_sum(l, k)),
                    },
                ] + spec_opt(l.subrange(k, l.len() as int))
            },
        }
    }
}

impl Parser {
    /// Whether an instruction is one of the mergeable kinds; structural
    /// instructions are never merged with their neighbours.
    fn is_instruction_consecutive(instruction: &Instruction) -> (r: bool)
        ensures
            r == spec_mergeable(spec_of_instruction(*instruction)),
    {
        match instruction {
            Instruction::Goto(_) => false,
            Instruction::Input => false,
            Instruction::Output => false,
            Instruction::Loop(_) => false,
            _ => true,
        }
    }

    /// Whether two neighbouring instructions merge: both mergeable and of
    /// the identical kind.
    pub fn is_consecutive_okay(left: &Instruction, right: &Instruction) -> (r: bool)
        ensures
            r == spec_same_kind(spec_of_instruction(*left), spec_of_instruction(*right)),
    {
        match (left, right) {
            (Instruction::Add(_), Instruction::Add(_)) => true,
            (Instruction::Subtract(_), Instruction::Subtract(_)) => true,
            (Instruction::Left(_), Instruction::Left(_)) => true,
            (Instruction::Right(_), Instruction::Right(_)) => true,
            _ => false,
        }
    }

    /// The count carried by a mergeable instruction.
    fn count_of(instruction: &Instruction) -> (r: usize)
        ensures
            r as nat == spec_count_of(spec_of_instruction(*instruction)),
    {
        match instruction {
            Instruction::Add(n) => *n,
            Instruction::Subtract(n) => *n,
            Instruction::Left(n) => *n,
            Instruction::Right(n) => *n,
            _ => 0,
        }
    }

    /// The same kind of instruction with its count replaced.
    fn set_count(instruction: &Instruction, count: usize) -> (r: Instruction)
        requires
            spec_mergeable(spec_of_instruction(*instruction)),
        ensures
            spec_of_instruction(r) == spec_with_count(
                spec_of_instruction(*instruction),
                count as nat,
            ),
    {
        match instruction {
            Instruction::Add(_) => Instruction::Add(count),
            Instruction::Subtract(_) => Instruction::Subtract(count),
            Instruction::Left(_) => Instruction::Left(count),
            _ => Instruction::Right(count),
        }
    }

    /// Merges every run of consecutive identical-kind mergeable
    /// instructions, recursing into loop bodies.
    pub fn optimise_consecutive(instructions: &Vec<SpannedInstruction>) -> (r: Vec<
        SpannedInstruction,
    >)
        ensures
            spec_of_list(r@) == spec_opt(spec_of_list(instructions@)),
        decreases *instructions,
    {
        let ghost gl = spec_of_list(instructions@);
        let mut out: Vec<SpannedInstruction> = Vec::new();
        let n = instructions.len();
        let mut idx: usize = 0;
        proof {
            assert(gl.subrange(0, n as int) =~= gl);
        }
        while idx < n
            invariant
                idx <= n,
                n == instructions@.len(),
                gl == spec_of_list(instructions@),
                gl.len() == n,
                spec_opt(gl) == spec_of_list(out@) + spec_opt(
                    gl.subrange(idx as int, n as int),
                ),
            decreases n - idx,
        {
            let ghost suffix = gl.subrange(idx as int, n as int);
            let si = &instructions[idx];
            proof {
                assert(suffix[0] == gl[idx as int]);
                assert(gl[idx as int] == spec_of_spanned(instructions@[idx as int]));
            }
            match &si.instruction {
                Instruction::Loop(body) => {
                    proof {
                        assert(decreases_to!(instructions@ => instructions@[idx as int]));
                        assert(decreases_to!(instructions@[idx as int] => *body));
                        assert(decreases_to!(*instructions => *body));
                    }
                    let ob = Parser::optimise_consecutive(body);
                    let ghost prev = out@;
                    out.push(
                        SpannedInstruction { span: si.span, instruction: Instruction::Loop(ob) },
                    );
                    idx += 1;
                    proof {
                        assert(suffix.subrange(1, suffix.len() as int) =~= gl.subrange(
                            idx as int,
                            n as int,
                        ));
                        assert(spec_of_list(out@) + spec_opt(gl.subrange(idx as int, n as int))
                            =~= spec_of_list(prev) + spec_opt(suffix));
                    }
                },
                Instruction::Goto(name) => {
                    let ghost prev = out@;
                    out.push(
                        SpannedInstruction {
                            span: si.span,
                            instruction: Instruction::Goto(clone_bytes(name)),
                        },
                    );
                    idx += 1;
                    proof {
                        assert(suffix.subrange(1, suffix.len() as int) =~= gl.subrange(
                            idx as int,
                            n as int,
                        ));
                        assert(spec_of_list(out@) + spec_opt(gl.subrange(idx as int, n as int))
                            =~= spec_of_list(prev) + spec_opt(suffix));
                    }
                },
                Instruction::Input => {
                    let ghost prev = out@;
                    out.push(SpannedInstruction { span: si.span, instruction: Instruction::Input });
                    idx += 1;
                    proof {
                        assert(suffix.subrange(1, suffix.len() as int) =~= gl.subrange(
                            idx as int,
                            n as int,
                        ));
                        assert(spec_of_list(out@) + spec_opt(gl.subrange(idx as int, n as int))
                            =~= spec_of_list(prev) + spec_opt(suffix));
                    }
                },
                Instruction::Output => {
                    let ghost prev = out@;
                    out.push(
                        SpannedInstruction { span: si.span, instruction: Instruction::Output },
                    );
                    idx += 1;
                    proof {
                        assert(suffix.subrange(1, suffix.len() as int) =~= gl.subrange(
                            idx as int,
                            n as int,
                        ));
                        assert(spec_of_list(out@) + spec_opt(gl.subrange(idx as int, n as int))
                            =~= spec_of_list(prev) + spec_opt(suffix));
                    }
                },
                Instruction::Add(_) | Instruction::Subtract(_) | Instruction::Left(_)
                    | Instruction::Right(_) => {
                    let ghost hk = spec_of_instruction(si.instruction);
                    let ghost c0 = spec_count_of(hk);
                    let mut total: usize = Parser::count_of(&si.instruction);
                    let mut k: usize = 1;
                    proof {
                        assert(run_sum(suffix, 0) == 0);
                        assert(run_sum(suffix, 1) == c0);
                        assert(suffix.subrange(1, suffix.len() as int).subrange(
                            0,
                            suffix.len() as int - 1,
                        ) =~= suffix.subrange(1, suffix.len() as int));
                    }
                    while idx + k < n && Parser::is_consecutive_okay(
                        &si.instruction,
                        &instructions[idx + k].instruction,
                    ) && total <= usize::MAX - Parser::count_of(&instructions[idx + k].instruction)
                        invariant
                            1 <= k,
                            idx + k <= n,
                            idx < n,
                            n == instructions@.len(),
                            gl == spec_of_list(instructions@),
                            gl.len() == n,
                            suffix == gl.subrange(idx as int, n as int),
                            hk == spec_of_instruction(instructions@[idx as int].instruction),
                            hk == suffix[0].instruction,
                            spec_mergeable(hk),
                            c0 == spec_count_of(hk),
                            si == &instructions@[idx as int],
                            total as nat == run_sum(suffix, k as int),
                            take_run(suffix.subrange(1, suffix.len() as int), hk, c0) == (k - 1)
                                + take_run(
                                suffix.subrange(k as int, suffix.len() as int),
                                hk,
                                total as nat,
                            ),
                        decreases n - idx - k,
                    {
                        let next_count = Parser::count_of(&instructions[idx + k].instruction);
                        proof {
                            assert(suffix[k as int] == gl[idx as int + k]);
                            assert(gl[idx as int + k] == spec_of_spanned(
                                instructions@[idx as int + k],
                            ));
                            let tail_k = suffix.subrange(k as int, suffix.len() as int);
                            assert(tail_k[0] == suffix[k as int]);
                            assert(tail_k.drop_first() =~= suffix.subrange(
                                k as int + 1,
                                suffix.len() as int,
                            ));
                        }
                        total = total + next_count;
                        k = k + 1;
                    }
                    proof {
                        let tail_k = suffix.subrange(k as int, suffix.len() as int);
                        if idx + k < n {
                            assert(tail_k[0] == gl[idx as int + k]);
                            assert(gl[idx as int + k] == spec_of_spanned(
                                instructions@[idx as int + k],
                            ));
                        }
                        assert(take_run(tail_k, hk, total as nat) == 0);
                        lemma_take_run_le_len(suffix.subrange(1, suffix.len() as int), hk, c0);
                    }
                    let merged = Parser::set_count(&si.instruction, total);
                    let ghost prev = out@;
                    out.push(SpannedInstruction { span: si.span, instruction: merged });
                    idx += k;
                    proof {
                        assert(suffix.subrange(k as int, suffix.len() as int) =~= gl.subrange(
                            idx as int,
                            n as int,
                        ));
                        assert(spec_of_list(out@) + spec_opt(gl.subrange(idx as int, n as int))
                            =~= spec_of_list(prev) + spec_opt(suffix));
                    }
                },
            }
        }
        proof {
            assert(gl.subrange(n as int, n as int).len() == 0);
            assert(spec_of_list(out@) =~= spec_of_list(out@) + spec_opt(
                gl.subrange(n as int, n as int),
            ));
        }
        out
    }
}

} // verus!
