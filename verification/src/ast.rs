//! The instruction tree produced by the parser.
//!
//! A program is an ordered sequence of spanned instructions; `Loop` owns its
//! children, so the program is structurally a tree. The mathematical value of
//! a tree is given by [`SpecInstruction`] and the `spec_of_*` functions; all
//! contracts in the crate speak about that value.

use vstd::prelude::*;

use crate::span::Span;

verus! {

/// One instruction, with counted arithmetic and movement.
///
/// The parser emits unit counts; the optimizer may merge a run of same-kind
/// instructions into one instruction whose count is the sum.
#[derive(Debug)]
pub enum Instruction {
    Add(usize),
    Subtract(usize),
    Loop(Vec<SpannedInstruction>),
    Left(usize),
    Right(usize),
    Input,
    Output,
    Goto(Vec<u8>),
}

/// An instruction together with the source span it came from.
#[derive(Debug)]
pub struct SpannedInstruction {
    pub span: Span,
    pub instruction: Instruction,
}

/// The mathematical value of an [`Instruction`].
pub enum SpecInstruction {
    Add(nat),
    Subtract(nat),
    Loop(Seq<SpecSpanned>),
    Left(nat),
    Right(nat),
    Input,
    Output,
    Goto(Seq<u8>),
}

/// The mathematical value of a [`SpannedInstruction`].
pub struct SpecSpanned {
    pub span: Span,
    pub instruction: SpecInstruction,
}

/// The mathematical value of an instruction.
pub open spec fn spec_of_instruction(i: Instruction) -> SpecInstruction
    decreases i,
{
    match i {
        Instruction::Add(n) => SpecInstruction::Add(n as nat),
        Instruction::Subtract(n) => SpecInstruction::Subtract(n as nat),
        Instruction::Loop(body) => SpecInstruction::Loop(spec_of_vec(body)),
        Instruction::Left(n) => SpecInstruction::Left(n as nat),
        Instruction::Right(n) => SpecInstruction::Right(n as nat),
        Instruction::Input => SpecInstruction::Input,
        Instruction::Output => SpecInstruction::Output,
        Instruction::Goto(name) => SpecInstruction::Goto(name@),
    }
}

/// The mathematical value of a spanned instruction.
pub open spec fn spec_of_spanned(s: SpannedInstruction) -> SpecSpanned
    decreases s,
{
    SpecSpanned { span: s.span, instruction: spec_of_instruction(s.instruction) }
}

/// The mathematical value of a vector of spanned instructions.
pub open spec fn spec_of_vec(v: Vec<SpannedInstruction>) -> Seq<SpecSpanned>
    decreases v,
{
    spec_of_list(v@)
}

/// The mathematical value of a sequence of spanned instructions.
pub open spec fn spec_of_list(s: Seq<SpannedInstruction>) -> Seq<SpecSpanned>
    decreases s,
{
    if s.len() == 0 {
        Seq::empty()
    } else {
        spec_of_list(s.drop_last()).push(spec_of_spanned(s.last()))
    }
}

pub broadcast proof fn lemma_spec_of_list_len(s: Seq<SpannedInstruction>)
    ensures
        #[trigger] spec_of_list(s).len() == s.len(),
    decreases s,
{
    if s.len() > 0 {
        lemma_spec_of_list_len(s.drop_last());
    }
}

pub broadcast proof fn lemma_spec_of_list_index(s: Seq<SpannedInstruction>, i: int)
    requires
        0 <= i < s.len(),
    ensures
        #[trigger] spec_of_list(s)[i] == spec_of_spanned(s[i]),
    decreases s,
{
    lemma_spec_of_list_len(s);
    if i < s.len() - 1 {
        lemma_spec_of_list_index(s.drop_last(), i);
    }
}

pub broadcast proof fn lemma_spec_of_list_push(s: Seq<SpannedInstruction>, x: SpannedInstruction)
    ensures
        #[trigger] spec_of_list(s.push(x)) == spec_of_list(s).push(spec_of_spanned(x)),
{
    assert(s.push(x).drop_last() =~= s);
    assert(s.push(x).last() == x);
}

pub broadcast group group_ast_lemmas {
    lemma_spec_of_list_len,
    lemma_spec_of_list_index,
    lemma_spec_of_list_push,
}

/// Whether two spanned instructions denote the identical tree.
pub fn spanned_equal(a: &SpannedInstruction, b: &SpannedInstruction) -> (r: bool)
    ensures
        r == (spec_of_spanned(*a) == spec_of_spanned(*b)),
    decreases *a,
{
    if a.span.offset != b.span.offset || a.span.length != b.span.length {
        return false;
    }
    match (&a.instruction, &b.instruction) {
        (Instruction::Add(x), Instruction::Add(y)) => x == y,
        (Instruction::Subtract(x), Instruction::Subtract(y)) => x == y,
        (Instruction::Left(x), Instruction::Left(y)) => x == y,
        (Instruction::Right(x), Instruction::Right(y)) => x == y,
        (Instruction::Input, Instruction::Input) => true,
        (Instruction::Output, Instruction::Output) => true,
        (Instruction::Goto(na), Instruction::Goto(nb)) => crate::alias::bytes_eq(na, nb),
        (Instruction::Loop(ba), Instruction::Loop(bb)) => {
            proof {
                assert(decreases_to!(*a => *ba));
            }
            trees_equal(ba, bb)
        },
        _ => false,
    }
}

/// Whether two instruction vectors denote the identical tree.
pub fn trees_equal(a: &Vec<SpannedInstruction>, b: &Vec<SpannedInstruction>) -> (r: bool)
    ensures
        r == (spec_of_list(a@) == spec_of_list(b@)),
    decreases *a,
{
    proof {
        lemma_spec_of_list_len(a@);
        lemma_spec_of_list_len(b@);
    }
    if a.len() != b.len() {
        proof {
            assert(spec_of_list(a@).len() != spec_of_list(b@).len());
        }
        return false;
    }
    let n = a.len();
    let mut i: usize = 0;
    while i < n
        invariant
            i <= n,
            a@.len() == n,
            b@.len() == n,
            spec_of_list(a@).len() == n,
            spec_of_list(b@).len() == n,
            forall|j: int| 0 <= j < i ==> spec_of_list(a@)[j] == spec_of_list(b@)[j],
        decreases n - i,
    {
        proof {
            lemma_spec_of_list_index(a@, i as int);
            lemma_spec_of_list_index(b@, i as int);
            assert(decreases_to!(*a => a@[i as int]));
        }
        if !spanned_equal(&a[i], &b[i]) {
            proof {
                assert(spec_of_list(a@)[i as int] != spec_of_list(b@)[i as int]);
            }
            return false;
        }
        i += 1;
    }
    proof {
        assert(spec_of_list(a@) =~= spec_of_list(b@));
    }
    true
}

/// Whether an instruction may be merged with an identical-kind neighbour.
/// `Loop`, `Goto`, `Input` and `Output` are structural boundaries and never
/// merge.
pub open spec fn spec_mergeable(i: SpecInstruction) -> bool {
    match i {
        SpecInstruction::Add(_) => true,
        SpecInstruction::Subtract(_) => true,
        SpecInstruction::Left(_) => true,
        SpecInstruction::Right(_) => true,
        _ => false,
    }
}

/// Whether two instructions are of the identical mergeable kind.
pub open spec fn spec_same_kind(a: SpecInstruction, b: SpecInstruction) -> bool {
    match (a, b) {
        (SpecInstruction::Add(_), SpecInstruction::Add(_)) => true,
        (SpecInstruction::Subtract(_), SpecInstruction::Subtract(_)) => true,
        (SpecInstruction::Left(_), SpecInstruction::Left(_)) => true,
        (SpecInstruction::Right(_), SpecInstruction::Right(_)) => true,
        _ => false,
    }
}

/// The count carried by a mergeable instruction (0 for the others).
pub open spec fn spec_count_of(i: SpecInstruction) -> nat {
    match i {
        SpecInstruction::Add(n) => n,
        SpecInstruction::Subtract(n) => n,
        SpecInstruction::Left(n) => n,
        SpecInstruction::Right(n) => n,
        _ => 0,
    }
}

/// The same instruction with its count replaced (identity for
/// non-mergeable instructions).
pub open spec fn spec_with_count(i: SpecInstruction, n: nat) -> SpecInstruction {
    match i {
        SpecInstruction::Add(_) => SpecInstruction::Add(n),
        SpecInstruction::Subtract(_) => SpecInstruction::Subtract(n),
        SpecInstruction::Left(_) => SpecInstruction::Left(n),
        SpecInstruction::Right(_) => SpecInstruction::Right(n),
        _ => i,
    }
}

/// Whether a sequence is free of `Loop` and `Input`: such a program never
/// waits and needs no step budget.
pub open spec fn pause_free_list(l: Seq<SpecSpanned>) -> bool
    decreases l,
{
    if l.len() == 0 {
        true
    } else {
        pause_free_spanned(l[0]) && pause_free_list(l.drop_first())
    }
}

/// Whether one instruction is free of `Loop` and `Input`.
pub open spec fn pause_free_spanned(s: SpecSpanned) -> bool
    decreases s,
{
    match s.instruction {
        SpecInstruction::Loop(_) => false,
        SpecInstruction::Input => false,
        _ => true,
    }
}

/// Every element of a pause-free sequence is pause-free.
pub proof fn lemma_pause_free_index(l: Seq<SpecSpanned>, j: int)
    requires
        pause_free_list(l),
        0 <= j < l.len(),
    ensures
        pause_free_spanned(l[j]),
    decreases l,
{
    if j > 0 {
        lemma_pause_free_index(l.drop_first(), j - 1);
        assert(l.drop_first()[j - 1] == l[j]);
    }
}

/// Number of leaf instructions in a sequence: every instruction counts one,
/// except `Goto` (which comes from an alias block) and `Loop` (which counts
/// the leaves of its body).
pub open spec fn leaf_count_list(l: Seq<SpecSpanned>) -> nat
    decreases l,
{
    if l.len() == 0 {
        0
    } else {
        leaf_count_list(l.drop_last()) + leaf_count_spanned(l.last())
    }
}

/// Number of leaf instructions under one spanned instruction.
pub open spec fn leaf_count_spanned(s: SpecSpanned) -> nat
    decreases s,
{
    match s.instruction {
        SpecInstruction::Loop(body) => leaf_count_list(body),
        SpecInstruction::Goto(_) => 0,
        _ => 1,
    }
}

/// Number of `Loop` nodes in a sequence, including nested ones.
pub open spec fn loop_count_list(l: Seq<SpecSpanned>) -> nat
    decreases l,
{
    if l.len() == 0 {
        0
    } else {
        loop_count_list(l.drop_last()) + loop_count_spanned(l.last())
    }
}

/// Number of `Loop` nodes under one spanned instruction.
pub open spec fn loop_count_spanned(s: SpecSpanned) -> nat
    decreases s,
{
    match s.instruction {
        SpecInstruction::Loop(body) => 1 + loop_count_list(body),
        _ => 0,
    }
}

} // verus!
