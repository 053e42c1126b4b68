//! The "explain" view: a structured dump of `(span, description)` pairs for
//! every leaf instruction of a program, in source order, with loop bodies
//! flattened in place. Rendering the pairs is the embedding application's
//! business; the descriptions are plain ASCII bytes.

use vstd::prelude::*;

use crate::alias::clone_bytes;
use crate::ast::{
    group_ast_lemmas, spec_of_list, spec_of_spanned, Instruction, SpannedInstruction,
    SpecInstruction, SpecSpanned,
};
use crate::span::Span;

verus! {

broadcast use group_ast_lemmas;

/// The decimal digits of `n`, most significant first.
pub open spec fn dec_rep(n: nat) -> Seq<u8>
    decreases n,
{
    if n < 10 {
        seq![(48 + n) as u8]
    } else {
        dec_rep(n / 10).push((48 + n % 10) as u8)
    }
}

/// The decimal digits of `n`, most significant first.
pub fn decimal_digits(n: usize) -> (r: Vec<u8>)
    ensures
        r@ == dec_rep(n as nat),
    decreases n,
{
    if n < 10 {
        let mut v: Vec<u8> = Vec::new();
        v.push(48 + (n as u8));
        proof {
            assert(v@ =~= dec_rep(n as nat));
        }
        v
    } else {
        let mut v = decimal_digits(n / 10);
        v.push(48 + ((n % 10) as u8));
        proof {
            assert(v@ =~= dec_rep(n as nat));
        }
        v
    }
}

/// The description of one leaf instruction (empty for `Loop`, whose leaves
/// are described individually).
pub open spec fn spec_describe(i: SpecInstruction) -> Seq<u8> {
    match i {
        SpecInstruction::Add(n) => seq![65u8, 100u8, 100u8, 32u8] + dec_rep(n),
        SpecInstruction::Subtract(n) => seq![
            83u8, 117u8, 98u8, 116u8, 114u8, 97u8, 99u8, 116u8, 32u8,
        ] + dec_rep(n),
        SpecInstruction::Left(n) => seq![
            77u8, 111u8, 118u8, 101u8, 32u8, 108u8, 101u8, 102u8, 116u8, 32u8,
        ] + dec_rep(n) + seq![32u8, 115u8, 112u8, 97u8, 99u8, 101u8, 115u8],
        SpecInstruction::Right(n) => seq![
            77u8, 111u8, 118u8, 101u8, 32u8, 114u8, 105u8, 103u8, 104u8, 116u8, 32u8,
        ] + dec_rep(n) + seq![32u8, 115u8, 112u8, 97u8, 99u8, 101u8, 115u8],
        SpecInstruction::Input => seq![
            84u8, 97u8, 107u8, 101u8, 32u8, 105u8, 110u8, 112u8, 117u8, 116u8,
        ],
        SpecInstruction::Output => seq![
            87u8, 114u8, 105u8, 116u8, 101u8, 32u8, 111u8, 117u8, 116u8, 112u8, 117u8, 116u8,
        ],
        SpecInstruction::Goto(name) => seq![
            71u8, 111u8, 32u8, 116u8, 111u8, 32u8, 97u8, 108u8, 105u8, 97u8, 115u8, 32u8,
        ] + name,
        SpecInstruction::Loop(_) => Seq::empty(),
    }
}

/// The dump of a sequence of spanned instructions: loop bodies are
/// flattened in place, every other instruction contributes one pair.
pub open spec fn spec_describe_list(l: Seq<SpecSpanned>) -> Seq<(Span, Seq<u8>)>
    decreases l,
{
    if l.len() == 0 {
        Seq::empty()
    } else {
        let head = match l[0].instruction {
            SpecInstruction::Loop(body) => spec_describe_list(body),
            _ => seq![(l[0].span, spec_describe(l[0].instruction))],
        };
        head + spec_describe_list(l.drop_first())
    }
}

/// The mathematical value of a dump.
pub open spec fn pairs_view(v: Vec<(Span, Vec<u8>)>) -> Seq<(Span, Seq<u8>)> {
    Seq::new(v@.len(), |i: int| (v@[i].0, v@[i].1@))
}

/// Pushes a literal label followed by decimal digits.
fn describe_counted(label: Vec<u8>, count: usize, tail: Option<Vec<u8>>) -> (r: Vec<u8>)
    ensures
        r@ == label@ + dec_rep(count as nat) + (match tail {
            Some(t) => t@,
            None => Seq::<u8>::empty(),
        }),
{
    let mut out = label;
    let digits = decimal_digits(count);
    let dn = digits.len();
    let mut i: usize = 0;
    while i < dn
        invariant
            i <= dn,
            digits@.len() == dn,
            out@ == label@ + digits@.subrange(0, i as int),
        decreases dn - i,
    {
        out.push(digits[i]);
        i += 1;
        proof {
            assert(out@ =~= label@ + digits@.subrange(0, i as int));
        }
    }
    proof {
        assert(digits@.subrange(0, dn as int) =~= digits@);
    }
    match tail {
        Some(t) => {
            let tn = t.len();
            let mut j: usize = 0;
            while j < tn
                invariant
                    j <= tn,
                    t@.len() == tn,
                    out@ == label@ + dec_rep(count as nat) + t@.subrange(0, j as int),
                decreases tn - j,
            {
                out.push(t[j]);
                j += 1;
                proof {
                    assert(out@ =~= label@ + dec_rep(count as nat) + t@.subrange(0, j as int));
                }
            }
            proof {
                assert(t@.subrange(0, tn as int) =~= t@);
            }
            out
        },
        None => {
            proof {
                assert(out@ =~= label@ + dec_rep(count as nat) + Seq::<u8>::empty());
            }
            out
        },
    }
}

/// Appends the dump of `instructions` to `out`.
fn describe_into(instructions: &Vec<SpannedInstruction>, out: &mut Vec<(Span, Vec<u8>)>)
    ensures
        pairs_view(*final(out)) == pairs_view(*old(out)) + spec_describe_list(
            spec_of_list(instructions@),
        ),
    decreases *instructions,
{
    let ghost gl = spec_of_list(instructions@);
    let n = instructions.len();
    let mut k: usize = 0;
    proof {
        assert(gl.subrange(0, 0).len() == 0);
        assert(pairs_view(*out) =~= pairs_view(*old(out)) + spec_describe_list(
            gl.subrange(0, 0),
        ));
    }
    while k < n
        invariant
            k <= n,
            n == instructions@.len(),
            gl == spec_of_list(instructions@),
            gl.len() == n,
            pairs_view(*out) == pairs_view(*old(out)) + spec_describe_list(
                gl.subrange(0, k as int),
            ),
        decreases n - k,
    {
        let ghost prefix = gl.subrange(0, k as int);
        let si = &instructions[k];
        proof {
            assert(gl[k as int] == spec_of_spanned(instructions@[k as int]));
            assert(gl.subrange(0, k as int + 1) =~= prefix.push(gl[k as int]));
            lemma_describe_snoc(prefix, gl[k as int]);
        }
        match &si.instruction {
            Instruction::Loop(body) => {
                proof {
                    assert(decreases_to!(instructions@ => instructions@[k as int]));
                    assert(decreases_to!(instructions@[k as int] => *body));
                    assert(decreases_to!(*instructions => *body));
                }
                describe_into(body, out);
            },
            Instruction::Add(count) => {
                let ghost before = pairs_view(*out);
                let text = describe_counted(vec![65u8, 100u8, 100u8, 32u8], *count, None);
                out.push((si.span, text));
                proof {
                    assert(pairs_view(*out) =~= before.push(
                        (si.span, spec_describe(gl[k as int].instruction)),
                    ));
                }
            },
            Instruction::Subtract(count) => {
                let ghost before = pairs_view(*out);
                let text = describe_counted(
                    vec![83u8, 117u8, 98u8, 116u8, 114u8, 97u8, 99u8, 116u8, 32u8],
                    *count,
                    None,
                );
                out.push((si.span, text));
                proof {
                    assert(pairs_view(*out) =~= before.push(
                        (si.span, spec_describe(gl[k as int].instruction)),
                    ));
                }
            },
            Instruction::Left(count) => {
                let ghost before = pairs_view(*out);
                let text = describe_counted(
                    vec![77u8, 111u8, 118u8, 101u8, 32u8, 108u8, 101u8, 102u8, 116u8, 32u8],
                    *count,
                    Some(vec![32u8, 115u8, 112u8, 97u8, 99u8, 101u8, 115u8]),
                );
                out.push((si.span, text));
                proof {
                    assert(pairs_view(*out) =~= before.push(
                        (si.span, spec_describe(gl[k as int].instruction)),
                    ));
                }
            },
            Instruction::Right(count) => {
                let ghost before = pairs_view(*out);
                let text = describe_counted(
                    vec![
                        77u8, 111u8, 118u8, 101u8, 32u8, 114u8, 105u8, 103u8, 104u8, 116u8, 32u8,
                    ],
                    *count,
                    Some(vec![32u8, 115u8, 112u8, 97u8, 99u8, 101u8, 115u8]),
                );
                out.push((si.span, text));
                proof {
                    assert(pairs_view(*out) =~= before.push(
                        (si.span, spec_describe(gl[k as int].instruction)),
                    ));
                }
            },
            Instruction::Input => {
                let ghost before = pairs_view(*out);
                let text: Vec<u8> = vec![
                    84u8, 97u8, 107u8, 101u8, 32u8, 105u8, 110u8, 112u8, 117u8, 116u8,
                ];
                out.push((si.span, text));
                proof {
                    assert(pairs_view(*out) =~= before.push(
                        (si.span, spec_describe(gl[k as int].instruction)),
                    ));
                }
            },
            Instruction::Output => {
                let ghost before = pairs_view(*out);
                let text: Vec<u8> = vec![
                    87u8, 114u8, 105u8, 116u8, 101u8, 32u8, 111u8, 117u8, 116u8, 112u8, 117u8,
                    116u8,
                ];
                out.push((si.span, text));
                proof {
                    assert(pairs_view(*out) =~= before.push(
                        (si.span, spec_describe(gl[k as int].instruction)),
                    ));
                }
            },
            Instruction::Goto(name) => {
                let ghost before = pairs_view(*out);
                let mut text: Vec<u8> = vec![
                    71u8, 111u8, 32u8, 116u8, 111u8, 32u8, 97u8, 108u8, 105u8, 97u8, 115u8, 32u8,
                ];
                let ghost label = text@;
                let copy = clone_bytes(name);
                let cn = copy.len();
                let mut j: usize = 0;
                while j < cn
                    invariant
                        j <= cn,
                        copy@.len() == cn,
                        copy@ == name@,
                        text@ == label + copy@.subrange(0, j as int),
                    decreases cn - j,
                {
                    text.push(copy[j]);
                    j += 1;
                    proof {
                        assert(text@ =~= label + copy@.subrange(0, j as int));
                    }
                }
                proof {
                    assert(copy@.subrange(0, cn as int) =~= copy@);
                }
                out.push((si.span, text));
                proof {
                    assert(pairs_view(*out) =~= before.push(
                        (si.span, spec_describe(gl[k as int].instruction)),
                    ));
                }
            },
        }
        proof {
            assert(pairs_view(*out) =~= pairs_view(*old(out)) + spec_describe_list(
                gl.subrange(0, k as int + 1),
            ));
        }
        k += 1;
    }
    proof {
        assert(gl.subrange(0, n as int) =~= gl);
    }
}

/// Splitting a dump at its last instruction.
proof fn lemma_describe_snoc(prefix: Seq<SpecSpanned>, x: SpecSpanned)
    ensures
        spec_describe_list(prefix.push(x)) == spec_describe_list(prefix) + (
        match x.instruction {
            SpecInstruction::Loop(body) => spec_describe_list(body),
            _ => seq![(x.span, spec_describe(x.instruction))],
        }),
    decreases prefix.len(),
{
    let l = prefix.push(x);
    if prefix.len() == 0 {
        assert(l[0] == x);
        assert(l.drop_first() =~= Seq::<SpecSpanned>::empty());
        assert(spec_describe_list(l.drop_first()) =~= Seq::<(Span, Seq<u8>)>::empty());
        assert(spec_describe_list(prefix) =~= Seq::<(Span, Seq<u8>)>::empty());
        assert(spec_describe_list(l) =~= (match x.instruction {
            SpecInstruction::Loop(body) => spec_describe_list(body),
            _ => seq![(x.span, spec_describe(x.instruction))],
        }));
        assert(spec_describe_list(prefix.push(x)) =~= spec_describe_list(prefix) + (
        match x.instruction {
            SpecInstruction::Loop(body) => spec_describe_list(body),
            _ => seq![(x.span, spec_describe(x.instruction))],
        }));
    } else {
        assert(l[0] == prefix[0]);
        assert(l.drop_first() =~= prefix.drop_first().push(x));
        lemma_describe_snoc(prefix.drop_first(), x);
        assert(spec_describe_list(prefix.push(x)) =~= spec_describe_list(prefix) + (
        match x.instruction {
            SpecInstruction::Loop(body) => spec_describe_list(body),
            _ => seq![(x.span, spec_describe(x.instruction))],
        }));
    }
}

/// The structured dump of `(span, description)` pairs for every leaf
/// instruction of a program, in source order.
pub fn produce_labeled_spans(instructions: &Vec<SpannedInstruction>) -> (r: Vec<(Span, Vec<u8>)>)
    ensures
        pairs_view(r) == spec_describe_list(spec_of_list(instructions@)),
{
    let mut out: Vec<(Span, Vec<u8>)> = Vec::new();
    proof {
        assert(pairs_view(out) =~= Seq::<(Span, Seq<u8>)>::empty());
    }
    describe_into(instructions, &mut out);
    out
}

} // verus!
