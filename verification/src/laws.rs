//! The crate-level laws: the merge pass is idempotent and preserves the
//! evaluator's verdict, and parsing well-formed text yields the expected
//! node counts.

use vstd::prelude::*;

use vstd::arithmetic::div_mod::{
    lemma_add_mod_noop, lemma_add_mod_noop_right, lemma_sub_mod_noop, lemma_sub_mod_noop_right,
};

use crate::ast::{
    spec_count_of, spec_mergeable, spec_same_kind, spec_with_count, SpecInstruction, SpecSpanned,
};
use crate::optimize::{lemma_take_run_le_len, run_sum, spec_opt, take_run};
use crate::ast::{leaf_count_list, leaf_count_spanned, loop_count_list, loop_count_spanned};
use crate::parser::{is_unit_op, sparse, spec_parse, ParseMode, SpecParse};
use crate::semantics::{
    eval_list, eval_spanned, faults_list, reaches_list, state_wf, SpecConfig, SpecRes, SpecState,
};
use crate::span::Span;
use crate::tape::TapeMode;

verus! {

/// No two neighbours may still merge: every adjacent pair is either of
/// different kinds, structural, or would overflow a machine word; loop
/// bodies are normalized too.
pub open spec fn normalized(l: Seq<SpecSpanned>) -> bool
    decreases l,
{
    if l.len() == 0 {
        true
    } else {
        let head_ok = match l[0].instruction {
            SpecInstruction::Loop(body) => normalized(body),
            _ => true,
        };
        &&& head_ok
        &&& normalized(l.drop_first())
        &&& (l.len() >= 2 ==> !(spec_same_kind(l[0].instruction, l[1].instruction)
            && spec_count_of(l[0].instruction) + spec_count_of(l[1].instruction) <= usize::MAX))
    }
}

/// `run_sum` grows with the number of summed instructions.
proof fn lemma_run_sum_mono(l: Seq<SpecSpanned>, a: int, b: int)
    requires
        a <= b,
    ensures
        run_sum(l, a) <= run_sum(l, b),
    decreases b - a,
{
    if a < b {
        lemma_run_sum_mono(l, a, b - 1);
    }
}

/// Splitting a sum at its first element.
proof fn lemma_run_sum_shift(l: Seq<SpecSpanned>, k: int)
    requires
        1 <= k <= l.len(),
    ensures
        run_sum(l, k) == spec_count_of(l[0].instruction) + run_sum(l.drop_first(), k - 1),
    decreases k,
{
    if k == 1 {
        assert(run_sum(l, 1) == run_sum(l, 0) + spec_count_of(l[0].instruction));
    } else {
        lemma_run_sum_shift(l, k - 1);
        assert(l.drop_first()[k - 2] == l[k - 1]);
    }
}

/// What the greedy run extension guarantees: it never leaves the list, the
/// summed counts stay within a machine word, every taken element is of the
/// run's kind, and the first element not taken (if any) would not extend
/// the run.
proof fn lemma_take_run_facts(m: Seq<SpecSpanned>, hk: SpecInstruction, acc: nat)
    ensures
        ({
            let t = take_run(m, hk, acc) as int;
            &&& t <= m.len()
            &&& (t == 0 || acc + run_sum(m, t) <= usize::MAX)
            &&& (forall|j: int| 0 <= j < t ==> spec_same_kind(hk, #[trigger] m[j].instruction))
            &&& (t < m.len() ==> !(spec_same_kind(hk, m[t].instruction) && acc + run_sum(m, t)
                + spec_count_of(m[t].instruction) <= usize::MAX))
        }),
    decreases m.len(),
{
    let t = take_run(m, hk, acc) as int;
    if m.len() == 0 {
        assert(run_sum(m, 0) == 0);
    } else if spec_same_kind(hk, m[0].instruction) && acc + spec_count_of(m[0].instruction)
        <= usize::MAX {
        let acc2 = (acc + spec_count_of(m[0].instruction)) as nat;
        lemma_take_run_facts(m.drop_first(), hk, acc2);
        let t2 = take_run(m.drop_first(), hk, acc2) as int;
        lemma_run_sum_shift(m, t);
        assert forall|j: int| 0 <= j < t implies spec_same_kind(
            hk,
            #[trigger] m[j].instruction,
        ) by {
            if j > 0 {
                assert(m.drop_first()[j - 1] == m[j]);
            }
        }
        if t < m.len() {
            assert(m.drop_first()[t2] == m[t]);
        }
    } else {
        assert(run_sum(m, 0) == 0);
    }
}

/// The shape of the first merged element: a structural head stays in place
/// (a loop with its body merged), a mergeable head keeps its kind and its
/// count can only grow.
proof fn lemma_opt_head(m: Seq<SpecSpanned>)
    requires
        m.len() > 0,
    ensures
        spec_opt(m).len() > 0,
        spec_opt(m)[0].span == m[0].span,
        match m[0].instruction {
            SpecInstruction::Loop(body) => spec_opt(m)[0].instruction == SpecInstruction::Loop(
                spec_opt(body),
            ),
            _ => true,
        },
        spec_mergeable(m[0].instruction) ==> spec_same_kind(
            m[0].instruction,
            spec_opt(m)[0].instruction,
        ) && spec_count_of(spec_opt(m)[0].instruction) >= spec_count_of(m[0].instruction),
        !spec_mergeable(m[0].instruction) ==> spec_opt(m)[0].instruction == m[0].instruction || (
        m[0].instruction matches SpecInstruction::Loop(_)),
{
    let h = m[0];
    match h.instruction {
        SpecInstruction::Loop(body) => {},
        SpecInstruction::Goto(_) => {},
        SpecInstruction::Input => {},
        SpecInstruction::Output => {},
        _ => {
            let c0 = spec_count_of(h.instruction);
            let rest = m.subrange(1, m.len() as int);
            lemma_take_run_le_len(rest, h.instruction, c0);
            lemma_take_run_facts(rest, h.instruction, c0);
            let k = 1 + take_run(rest, h.instruction, c0) as int;
            lemma_run_sum_shift(m, k);
            assert(rest =~= m.drop_first());
            lemma_run_sum_mono(m, 1, k);
            assert(run_sum(m, 1) == run_sum(m, 0) + c0);
            assert(run_sum(m, 0) == 0);
        },
    }
}

/// The merge pass leaves a normalized list.
pub proof fn lemma_opt_normalized(l: Seq<SpecSpanned>)
    ensures
        normalized(spec_opt(l)),
    decreases l,
{
    if l.len() == 0 {
    } else {
        let h = l[0];
        match h.instruction {
            SpecInstruction::Loop(body) => {
                lemma_opt_normalized(body);
                let rest = l.subrange(1, l.len() as int);
                lemma_opt_normalized(rest);
                let hd = SpecSpanned {
                    span: h.span,
                    instruction: SpecInstruction::Loop(spec_opt(body)),
                };
                lemma_cons_normalized(hd, spec_opt(rest));
            },
            SpecInstruction::Goto(_) => {
                let rest = l.subrange(1, l.len() as int);
                lemma_opt_normalized(rest);
                lemma_cons_normalized(h, spec_opt(rest));
            },
            SpecInstruction::Input => {
                let rest = l.subrange(1, l.len() as int);
                lemma_opt_normalized(rest);
                lemma_cons_normalized(h, spec_opt(rest));
            },
            SpecInstruction::Output => {
                let rest = l.subrange(1, l.len() as int);
                lemma_opt_normalized(rest);
                lemma_cons_normalized(h, spec_opt(rest));
            },
            _ => {
                let c0 = spec_count_of(h.instruction);
                let tail = l.subrange(1, l.len() as int);
                lemma_take_run_le_len(tail, h.instruction, c0);
                lemma_take_run_facts(tail, h.instruction, c0);
                let k = 1 + take_run(tail, h.instruction, c0) as int;
                let total = run_sum(l, k);
                let rest = l.subrange(k, l.len() as int);
                lemma_opt_normalized(rest);
                let hd = SpecSpanned {
                    span: h.span,
                    instruction: spec_with_count(h.instruction, total),
                };
                assert(tail =~= l.drop_first());
                lemma_run_sum_shift(l, k);
                if rest.len() > 0 {
                    lemma_opt_head(rest);
                    assert(tail[k - 1] == l[k]);
                    assert(rest[0] == l[k]);
                }
                lemma_cons_normalized(hd, spec_opt(rest));
            },
        }
    }
}

/// A head that cannot merge with the head of a normalized tail gives a
/// normalized list.
proof fn lemma_cons_normalized(x: SpecSpanned, r: Seq<SpecSpanned>)
    requires
        normalized(r),
        match x.instruction {
            SpecInstruction::Loop(body) => normalized(body),
            _ => true,
        },
        r.len() > 0 ==> !(spec_same_kind(x.instruction, r[0].instruction) && spec_count_of(
            x.instruction,
        ) + spec_count_of(r[0].instruction) <= usize::MAX),
    ensures
        normalized(seq![x] + r),
{
    let l = seq![x] + r;
    assert(l[0] == x);
    assert(l.drop_first() =~= r);
    if r.len() > 0 {
        assert(l[1] == r[0]);
    }
}

/// On a normalized list the merge pass is the identity.
pub proof fn lemma_opt_of_normalized(l: Seq<SpecSpanned>)
    requires
        normalized(l),
    ensures
        spec_opt(l) == l,
    decreases l,
{
    if l.len() == 0 {
        assert(spec_opt(l) =~= l);
    } else {
        let h = l[0];
        let rest = l.subrange(1, l.len() as int);
        assert(rest =~= l.drop_first());
        match h.instruction {
            SpecInstruction::Loop(body) => {
                lemma_opt_of_normalized(body);
                lemma_opt_of_normalized(rest);
                assert(SpecSpanned {
                    span: h.span,
                    instruction: SpecInstruction::Loop(spec_opt(body)),
                } == h);
                assert(seq![h] + rest =~= l);
            },
            SpecInstruction::Goto(_) => {
                lemma_opt_of_normalized(rest);
                assert(seq![h] + rest =~= l);
            },
            SpecInstruction::Input => {
                lemma_opt_of_normalized(rest);
                assert(seq![h] + rest =~= l);
            },
            SpecInstruction::Output => {
                lemma_opt_of_normalized(rest);
                assert(seq![h] + rest =~= l);
            },
            _ => {
                let c0 = spec_count_of(h.instruction);
                if rest.len() > 0 {
                    assert(rest[0] == l[1]);
                }
                assert(take_run(rest, h.instruction, c0) == 0);
                assert(run_sum(l, 1) == run_sum(l, 0) + c0);
                assert(run_sum(l, 0) == 0);
                assert(spec_with_count(h.instruction, c0) == h.instruction);
                assert(SpecSpanned { span: h.span, instruction: spec_with_count(h.instruction, c0) }
                    == h);
                lemma_opt_of_normalized(rest);
                assert(seq![h] + rest =~= l);
            },
        }
    }
}

/// Merging an already-merged tree returns it unchanged.
pub proof fn lemma_optimise_idempotent(l: Seq<SpecSpanned>)
    ensures
        spec_opt(spec_opt(l)) == spec_opt(l),
{
    lemma_opt_normalized(l);
    lemma_opt_of_normalized(spec_opt(l));
}

/// How the verdicts of the original and the merged tree relate: completed
/// runs end in the identical state; faulting runs have produced the
/// identical output; pending stays pending.
pub open spec fn res_agree(orig: SpecRes, merged: SpecRes) -> bool {
    match (orig, merged) {
        (SpecRes::Done(a), SpecRes::Done(b)) => a == b,
        (SpecRes::Fault(sa, fa, pa), SpecRes::Fault(sb, fb, pb)) => sa.output == sb.output,
        (SpecRes::Pending, SpecRes::Pending) => true,
        _ => false,
    }
}

proof fn lemma_mod_add_assoc(p: int, a: int, b: int, m: int)
    requires
        m >= 1,
    ensures
        ((p + a) % m + b) % m == (p + a + b) % m,
{
    lemma_add_mod_noop(p + a, b, m);
    lemma_add_mod_noop_right((p + a) % m, b, m);
}

proof fn lemma_mod_sub_assoc(p: int, a: int, b: int, m: int)
    requires
        m >= 1,
    ensures
        ((p - a) % m - b) % m == (p - a - b) % m,
{
    lemma_sub_mod_noop(p - a, b, m);
    lemma_sub_mod_noop_right((p - a) % m, b, m);
}

/// Away from `Append` mode, evaluation keeps the state well-formed and
/// never changes the number of cells.
proof fn lemma_eval_wf_spanned(cfg: SpecConfig, s: SpecSpanned, st: SpecState, fuel: nat)
    requires
        cfg.tape_mode != TapeMode::Append,
        state_wf(st),
    ensures
        match eval_spanned(cfg, s, st, fuel) {
            SpecRes::Done(st2) => state_wf(st2) && st2.cells.len() == st.cells.len(),
            SpecRes::Fault(st2, f, sp) => state_wf(st2) && st2.cells.len() == st.cells.len(),
            SpecRes::Pending => true,
        },
    decreases fuel, s,
{
    let len = st.cells.len() as int;
    match s.instruction {
        SpecInstruction::Loop(body) => {
            if st.cells[st.pointer] != 0 && fuel > 0 {
                lemma_eval_wf_list(cfg, body, st, (fuel - 1) as nat);
                match eval_list(cfg, body, st, (fuel - 1) as nat) {
                    SpecRes::Done(st1) => {
                        lemma_eval_wf_spanned(cfg, s, st1, (fuel - 1) as nat);
                    },
                    _ => {},
                }
            }
        },
        SpecInstruction::Left(n) => {
            if cfg.tape_mode == TapeMode::Circular {
                vstd::arithmetic::div_mod::lemma_mod_bound(st.pointer - n, len);
            }
        },
        SpecInstruction::Right(n) => {
            if cfg.tape_mode == TapeMode::Circular {
                vstd::arithmetic::div_mod::lemma_mod_bound(st.pointer + n, len);
            }
        },
        SpecInstruction::Goto(name) => {
            match crate::alias::alias_lookup(st.aliases, name) {
                Some(addr) => {
                    crate::alias::lemma_lookup_some_claimed(st.aliases, name);
                    let j = choose|j: int|
                        0 <= j < st.aliases.len() && st.aliases[j] == (name, addr);
                    assert(st.aliases[j].1 == addr);
                },
                None => {
                    if cfg.lazy_alloc {
                        crate::alias::lemma_free_slot_in_range(
                            st.cells,
                            st.aliases,
                            st.cells.len(),
                        );
                        match crate::alias::spec_free_slot(st.cells, st.aliases, st.cells.len()) {
                            Some(addr) => {
                                let m2 = st.aliases.push((name, addr));
                                assert forall|t: int| 0 <= t < m2.len() implies 0
                                    <= #[trigger] m2[t].1 < len by {
                                    if t < st.aliases.len() {
                                        assert(m2[t] == st.aliases[t]);
                                    } else {
                                        assert(m2[t] == (name, addr));
                                    }
                                }
                            },
                            None => {},
                        }
                    }
                },
            }
        },
        _ => {},
    }
}

/// Away from `Append` mode, evaluation keeps the state well-formed and
/// never changes the number of cells.
proof fn lemma_eval_wf_list(cfg: SpecConfig, l: Seq<SpecSpanned>, st: SpecState, fuel: nat)
    requires
        cfg.tape_mode != TapeMode::Append,
        state_wf(st),
    ensures
        match eval_list(cfg, l, st, fuel) {
            SpecRes::Done(st2) => state_wf(st2) && st2.cells.len() == st.cells.len(),
            SpecRes::Fault(st2, f, sp) => state_wf(st2) && st2.cells.len() == st.cells.len(),
            SpecRes::Pending => true,
        },
    decreases fuel, l,
{
    if l.len() > 0 {
        lemma_eval_wf_spanned(cfg, l[0], st, fuel);
        match eval_spanned(cfg, l[0], st, fuel) {
            SpecRes::Done(st1) => {
                lemma_eval_wf_list(cfg, l.drop_first(), st1, fuel);
            },
            _ => {},
        }
    }
}

/// Splitting the evaluation of a concatenated sequence.
proof fn lemma_eval_list_append(
    cfg: SpecConfig,
    a: Seq<SpecSpanned>,
    b: Seq<SpecSpanned>,
    st: SpecState,
    fuel: nat,
)
    ensures
        eval_list(cfg, a + b, st, fuel) == (match eval_list(cfg, a, st, fuel) {
            SpecRes::Done(st1) => eval_list(cfg, b, st1, fuel),
            other => other,
        }),
    decreases a.len(),
{
    if a.len() == 0 {
        assert(a + b =~= b);
    } else {
        assert((a + b)[0] == a[0]);
        assert((a + b).drop_first() =~= a.drop_first() + b);
        match eval_spanned(cfg, a[0], st, fuel) {
            SpecRes::Done(st1) => {
                lemma_eval_list_append(cfg, a.drop_first(), b, st1, fuel);
            },
            _ => {},
        }
    }
}

/// Two sequences that agree on their first `k` elements sum those counts
/// identically.
proof fn lemma_run_sum_prefix(a: Seq<SpecSpanned>, b: Seq<SpecSpanned>, k: int)
    requires
        k <= a.len(),
        k <= b.len(),
        forall|j: int| 0 <= j < k ==> a[j] == b[j],
    ensures
        run_sum(a, k) == run_sum(b, k),
    decreases k,
{
    if k > 0 {
        lemma_run_sum_prefix(a, b, k - 1);
        assert(a[k - 1] == b[k - 1]);
    }
}

/// Doing a mergeable step with count `a` and then one with count `b` agrees
/// with the single step of count `a + b`, away from `Append` mode: equal
/// states on success, and failures coincide without touching the output.
#[verifier::rlimit(100)]
proof fn lemma_merge_two(
    cfg: SpecConfig,
    hk: SpecInstruction,
    a: nat,
    b: nat,
    st: SpecState,
    sp1: Span,
    sp2: Span,
    spm: Span,
    fuel: nat,
)
    requires
        cfg.tape_mode != TapeMode::Append,
        spec_mergeable(hk),
        state_wf(st),
    ensures
        ({
            let r1 = eval_spanned(
                cfg,
                SpecSpanned { span: sp1, instruction: spec_with_count(hk, a) },
                st,
                fuel,
            );
            let rm = eval_spanned(
                cfg,
                SpecSpanned { span: spm, instruction: spec_with_count(hk, (a + b) as nat) },
                st,
                fuel,
            );
            match r1 {
                SpecRes::Done(st1) => {
                    let r2 = eval_spanned(
                        cfg,
                        SpecSpanned { span: sp2, instruction: spec_with_count(hk, b) },
                        st1,
                        fuel,
                    );
                    match (r2, rm) {
                        (SpecRes::Done(x), SpecRes::Done(y)) => x == y,
                        (SpecRes::Fault(s2, f2, p2), SpecRes::Fault(sm, fm, pm)) => s2.output
                            == st.output && sm.output == st.output,
                        _ => false,
                    }
                },
                SpecRes::Fault(s1, f1, p1) => s1.output == st.output && (rm matches SpecRes::Fault(
                    sm,
                    fm,
                    pm,
                ) && sm.output == st.output),
                SpecRes::Pending => false,
            }
        }),
{
    let len = st.cells.len() as int;
    let p = st.pointer;
    let v = st.cells[p];
    match hk {
        SpecInstruction::Add(_) => {
            let w1 = crate::tape::cell_add_value(cfg.cell_mode, v, a);
            if cfg.cell_mode == crate::tape::CellMode::Circular {
                lemma_mod_add_assoc(v as int, a as int, b as int, 256);
                vstd::arithmetic::div_mod::lemma_mod_bound(v + a, 256);
            }
            if crate::tape::cell_add_ok(cfg.cell_mode, v, a) && crate::tape::cell_add_ok(
                cfg.cell_mode,
                w1,
                b,
            ) {
                let w2 = crate::tape::cell_add_value(cfg.cell_mode, w1, b);
                let wm = crate::tape::cell_add_value(cfg.cell_mode, v, (a + b) as nat);
                assert(w2 == wm);
                assert(st.cells.update(p, w1).update(p, w2) =~= st.cells.update(p, wm));
                assert(st.cells.update(p, w1)[p] == w1);
            }
        },
        SpecInstruction::Subtract(_) => {
            let w1 = crate::tape::cell_sub_value(cfg.cell_mode, v, a);
            if cfg.cell_mode == crate::tape::CellMode::Circular {
                lemma_mod_sub_assoc(v as int, a as int, b as int, 256);
                vstd::arithmetic::div_mod::lemma_mod_bound(v - a, 256);
            }
            if crate::tape::cell_sub_ok(cfg.cell_mode, v, a) && crate::tape::cell_sub_ok(
                cfg.cell_mode,
                w1,
                b,
            ) {
                let w2 = crate::tape::cell_sub_value(cfg.cell_mode, w1, b);
                let wm = crate::tape::cell_sub_value(cfg.cell_mode, v, (a + b) as nat);
                assert(w2 == wm);
                assert(st.cells.update(p, w1).update(p, w2) =~= st.cells.update(p, wm));
                assert(st.cells.update(p, w1)[p] == w1);
            }
        },
        SpecInstruction::Left(_) => {
            if cfg.tape_mode == TapeMode::Circular {
                lemma_mod_sub_assoc(p, a as int, b as int, len);
                vstd::arithmetic::div_mod::lemma_mod_bound(p - a, len);
            }
        },
        SpecInstruction::Right(_) => {
            if cfg.tape_mode == TapeMode::Circular {
                lemma_mod_add_assoc(p, a as int, b as int, len);
                vstd::arithmetic::div_mod::lemma_mod_bound(p + a, len);
            }
        },
        _ => {},
    }
}

/// A mergeable step that fails keeps failing when its count grows.
proof fn lemma_fail_mono(
    cfg: SpecConfig,
    hk: SpecInstruction,
    a: nat,
    b: nat,
    st: SpecState,
    sp1: Span,
    spm: Span,
    fuel: nat,
)
    requires
        cfg.tape_mode != TapeMode::Append,
        spec_mergeable(hk),
        a <= b,
        eval_spanned(
            cfg,
            SpecSpanned { span: sp1, instruction: spec_with_count(hk, a) },
            st,
            fuel,
        ) matches SpecRes::Fault(s1, f1, p1),
    ensures
        eval_spanned(
            cfg,
            SpecSpanned { span: spm, instruction: spec_with_count(hk, b) },
            st,
            fuel,
        ) matches SpecRes::Fault(sm, fm, pm) && sm.output == st.output,
{
}

/// Evaluating a run of identical-kind mergeable instructions agrees with
/// evaluating the single merged instruction.
proof fn lemma_run_eval(
    cfg: SpecConfig,
    p: Seq<SpecSpanned>,
    hk: SpecInstruction,
    st: SpecState,
    fuel: nat,
    merged: SpecSpanned,
)
    requires
        cfg.tape_mode != TapeMode::Append,
        spec_mergeable(hk),
        state_wf(st),
        p.len() >= 1,
        forall|j: int| 0 <= j < p.len() ==> spec_same_kind(hk, #[trigger] p[j].instruction),
        merged.instruction == spec_with_count(hk, run_sum(p, p.len() as int)),
    ensures
        ({
            let r1 = eval_list(cfg, p, st, fuel);
            let rm = eval_spanned(cfg, merged, st, fuel);
            match (r1, rm) {
                (SpecRes::Done(x), SpecRes::Done(y)) => x == y,
                (SpecRes::Fault(sa, fa, pa), SpecRes::Fault(sb, fb, pb)) => sa.output == st.output
                    && sb.output == st.output,
                _ => false,
            }
        }),
    decreases p.len(),
{
    let k = p.len() as int;
    let a = spec_count_of(p[0].instruction);
    assert(spec_with_count(hk, a) == p[0].instruction);
    lemma_run_sum_shift(p, k);
    assert(run_sum(p, 1) == run_sum(p, 0) + a);
    assert(run_sum(p, 0) == 0);
    if k == 1 {
        assert(run_sum(p, 1) == a);
        match eval_spanned(cfg, p[0], st, fuel) {
            SpecRes::Done(st1) => {
                assert(eval_list(cfg, p.drop_first(), st1, fuel) == SpecRes::Done(st1));
                lemma_merge_two(cfg, hk, a, 0, st, p[0].span, merged.span, merged.span, fuel);
                assert(eval_spanned(cfg, merged, st, fuel) == eval_spanned(
                    cfg,
                    SpecSpanned { span: merged.span, instruction: spec_with_count(hk, a) },
                    st,
                    fuel,
                ));
            },
            SpecRes::Fault(s1, f1, p1) => {
                lemma_fail_mono(cfg, hk, a, a, st, p[0].span, merged.span, fuel);
            },
            SpecRes::Pending => {
                assert(false);
            },
        }
    } else {
        let rest = p.drop_first();
        let total2 = run_sum(rest, k - 1);
        let merged2 = SpecSpanned {
            span: merged.span,
            instruction: spec_with_count(hk, total2),
        };
        assert forall|j: int| 0 <= j < rest.len() implies spec_same_kind(
            hk,
            #[trigger] rest[j].instruction,
        ) by {
            assert(rest[j] == p[j + 1]);
        }
        match eval_spanned(cfg, p[0], st, fuel) {
            SpecRes::Done(st1) => {
                lemma_eval_wf_spanned(cfg, p[0], st, fuel);
                assert(st1.output == st.output);
                lemma_run_eval(cfg, rest, hk, st1, fuel, merged2);
                lemma_merge_two(
                    cfg,
                    hk,
                    a,
                    total2,
                    st,
                    p[0].span,
                    merged2.span,
                    merged.span,
                    fuel,
                );
            },
            SpecRes::Fault(s1, f1, p1) => {
                lemma_fail_mono(cfg, hk, a, (a + total2) as nat, st, p[0].span, merged.span, fuel);
            },
            SpecRes::Pending => {
                assert(false);
            },
        }
    }
}

/// The merged tree and the original tree give agreeing verdicts for every
/// amount of fuel, away from `Append` mode.
pub proof fn lemma_optimise_equivalent(
    cfg: SpecConfig,
    l: Seq<SpecSpanned>,
    st: SpecState,
    fuel: nat,
)
    requires
        cfg.tape_mode != TapeMode::Append,
        state_wf(st),
    ensures
        res_agree(eval_list(cfg, l, st, fuel), eval_list(cfg, spec_opt(l), st, fuel)),
    decreases fuel, l, 1nat,
{
    if l.len() == 0 {
    } else {
        let h = l[0];
        let rest = l.subrange(1, l.len() as int);
        assert(rest =~= l.drop_first());
        match h.instruction {
            SpecInstruction::Loop(body) => {
                let hm = SpecSpanned {
                    span: h.span,
                    instruction: SpecInstruction::Loop(spec_opt(body)),
                };
                lemma_optimise_equivalent_loop(cfg, h, body, st, fuel);
                assert(spec_opt(l) == seq![hm] + spec_opt(rest));
                assert((seq![hm] + spec_opt(rest))[0] == hm);
                assert((seq![hm] + spec_opt(rest)).drop_first() =~= spec_opt(rest));
                match eval_spanned(cfg, h, st, fuel) {
                    SpecRes::Done(st1) => {
                        lemma_eval_wf_spanned(cfg, h, st, fuel);
                        lemma_optimise_equivalent(cfg, rest, st1, fuel);
                    },
                    _ => {},
                }
            },
            SpecInstruction::Goto(_) => {
                lemma_optimise_equivalent_keep(cfg, l, h, rest, st, fuel);
            },
            SpecInstruction::Input => {
                lemma_optimise_equivalent_keep(cfg, l, h, rest, st, fuel);
            },
            SpecInstruction::Output => {
                lemma_optimise_equivalent_keep(cfg, l, h, rest, st, fuel);
            },
            _ => {
                let c0 = spec_count_of(h.instruction);
                let tail = l.subrange(1, l.len() as int);
                lemma_take_run_le_len(tail, h.instruction, c0);
                lemma_take_run_facts(tail, h.instruction, c0);
                let k = 1 + take_run(tail, h.instruction, c0) as int;
                let total = run_sum(l, k);
                let run = l.subrange(0, k);
                let after = l.subrange(k, l.len() as int);
                let merged = SpecSpanned {
                    span: h.span,
                    instruction: spec_with_count(h.instruction, total),
                };
                assert(l =~= run + after);
                lemma_eval_list_append(cfg, run, after, st, fuel);
                assert forall|j: int| 0 <= j < run.len() implies spec_same_kind(
                    h.instruction,
                    #[trigger] run[j].instruction,
                ) by {
                    if j > 0 {
                        assert(tail[j - 1] == l[j]);
                        assert(run[j] == l[j]);
                    }
                }
                lemma_run_sum_prefix(run, l, k);
                lemma_run_eval(cfg, run, h.instruction, st, fuel, merged);
                assert(spec_opt(l) == seq![merged] + spec_opt(after));
                assert((seq![merged] + spec_opt(after))[0] == merged);
                assert((seq![merged] + spec_opt(after)).drop_first() =~= spec_opt(after));
                match eval_list(cfg, run, st, fuel) {
                    SpecRes::Done(st1) => {
                        lemma_eval_wf_list(cfg, run, st, fuel);
                        lemma_optimise_equivalent(cfg, after, st1, fuel);
                    },
                    _ => {},
                }
            },
        }
    }
}

/// Equivalence for a head that the pass keeps unchanged.
proof fn lemma_optimise_equivalent_keep(
    cfg: SpecConfig,
    l: Seq<SpecSpanned>,
    h: SpecSpanned,
    rest: Seq<SpecSpanned>,
    st: SpecState,
    fuel: nat,
)
    requires
        cfg.tape_mode != TapeMode::Append,
        state_wf(st),
        l.len() > 0,
        h == l[0],
        rest == l.subrange(1, l.len() as int),
        spec_opt(l) == seq![h] + spec_opt(rest),
    ensures
        res_agree(eval_list(cfg, l, st, fuel), eval_list(cfg, spec_opt(l), st, fuel)),
    decreases fuel, l, 0nat,
{
    assert(rest =~= l.drop_first());
    assert((seq![h] + spec_opt(rest))[0] == h);
    assert((seq![h] + spec_opt(rest)).drop_first() =~= spec_opt(rest));
    match eval_spanned(cfg, h, st, fuel) {
        SpecRes::Done(st1) => {
            lemma_eval_wf_spanned(cfg, h, st, fuel);
            lemma_optimise_equivalent(cfg, rest, st1, fuel);
        },
        _ => {},
    }
}

/// Equivalence for one loop: the loop with its body merged agrees with the
/// original loop.
proof fn lemma_optimise_equivalent_loop(
    cfg: SpecConfig,
    s: SpecSpanned,
    body: Seq<SpecSpanned>,
    st: SpecState,
    fuel: nat,
)
    requires
        cfg.tape_mode != TapeMode::Append,
        state_wf(st),
        s.instruction == SpecInstruction::Loop(body),
    ensures
        res_agree(
            eval_spanned(cfg, s, st, fuel),
            eval_spanned(
                cfg,
                SpecSpanned { span: s.span, instruction: SpecInstruction::Loop(spec_opt(body)) },
                st,
                fuel,
            ),
        ),
    decreases fuel, s, 0nat,
{
    let sm = SpecSpanned { span: s.span, instruction: SpecInstruction::Loop(spec_opt(body)) };
    if st.cells[st.pointer] == 0 {
    } else if fuel == 0 {
    } else {
        lemma_optimise_equivalent(cfg, body, st, (fuel - 1) as nat);
        match eval_list(cfg, body, st, (fuel - 1) as nat) {
            SpecRes::Done(st1) => {
                lemma_eval_wf_list(cfg, body, st, (fuel - 1) as nat);
                lemma_optimise_equivalent_loop(cfg, s, body, st1, (fuel - 1) as nat);
            },
            _ => {},
        }
    }
}

/// Away from `Append` mode, the merged tree completes from a well-formed
/// state exactly when the original does, and in the identical final state.
pub proof fn lemma_optimise_reaches(
    cfg: SpecConfig,
    l: Seq<SpecSpanned>,
    st: SpecState,
    st2: SpecState,
)
    requires
        cfg.tape_mode != TapeMode::Append,
        state_wf(st),
    ensures
        reaches_list(cfg, l, st, st2) <==> reaches_list(cfg, spec_opt(l), st, st2),
{
    if reaches_list(cfg, l, st, st2) {
        let f = choose|f: nat| eval_list(cfg, l, st, f) == SpecRes::Done(st2);
        lemma_optimise_equivalent(cfg, l, st, f);
    }
    if reaches_list(cfg, spec_opt(l), st, st2) {
        let f = choose|f: nat| eval_list(cfg, spec_opt(l), st, f) == SpecRes::Done(st2);
        lemma_optimise_equivalent(cfg, l, st, f);
    }
}

/// Away from `Append` mode, when the original tree faults from a
/// well-formed state, the merged tree faults too, having produced the
/// identical output.
pub proof fn lemma_optimise_faults(
    cfg: SpecConfig,
    l: Seq<SpecSpanned>,
    st: SpecState,
    ste: SpecState,
    f: crate::errors::SpecFault,
    sp: Span,
)
    requires
        cfg.tape_mode != TapeMode::Append,
        state_wf(st),
        faults_list(cfg, l, st, ste, f, sp),
    ensures
        exists|ste2: SpecState, f2: crate::errors::SpecFault, sp2: Span|
            faults_list(cfg, spec_opt(l), st, ste2, f2, sp2) && ste2.output == ste.output,
{
    let fuel = choose|fuel: nat| eval_list(cfg, l, st, fuel) == SpecRes::Fault(ste, f, sp);
    lemma_optimise_equivalent(cfg, l, st, fuel);
    match eval_list(cfg, spec_opt(l), st, fuel) {
        SpecRes::Fault(ste2, f2, sp2) => {
            assert(faults_list(cfg, spec_opt(l), st, ste2, f2, sp2) && ste2.output == ste.output);
        },
        _ => {
            assert(false);
        },
    }
}

/// The leaf characters of the source from position `i` on: one per operator
/// character outside alias blocks.
pub open spec fn leaf_chars(src: Seq<u8>, aliases_on: bool, i: int, in_alias: bool) -> nat
    decreases src.len() - i,
{
    if i < 0 || i >= src.len() {
        0
    } else if in_alias {
        leaf_chars(src, aliases_on, i + 1, src[i] != 125)
    } else if is_unit_op(src[i]) {
        1 + leaf_chars(src, aliases_on, i + 1, false)
    } else if src[i] == 123 && aliases_on {
        leaf_chars(src, aliases_on, i + 1, true)
    } else {
        leaf_chars(src, aliases_on, i + 1, false)
    }
}

/// The `[` characters of the source from position `i` on, outside alias
/// blocks: one per bracket pair of a text that parses.
pub open spec fn open_chars(src: Seq<u8>, aliases_on: bool, i: int, in_alias: bool) -> nat
    decreases src.len() - i,
{
    if i < 0 || i >= src.len() {
        0
    } else if in_alias {
        open_chars(src, aliases_on, i + 1, src[i] != 125)
    } else if src[i] == 91 {
        1 + open_chars(src, aliases_on, i + 1, false)
    } else if src[i] == 123 && aliases_on {
        open_chars(src, aliases_on, i + 1, true)
    } else {
        open_chars(src, aliases_on, i + 1, false)
    }
}

/// The leaves gathered in the pending segments of the parse stack.
pub open spec fn stack_leafs(st: Seq<(Span, Seq<SpecSpanned>)>) -> nat
    decreases st,
{
    if st.len() == 0 {
        0
    } else {
        stack_leafs(st.drop_last()) + leaf_count_list(st.last().1)
    }
}

/// The loops gathered in the pending segments of the parse stack.
pub open spec fn stack_loops(st: Seq<(Span, Seq<SpecSpanned>)>) -> nat
    decreases st,
{
    if st.len() == 0 {
        0
    } else {
        stack_loops(st.drop_last()) + loop_count_list(st.last().1)
    }
}

proof fn lemma_leaf_count_push(l: Seq<SpecSpanned>, x: SpecSpanned)
    ensures
        leaf_count_list(l.push(x)) == leaf_count_list(l) + leaf_count_spanned(x),
        loop_count_list(l.push(x)) == loop_count_list(l) + loop_count_spanned(x),
{
    assert(l.push(x).drop_last() =~= l);
    assert(l.push(x).last() == x);
}

/// The scan's bookkeeping: on a text that parses, the leaves and loops of
/// the resulting tree are exactly what remains in the source plus what the
/// scan state already gathered — one pending loop node per open bracket on
/// the stack.
proof fn lemma_sparse_counts(
    src: Seq<u8>,
    aliases_on: bool,
    i: int,
    stack: Seq<(Span, Seq<SpecSpanned>)>,
    cur: Seq<SpecSpanned>,
    names: Seq<Seq<u8>>,
    mode: ParseMode,
)
    ensures
        match sparse(src, aliases_on, i, stack, cur, names, mode) {
            SpecParse::Done(gl, gnames) => {
                let ia = mode matches ParseMode::InAlias { start, name };
                &&& leaf_count_list(gl) == stack_leafs(stack) + leaf_count_list(cur) + leaf_chars(
                    src,
                    aliases_on,
                    i,
                    ia,
                )
                &&& loop_count_list(gl) == stack_loops(stack) + loop_count_list(cur) + stack.len()
                    + open_chars(src, aliases_on, i, ia)
            },
            SpecParse::Failed(e) => true,
        },
    decreases src.len() - i,
{
    if i < 0 || i >= src.len() {
    } else {
        let b = src[i];
        match mode {
            ParseMode::InAlias { start, name } => {
                if b == 125 {
                    let g = SpecSpanned {
                        span: Span { offset: start as usize, length: (i + 1 - start) as usize },
                        instruction: SpecInstruction::Goto(name),
                    };
                    let names2 = if crate::alias::name_listed(names, name) {
                        names
                    } else {
                        names.push(name)
                    };
                    lemma_leaf_count_push(cur, g);
                    lemma_sparse_counts(
                        src,
                        aliases_on,
                        i + 1,
                        stack,
                        cur.push(g),
                        names2,
                        ParseMode::Normal,
                    );
                } else {
                    lemma_sparse_counts(
                        src,
                        aliases_on,
                        i + 1,
                        stack,
                        cur,
                        names,
                        ParseMode::InAlias { start, name: name.push(b) },
                    );
                }
            },
            ParseMode::Normal => {
                if crate::parser::is_ws(b) {
                    lemma_sparse_counts(src, aliases_on, i + 1, stack, cur, names, ParseMode::Normal);
                } else if is_unit_op(b) {
                    let s = SpecSpanned {
                        span: Span { offset: i as usize, length: 1 },
                        instruction: crate::parser::unit_of(b),
                    };
                    lemma_leaf_count_push(cur, s);
                    lemma_sparse_counts(
                        src,
                        aliases_on,
                        i + 1,
                        stack,
                        cur.push(s),
                        names,
                        ParseMode::Normal,
                    );
                } else if b == 91 {
                    let st2 = stack.push((Span { offset: i as usize, length: 1 }, cur));
                    assert(st2.drop_last() =~= stack);
                    lemma_sparse_counts(
                        src,
                        aliases_on,
                        i + 1,
                        st2,
                        Seq::empty(),
                        names,
                        ParseMode::Normal,
                    );
                } else if b == 93 {
                    if stack.len() > 0 {
                        let osp = stack.last().0;
                        let parent = stack.last().1;
                        let lp = SpecSpanned {
                            span: Span {
                                offset: osp.offset,
                                length: (i + 1 - osp.offset) as usize,
                            },
                            instruction: SpecInstruction::Loop(cur),
                        };
                        lemma_leaf_count_push(parent, lp);
                        lemma_sparse_counts(
                            src,
                            aliases_on,
                            i + 1,
                            stack.drop_last(),
                            parent.push(lp),
                            names,
                            ParseMode::Normal,
                        );
                    }
                } else if b == 123 && aliases_on {
                    lemma_sparse_counts(
                        src,
                        aliases_on,
                        i + 1,
                        stack,
                        cur,
                        names,
                        ParseMode::InAlias { start: i, name: Seq::empty() },
                    );
                }
            },
        }
    }
}

/// Well-formed text, defined without the parser: every character outside
/// alias blocks is recognised, every `[` has its `]`, and every `{` (when
/// aliases are on) has its `}`. `depth` counts the brackets still open and
/// `in_alias` whether the scan stands inside an alias block.
pub open spec fn wf_scan(src: Seq<u8>, aliases_on: bool, i: int, depth: nat, in_alias: bool) -> bool
    decreases src.len() - i,
{
    if i < 0 || i >= src.len() {
        depth == 0 && !in_alias
    } else if in_alias {
        wf_scan(src, aliases_on, i + 1, depth, src[i] != 125)
    } else {
        let b = src[i];
        if crate::parser::is_ws(b) || is_unit_op(b) {
            wf_scan(src, aliases_on, i + 1, depth, false)
        } else if b == 91 {
            wf_scan(src, aliases_on, i + 1, depth + 1, false)
        } else if b == 93 {
            depth > 0 && wf_scan(src, aliases_on, i + 1, (depth - 1) as nat, false)
        } else if b == 123 && aliases_on {
            wf_scan(src, aliases_on, i + 1, depth, true)
        } else {
            false
        }
    }
}

/// The scan succeeds exactly on well-formed text: its verdict depends only
/// on the characters, the number of open brackets, and whether it stands
/// inside an alias block.
proof fn lemma_sparse_wf(
    src: Seq<u8>,
    aliases_on: bool,
    i: int,
    stack: Seq<(Span, Seq<SpecSpanned>)>,
    cur: Seq<SpecSpanned>,
    names: Seq<Seq<u8>>,
    mode: ParseMode,
)
    ensures
        (sparse(src, aliases_on, i, stack, cur, names, mode) matches SpecParse::Done(gl, gnames))
            <==> wf_scan(
            src,
            aliases_on,
            i,
            stack.len(),
            mode matches ParseMode::InAlias { start, name },
        ),
    decreases src.len() - i,
{
    if i < 0 || i >= src.len() {
    } else {
        let b = src[i];
        match mode {
            ParseMode::InAlias { start, name } => {
                if b == 125 {
                    let g = SpecSpanned {
                        span: Span { offset: start as usize, length: (i + 1 - start) as usize },
                        instruction: SpecInstruction::Goto(name),
                    };
                    let names2 = if crate::alias::name_listed(names, name) {
                        names
                    } else {
                        names.push(name)
                    };
                    lemma_sparse_wf(
                        src,
                        aliases_on,
                        i + 1,
                        stack,
                        cur.push(g),
                        names2,
                        ParseMode::Normal,
                    );
                } else {
                    lemma_sparse_wf(
                        src,
                        aliases_on,
                        i + 1,
                        stack,
                        cur,
                        names,
                        ParseMode::InAlias { start, name: name.push(b) },
                    );
                }
            },
            ParseMode::Normal => {
                if crate::parser::is_ws(b) {
                    lemma_sparse_wf(src, aliases_on, i + 1, stack, cur, names, ParseMode::Normal);
                } else if is_unit_op(b) {
                    let s = SpecSpanned {
                        span: Span { offset: i as usize, length: 1 },
                        instruction: crate::parser::unit_of(b),
                    };
                    lemma_sparse_wf(
                        src,
                        aliases_on,
                        i + 1,
                        stack,
                        cur.push(s),
                        names,
                        ParseMode::Normal,
                    );
                } else if b == 91 {
                    lemma_sparse_wf(
                        src,
                        aliases_on,
                        i + 1,
                        stack.push((Span { offset: i as usize, length: 1 }, cur)),
                        Seq::empty(),
                        names,
                        ParseMode::Normal,
                    );
                } else if b == 93 {
                    if stack.len() > 0 {
                        let osp = stack.last().0;
                        let parent = stack.last().1;
                        let lp = SpecSpanned {
                            span: Span {
                                offset: osp.offset,
                                length: (i + 1 - osp.offset) as usize,
                            },
                            instruction: SpecInstruction::Loop(cur),
                        };
                        lemma_sparse_wf(
                            src,
                            aliases_on,
                            i + 1,
                            stack.drop_last(),
                            parent.push(lp),
                            names,
                            ParseMode::Normal,
                        );
                    }
                } else if b == 123 && aliases_on {
                    lemma_sparse_wf(
                        src,
                        aliases_on,
                        i + 1,
                        stack,
                        cur,
                        names,
                        ParseMode::InAlias { start: i, name: Seq::empty() },
                    );
                }
            },
        }
    }
}

/// Parsing succeeds exactly on well-formed text.
pub proof fn lemma_parse_total(src: Seq<u8>, aliases_on: bool)
    ensures
        (spec_parse(src, aliases_on) matches SpecParse::Done(gl, gnames)) <==> wf_scan(
            src,
            aliases_on,
            0,
            0,
            false,
        ),
{
    lemma_sparse_wf(
        src,
        aliases_on,
        0,
        Seq::empty(),
        Seq::empty(),
        Seq::empty(),
        ParseMode::Normal,
    );
}

/// On any text the parser accepts, the tree holds one leaf instruction per
/// operator character outside alias blocks, and one loop node per bracket
/// pair.
pub proof fn lemma_parse_counts(src: Seq<u8>, aliases_on: bool)
    ensures
        match spec_parse(src, aliases_on) {
            SpecParse::Done(gl, gnames) => leaf_count_list(gl) == leaf_chars(
                src,
                aliases_on,
                0,
                false,
            ) && loop_count_list(gl) == open_chars(src, aliases_on, 0, false),
            SpecParse::Failed(e) => true,
        },
{
    lemma_sparse_counts(
        src,
        aliases_on,
        0,
        Seq::empty(),
        Seq::empty(),
        Seq::empty(),
        ParseMode::Normal,
    );
}

} // verus!
