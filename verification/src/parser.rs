//! The parser: one left-to-right scan over the source bytes that builds the
//! ordered tree of spanned instructions and collects the distinct alias
//! names it sees, in discovery order.
//!
//! The scan keeps loop nesting on an explicit stack (rather than on the call
//! stack), so the depth of `[` nesting is not bounded by the machine stack.
//! [`spec_parse`] is the same scan written as a spec function; the executable
//! parser is proved to return exactly its verdict. Whitespace between tokens
//! is skipped; inside `{name}` alias blocks every byte except `}` belongs to
//! the name.

use vstd::prelude::*;

use crate::alias::{clone_bytes, contains_name, name_listed, names_of};
use crate::ast::{
    group_ast_lemmas, spec_of_list, spec_of_spanned, Instruction, SpannedInstruction,
    SpecInstruction, SpecSpanned,
};
use crate::errors::ParseError;
use crate::flags::DisableFlags;
use crate::span::Span;

verus! {

broadcast use group_ast_lemmas;

/// Whitespace bytes that may separate tokens: space, tab, line feed,
/// carriage return, form feed.
pub open spec fn is_ws(b: u8) -> bool {
    b == 32 || b == 9 || b == 10 || b == 13 || b == 12
}

/// Whether `b` is one of the six single-character operators.
pub open spec fn is_unit_op(b: u8) -> bool {
    b == 43 || b == 45 || b == 60 || b == 62 || b == 46 || b == 44
}

/// The instruction a single operator character denotes.
pub open spec fn unit_of(b: u8) -> SpecInstruction {
    if b == 43 {
        SpecInstruction::Add(1)
    } else if b == 45 {
        SpecInstruction::Subtract(1)
    } else if b == 60 {
        SpecInstruction::Left(1)
    } else if b == 62 {
        SpecInstruction::Right(1)
    } else if b == 46 {
        SpecInstruction::Output
    } else {
        SpecInstruction::Input
    }
}

/// Whether the scan is between tokens or inside an `{name}` alias block.
pub enum ParseMode {
    Normal,
    InAlias { start: int, name: Seq<u8> },
}

/// The verdict of parsing: the instruction tree and the alias names in
/// discovery order, or the first fault.
pub enum SpecParse {
    Done(Seq<SpecSpanned>, Seq<Seq<u8>>),
    Failed(ParseError),
}

/// One left-to-right scan from position `i`. `stack` holds, innermost last,
/// the span of each unmatched `[` and the instructions gathered before it;
/// `cur` the instructions of the innermost open sequence; `names` the alias
/// names seen so far.
pub open spec fn sparse(
    src: Seq<u8>,
    aliases_on: bool,
    i: int,
    stack: Seq<(Span, Seq<SpecSpanned>)>,
    cur: Seq<SpecSpanned>,
    names: Seq<Seq<u8>>,
    mode: ParseMode,
) -> SpecParse
    decreases src.len() - i,
{
    if i < 0 || i >= src.len() {
        match mode {
            ParseMode::InAlias { start, name } => SpecParse::Failed(
                ParseError::UnterminatedAlias { span: Span { offset: start as usize, length: 1 } },
            ),
            ParseMode::Normal => {
                if stack.len() > 0 {
                    SpecParse::Failed(ParseError::UnbalancedLoop { span: stack.last().0 })
                } else {
                    SpecParse::Done(cur, names)
                }
            },
        }
    } else {
        let b = src[i];
        match mode {
            ParseMode::InAlias { start, name } => {
                if b == 125 {
                    let g = SpecSpanned {
                        span: Span { offset: start as usize, length: (i + 1 - start) as usize },
                        instruction: SpecInstruction::Goto(name),
                    };
                    let names2 = if name_listed(names, name) {
                        names
                    } else {
                        names.push(name)
                    };
                    sparse(src, aliases_on, i + 1, stack, cur.push(g), names2, ParseMode::Normal)
                } else {
                    sparse(
                        src,
                        aliases_on,
                        i + 1,
                        stack,
                        cur,
                        names,
                        ParseMode::InAlias { start, name: name.push(b) },
                    )
                }
            },
            ParseMode::Normal => {
                if is_ws(b) {
                    sparse(src, aliases_on, i + 1, stack, cur, names, ParseMode::Normal)
                } else if is_unit_op(b) {
                    let s = SpecSpanned {
                        span: Span { offset: i as usize, length: 1 },
                        instruction: unit_of(b),
                    };
                    sparse(src, aliases_on, i + 1, stack, cur.push(s), names, ParseMode::Normal)
                } else if b == 91 {
                    sparse(
                        src,
                        aliases_on,
                        i + 1,
                        stack.push((Span { offset: i as usize, length: 1 }, cur)),
                        Seq::empty(),
                        names,
                        ParseMode::Normal,
                    )
                } else if b == 93 {
                    if stack.len() > 0 {
                        let osp = stack.last().0;
                        let parent = stack.last().1;
                        let lp = SpecSpanned {
                            span: Span {
                                offset: osp.offset,
                                length: (i + 1 - osp.offset) as usize,
                            },
                            instruction: SpecInstruction::Loop(cur),
                        };
                        sparse(
                            src,
                            aliases_on,
                            i + 1,
                            stack.drop_last(),
                            parent.push(lp),
                            names,
                            ParseMode::Normal,
                        )
                    } else {
                        SpecParse::Failed(
                            ParseError::UnrecognizedToken {
                                token: b,
                                span: Span { offset: i as usize, length: 1 },
                            },
                        )
                    }
                } else if b == 123 && aliases_on {
                    sparse(
                        src,
                        aliases_on,
                        i + 1,
                        stack,
                        cur,
                        names,
                        ParseMode::InAlias { start: i, name: Seq::empty() },
                    )
                } else {
                    SpecParse::Failed(
                        ParseError::UnrecognizedToken {
                            token: b,
                            span: Span { offset: i as usize, length: 1 },
                        },
                    )
                }
            },
        }
    }
}

/// The verdict of parsing `src` from the beginning.
pub open spec fn spec_parse(src: Seq<u8>, aliases_on: bool) -> SpecParse {
    sparse(
        src,
        aliases_on,
        0,
        Seq::empty(),
        Seq::empty(),
        Seq::empty(),
        ParseMode::Normal,
    )
}

/// The mathematical value of the parser's explicit nesting stack.
pub open spec fn stack_view(st: Seq<(Span, Vec<SpannedInstruction>)>) -> Seq<
    (Span, Seq<SpecSpanned>),
> {
    Seq::new(st.len(), |i: int| (st[i].0, spec_of_list(st[i].1@)))
}

/// Whether `b` is a whitespace byte.
fn ws(b: u8) -> (r: bool)
    ensures
        r == is_ws(b),
{
    b == 32 || b == 9 || b == 10 || b == 13 || b == 12
}

/// The recursive-descent front end: source bytes, feature switches, and the
/// alias names collected by the last parse.
pub struct Parser {
    src: Vec<u8>,
    flag: DisableFlags,
    aliases: Vec<Vec<u8>>,
}

impl Parser {
    /// The source bytes.
    pub closed spec fn spec_src(&self) -> Seq<u8> {
        self.src@
    }

    /// The feature switches.
    pub closed spec fn spec_flag(&self) -> DisableFlags {
        self.flag
    }

    /// The alias names collected so far, in discovery order.
    pub closed spec fn spec_aliases(&self) -> Seq<Seq<u8>> {
        names_of(self.aliases)
    }

    pub fn new(src: Vec<u8>, flag: DisableFlags) -> (r: Self)
        ensures
            r.spec_src() == src@,
            r.spec_flag() == flag,
            r.spec_aliases() == Seq::<Seq<u8>>::empty(),
    {
        let r = Parser { src, flag, aliases: Vec::new() };
        proof {
            assert(r.spec_aliases() =~= Seq::<Seq<u8>>::empty());
        }
        r
    }

    /// The distinct alias names discovered by [`Parser::parse`], in
    /// discovery order.
    pub fn get_aliases(&self) -> (r: &Vec<Vec<u8>>)
        ensures
            names_of(*r) == self.spec_aliases(),
    {
        &self.aliases
    }

    /// Parses the whole source: returns the instruction tree — merged by
    /// [`Parser::optimise_consecutive`] unless that pass is disabled — and
    /// records the alias names seen; or returns the first parse fault.
    pub fn parse(&mut self) -> (r: Result<Vec<SpannedInstruction>, ParseError>)
        ensures
            final(self).spec_src() == old(self).spec_src(),
            final(self).spec_flag() == old(self).spec_flag(),
            match spec_parse(
                old(self).spec_src(),
                !old(self).spec_flag().disable_aliases,
            ) {
                SpecParse::Done(gl, gnames) => match r {
                    Ok(v) => final(self).spec_aliases() == gnames && (
                    if old(self).spec_flag().disable_optimise {
                        spec_of_list(v@) == gl
                    } else {
                        spec_of_list(v@) == crate::optimize::spec_opt(gl)
                    }),
                    Err(_) => false,
                },
                SpecParse::Failed(e) => match r {
                    Err(e2) => e2 == e,
                    Ok(_) => false,
                },
            },
    {
        let aliases_on = !self.flag.disable_aliases;
        let ghost gsrc = self.src@;
        let n = self.src.len();
        let mut i: usize = 0;
        let mut stack: Vec<(Span, Vec<SpannedInstruction>)> = Vec::new();
        let mut cur: Vec<SpannedInstruction> = Vec::new();
        let mut names: Vec<Vec<u8>> = Vec::new();
        proof {
            assert(stack_view(stack@) =~= Seq::<(Span, Seq<SpecSpanned>)>::empty());
            assert(spec_of_list(cur@) =~= Seq::<SpecSpanned>::empty());
            assert(names_of(names) =~= Seq::<Seq<u8>>::empty());
        }
        while i < n
            invariant
                i <= n,
                n == self.src@.len(),
                *self == *old(self),
                gsrc == self.src@,
                aliases_on == !self.flag.disable_aliases,
                forall|t: int| 0 <= t < stack@.len() ==> #[trigger] stack@[t].0.offset < i,
                spec_parse(gsrc, aliases_on) == sparse(
                    gsrc,
                    aliases_on,
                    i as int,
                    stack_view(stack@),
                    spec_of_list(cur@),
                    names_of(names),
                    ParseMode::Normal,
                ),
            decreases n - i,
        {
            let ghost sv = stack_view(stack@);
            let ghost cv = spec_of_list(cur@);
            let ghost nv = names_of(names);
            let b = self.src[i];
            if ws(b) {
                proof {
                    assert(sparse(gsrc, aliases_on, i as int, sv, cv, nv, ParseMode::Normal)
                        == sparse(gsrc, aliases_on, i as int + 1, sv, cv, nv, ParseMode::Normal));
                }
                i += 1;
            } else if b == 43 || b == 45 || b == 60 || b == 62 || b == 46 || b == 44 {
                let instr = if b == 43 {
                    Instruction::Add(1)
                } else if b == 45 {
                    Instruction::Subtract(1)
                } else if b == 60 {
                    Instruction::Left(1)
                } else if b == 62 {
                    Instruction::Right(1)
                } else if b == 46 {
                    Instruction::Output
                } else {
                    Instruction::Input
                };
                let sp = SpannedInstruction { span: Span { offset: i, length: 1 }, instruction: instr };
                proof {
                    assert(spec_of_spanned(sp) == (SpecSpanned {
                        span: Span { offset: i, length: 1 },
                        instruction: unit_of(b),
                    }));
                    assert(sparse(gsrc, aliases_on, i as int, sv, cv, nv, ParseMode::Normal)
                        == sparse(
                        gsrc,
                        aliases_on,
                        i as int + 1,
                        sv,
                        cv.push(spec_of_spanned(sp)),
                        nv,
                        ParseMode::Normal,
                    ));
                }
                cur.push(sp);
                i += 1;
            } else if b == 91 {
                let osp = Span { offset: i, length: 1 };
                proof {
                    assert(sparse(gsrc, aliases_on, i as int, sv, cv, nv, ParseMode::Normal)
                        == sparse(
                        gsrc,
                        aliases_on,
                        i as int + 1,
                        sv.push((osp, cv)),
                        Seq::empty(),
                        nv,
                        ParseMode::Normal,
                    ));
                }
                let parent = cur;
                stack.push((osp, parent));
                cur = Vec::new();
                i += 1;
                proof {
                    assert(stack_view(stack@) =~= sv.push((osp, cv)));
                    assert(spec_of_list(cur@) =~= Seq::<SpecSpanned>::empty());
                }
            } else if b == 93 {
                match stack.pop() {
                    Some(top) => {
                        let osp = top.0;
                        let mut parent = top.1;
                        proof {
                            assert(sv.last() == (osp, spec_of_list(parent@)));
                            assert(stack_view(stack@) =~= sv.drop_last());
                        }
                        let lsp = Span { offset: osp.offset, length: (i - osp.offset) + 1 };
                        let lp = SpannedInstruction {
                            span: lsp,
                            instruction: Instruction::Loop(cur),
                        };
                        proof {
                            assert(spec_of_spanned(lp) == (SpecSpanned {
                                span: lsp,
                                instruction: SpecInstruction::Loop(cv),
                            }));
                            assert(sparse(gsrc, aliases_on, i as int, sv, cv, nv, ParseMode::Normal)
                                == sparse(
                                gsrc,
                                aliases_on,
                                i as int + 1,
                                sv.drop_last(),
                                sv.last().1.push(spec_of_spanned(lp)),
                                nv,
                                ParseMode::Normal,
                            ));
                        }
                        parent.push(lp);
                        cur = parent;
                        i += 1;
                    },
                    None => {
                        proof {
                            assert(sv.len() == 0);
                        }
                        return Err(
                            ParseError::UnrecognizedToken {
                                token: b,
                                span: Span { offset: i, length: 1 },
                            },
                        );
                    },
                }
            } else if b == 123 && aliases_on {
                let start = i;
                let mut j = i + 1;
                let mut name: Vec<u8> = Vec::new();
                proof {
                    assert(name@ =~= Seq::<u8>::empty());
                    assert(sparse(gsrc, aliases_on, i as int, sv, cv, nv, ParseMode::Normal)
                        == sparse(
                        gsrc,
                        aliases_on,
                        i as int + 1,
                        sv,
                        cv,
                        nv,
                        ParseMode::InAlias { start: start as int, name: Seq::empty() },
                    ));
                }
                while j < n && self.src[j] != 125
                    invariant
                        start < j <= n,
                        n == self.src@.len(),
                        *self == *old(self),
                        gsrc == self.src@,
                        aliases_on == !self.flag.disable_aliases,
                        sv == stack_view(stack@),
                        cv == spec_of_list(cur@),
                        nv == names_of(names),
                        spec_parse(gsrc, aliases_on) == sparse(
                            gsrc,
                            aliases_on,
                            j as int,
                            sv,
                            cv,
                            nv,
                            ParseMode::InAlias { start: start as int, name: name@ },
                        ),
                    decreases n - j,
                {
                    let c = self.src[j];
                    proof {
                        assert(sparse(
                            gsrc,
                            aliases_on,
                            j as int,
                            sv,
                            cv,
                            nv,
                            ParseMode::InAlias { start: start as int, name: name@ },
                        ) == sparse(
                            gsrc,
                            aliases_on,
                            j as int + 1,
                            sv,
                            cv,
                            nv,
                            ParseMode::InAlias { start: start as int, name: name@.push(c) },
                        ));
                    }
                    name.push(c);
                    j += 1;
                }
                if j == n {
                    return Err(
                        ParseError::UnterminatedAlias {
                            span: Span { offset: start, length: 1 },
                        },
                    );
                }
                let gspan = Span { offset: start, length: (j - start) + 1 };
                let ghost gname = name@;
                let listed = contains_name(&names, &name);
                if !listed {
                    let copy = clone_bytes(&name);
                    names.push(copy);
                    proof {
                        assert(names_of(names) =~= nv.push(gname));
                    }
                }
                let gp = SpannedInstruction { span: gspan, instruction: Instruction::Goto(name) };
                proof {
                    assert(spec_of_spanned(gp) == (SpecSpanned {
                        span: gspan,
                        instruction: SpecInstruction::Goto(gname),
                    }));
                    assert(sparse(
                        gsrc,
                        aliases_on,
                        j as int,
                        sv,
                        cv,
                        nv,
                        ParseMode::InAlias { start: start as int, name: gname },
                    ) == sparse(
                        gsrc,
                        aliases_on,
                        j as int + 1,
                        sv,
                        cv.push(spec_of_spanned(gp)),
                        names_of(names),
                        ParseMode::Normal,
                    ));
                }
                cur.push(gp);
                i = j + 1;
            } else {
                return Err(
                    ParseError::UnrecognizedToken {
                        token: b,
                        span: Span { offset: i, length: 1 },
                    },
                );
            }
        }
        if stack.len() > 0 {
            let last = stack.len() - 1;
            proof {
                assert(stack_view(stack@).last() == (stack@[last as int].0, spec_of_list(
                    stack@[last as int].1@,
                )));
            }
            return Err(ParseError::UnbalancedLoop { span: stack[last].0 });
        }
        self.aliases = names;
        if self.flag.disable_optimise {
            Ok(cur)
        } else {
            Ok(Parser::optimise_consecutive(&cur))
        }
    }
}

} // verus!
