use bfem::alias::AliasTable;
use bfem::ast::{Instruction, SpannedInstruction};
use bfem::errors::{BFError, BFErrors, Fault};
use bfem::flags::{DisableFlags, TapeFlags};
use bfem::machine::{run, BufferDevice, Halt};
use bfem::parser::Parser;
use bfem::span::Span;
use bfem::tape::{CellMode, Tape, TapeMode};

const BUDGET: u64 = 1_000_000;

fn default_flags() -> DisableFlags {
    DisableFlags { disable_aliases: false, disable_optimise: false, disable_alloc: false }
}

fn tape(size: usize, tape_mode: TapeMode, cell_mode: CellMode) -> Tape {
    Tape::new(TapeFlags { tape_mode, cell_mode, tape_size: size })
}

/// Parses and runs `src` on a fresh tape, returning the output bytes, the
/// final tape and the run result.
fn execute(
    src: &str,
    flags: DisableFlags,
    mut tape: Tape,
    input: Vec<u8>,
) -> (Result<(), Halt>, Vec<u8>, Tape) {
    let mut parser = Parser::new(src.as_bytes().to_vec(), flags);
    let instructions = parser.parse().unwrap();
    let mut aliases = AliasTable::new();
    let mut dev = BufferDevice::new(input);
    let r = run(
        &instructions,
        parser.get_aliases(),
        &mut tape,
        &mut aliases,
        &mut dev,
        flags,
        BUDGET,
    );
    (r, dev.output().clone(), tape)
}

#[test]
fn end_to_end_three_plus_dot() {
    let (r, out, t) = execute("+++.", default_flags(), Tape::default(), vec![]);
    assert_eq!(r, Ok(()));
    assert_eq!(out, vec![3]);
    assert_eq!(t.get_pointer(), 0);
}

#[test]
fn end_to_end_unbalanced_loop_fails_before_running() {
    let mut parser = Parser::new(b"[+++".to_vec(), default_flags());
    let r = parser.parse().unwrap_err();
    assert_eq!(
        r,
        bfem::errors::ParseError::UnbalancedLoop { span: Span { offset: 0, length: 1 } }
    );
}

#[test]
fn loop_runs_one_pass_per_decrement() {
    // read 5 into the cell, then subtract and emit once per pass
    let (r, out, t) = execute(
        ",[-.]",
        default_flags(),
        tape(10, TapeMode::Circular, CellMode::Circular),
        vec![5],
    );
    assert_eq!(r, Ok(()));
    assert_eq!(out, vec![4, 3, 2, 1, 0]);
    assert_eq!(t.get_value_at_index(0), 0);
}

#[test]
fn loop_on_zero_cell_runs_no_pass() {
    let (r, out, _) = execute(
        ",[-.]",
        default_flags(),
        tape(10, TapeMode::Circular, CellMode::Circular),
        vec![0],
    );
    assert_eq!(r, Ok(()));
    assert_eq!(out, Vec::<u8>::new());
}

#[test]
fn optimized_and_raw_runs_agree() {
    let src = "++[->+++<]>.";
    let mut raw_flags = default_flags();
    raw_flags.disable_optimise = true;
    let (r1, out1, t1) = execute(
        src,
        raw_flags,
        tape(16, TapeMode::Circular, CellMode::Circular),
        vec![],
    );
    let (r2, out2, t2) = execute(
        src,
        default_flags(),
        tape(16, TapeMode::Circular, CellMode::Circular),
        vec![],
    );
    assert_eq!(r1, Ok(()));
    assert_eq!(r2, Ok(()));
    assert_eq!(out1, out2);
    assert_eq!(t1.size(), t2.size());
    for i in 0..t1.size() {
        assert_eq!(t1.get_value_at_index(i), t2.get_value_at_index(i));
    }
    assert_eq!(t1.get_pointer(), t2.get_pointer());
}

#[test]
fn input_bytes_are_consumed_in_order() {
    let (r, out, _) = execute(
        ",.,.",
        default_flags(),
        tape(8, TapeMode::Circular, CellMode::Circular),
        vec![65, 66],
    );
    assert_eq!(r, Ok(()));
    assert_eq!(out, vec![65, 66]);
}

#[test]
fn run_clears_and_realigns_first() {
    let mut t = tape(8, TapeMode::Circular, CellMode::Circular);
    t.set_value_at_index(0, 9);
    t.set_pointer(5);
    let mut parser = Parser::new(b".".to_vec(), default_flags());
    let instructions = parser.parse().unwrap();
    let mut aliases = AliasTable::new();
    let mut dev = BufferDevice::new(vec![]);
    let r = run(
        &instructions,
        parser.get_aliases(),
        &mut t,
        &mut aliases,
        &mut dev,
        default_flags(),
        BUDGET,
    );
    assert_eq!(r, Ok(()));
    // the preset cell was cleared before the output instruction ran
    assert_eq!(dev.output(), &vec![0]);
}

#[test]
fn goto_with_preallocation_binds_backwards() {
    let (r, _, t) = execute(
        "{a}+{b}+",
        default_flags(),
        tape(10, TapeMode::Circular, CellMode::Circular),
        vec![],
    );
    assert_eq!(r, Ok(()));
    assert_eq!(t.get_value_at_index(9), 1);
    assert_eq!(t.get_value_at_index(8), 1);
    assert_eq!(t.get_pointer(), 8);
}

#[test]
fn goto_with_lazy_allocation_binds_on_first_use() {
    let mut flags = default_flags();
    flags.disable_alloc = true;
    let (r, _, t) = execute(
        "{a}+{b}+{a}+",
        flags,
        tape(10, TapeMode::Circular, CellMode::Circular),
        vec![],
    );
    assert_eq!(r, Ok(()));
    assert_eq!(t.get_value_at_index(9), 2);
    assert_eq!(t.get_value_at_index(8), 1);
}

#[test]
fn unbound_alias_with_preallocation_is_an_internal_fault() {
    // a tree that names an alias the parser never reported
    let instructions = vec![SpannedInstruction {
        span: Span { offset: 0, length: 3 },
        instruction: Instruction::Goto(b"x".to_vec()),
    }];
    let names: Vec<Vec<u8>> = vec![];
    let mut t = tape(4, TapeMode::Circular, CellMode::Circular);
    let mut aliases = AliasTable::new();
    let mut dev = BufferDevice::new(vec![]);
    let r = run(&instructions, &names, &mut t, &mut aliases, &mut dev, default_flags(), BUDGET);
    match r {
        Err(Halt::Fault(e)) => {
            assert_eq!(e.fault, Fault::AliasUnbound { name: b"x".to_vec() });
            assert_eq!(e.span, Span { offset: 0, length: 3 });
        }
        other => panic!("expected alias fault, got {:?}", other),
    }
}

#[test]
fn preallocation_on_a_full_tape_fails() {
    let (r, _, _) = execute(
        "{a}{b}",
        default_flags(),
        tape(1, TapeMode::Circular, CellMode::Circular),
        vec![],
    );
    match r {
        Err(Halt::Fault(e)) => {
            assert_eq!(e.fault, Fault::TapeFull { name: b"b".to_vec() });
            assert_eq!(e.span, Span { offset: 0, length: 0 });
        }
        other => panic!("expected allocation fault, got {:?}", other),
    }
}

#[test]
fn cell_fault_carries_the_instruction_span() {
    let (r, out, _) = execute(
        ".+-- ",
        default_flags(),
        tape(4, TapeMode::Circular, CellMode::Panic),
        vec![],
    );
    match r {
        Err(Halt::Fault(e)) => {
            assert_eq!(e.fault, Fault::CellRange { address: 0, value: 1, delta: 2 });
            // the merged subtraction run starts at offset 2
            assert_eq!(e.span, Span { offset: 2, length: 1 });
        }
        other => panic!("expected cell fault, got {:?}", other),
    }
    // output produced before the fault is kept
    assert_eq!(out, vec![0]);
}

#[test]
fn pointer_fault_aborts_the_run() {
    let (r, _, t) = execute(
        "+<",
        default_flags(),
        tape(4, TapeMode::Panic, CellMode::Circular),
        vec![],
    );
    match r {
        Err(Halt::Fault(e)) => {
            assert_eq!(e.fault, Fault::PointerRange { limit: 0, distance: 1, pointer: 0 });
            assert_eq!(e.span, Span { offset: 1, length: 1 });
        }
        other => panic!("expected pointer fault, got {:?}", other),
    }
    assert_eq!(t.get_value_at_index(0), 1);
}

#[test]
fn endless_loop_exhausts_the_budget() {
    let mut parser = Parser::new(b"+[]".to_vec(), default_flags());
    let instructions = parser.parse().unwrap();
    let mut t = tape(4, TapeMode::Circular, CellMode::Circular);
    let mut aliases = AliasTable::new();
    let mut dev = BufferDevice::new(vec![]);
    let r = run(
        &instructions,
        parser.get_aliases(),
        &mut t,
        &mut aliases,
        &mut dev,
        default_flags(),
        50,
    );
    assert_eq!(r, Err(Halt::Interrupted));
}

#[test]
fn starved_input_exhausts_the_budget() {
    let (r, out, _) = execute(
        ",",
        default_flags(),
        tape(4, TapeMode::Circular, CellMode::Circular),
        vec![],
    );
    assert_eq!(r, Err(Halt::Interrupted));
    assert_eq!(out, Vec::<u8>::new());
}

#[test]
fn error_values_carry_their_fields() {
    let e = BFError::new(BFErrors::RuntimeError, String::from("boom"));
    assert_eq!(e.message, "boom");
    let d = e.into_detailed(Span { offset: 3, length: 2 });
    assert_eq!(d.message, "boom");
    assert_eq!(d.highlight, Span { offset: 3, length: 2 });
}
