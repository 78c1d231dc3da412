//! What the fragments of generated code compute, line by line.
//!
//! Each lemma takes a listing in which a fragment stands at the program
//! counter and says where the machine is after the fragment has run.

use vstd::prelude::*;

use crate::assembly::{Comp, Dest, Instr};
use crate::code_writer::{
    arithmetic_one_arg_code, arithmetic_two_args_code, call_func_code, call_tail_code,
    comparison_code, def_label_code, end_comp_label, func_code, goto_code, if_goto_code,
    jump_if_false, local_loop_end_label, local_loop_label, pop_segment_code, pop_value_code,
    push_segment_code, push_value_code, return_func_code, return_jump_code,
    return_place_value_code, return_restore_code, return_restore_that_code,
    return_save_address_code, shared_return_label, stack_setup_code, write_return_code,
};
use crate::decimal::{
    lemma_decimal_round_trip, lemma_decimal_text_is_numeral, lemma_digit_is_numeral, numeral_value,
};
use crate::machine::{
    alu, cell, jumps, lemma_placed_concat, lemma_register_addresses, lemma_run_split, loadable,
    operand_address, placed, registers_resolve, run, signed, stack_ok, top_cell, truth_word, wrap,
    Machine, Symbols,
};
use crate::Comparison;

verus! {

/// The code of `neg` and `not` replaces the top of the stack by the value of
/// `comp` and changes nothing else in memory.
#[verifier::rlimit(50)]
pub proof fn lemma_arithmetic_one_arg(code: Seq<Instr>, symbols: Symbols, s: Machine, comp: Comp)
    requires
        placed(code, s.pc, arithmetic_one_arg_code(comp)),
        registers_resolve(symbols),
    ensures
        ({
            let t = run(code, symbols, s, 3);
            &&& t.pc == s.pc + 3
            &&& t.ram == s.ram.insert(
                top_cell(s),
                alu(comp, wrap(s.sp() - 1), s.d, s.ram[top_cell(s)]),
            )
        }),
{
    lemma_register_addresses(symbols);
    reveal_with_fuel(run, 4);
}

/// The code of a binary operation pops the top of the stack into `D` and
/// executes `dest=comp` on the cell below it.
#[verifier::rlimit(50)]
pub proof fn lemma_arithmetic_two_args(
    code: Seq<Instr>,
    symbols: Symbols,
    s: Machine,
    dest: Dest,
    comp: Comp,
)
    requires
        placed(code, s.pc, arithmetic_two_args_code(dest, comp)),
        registers_resolve(symbols),
        top_cell(s) != 0,
    ensures
        ({
            let t = run(code, symbols, s, 5);
            let sp = wrap(s.sp() - 1);
            let y = s.ram[cell(sp)];
            let below = wrap(sp - 1);
            let v = alu(comp, below, y, s.ram.insert(0, sp)[cell(below)]);
            &&& t.pc == s.pc + 5
            &&& t.ram == if dest.writes_m() {
                s.ram.insert(0, sp).insert(cell(below), v)
            } else {
                s.ram.insert(0, sp)
            }
            &&& t.d == if dest.writes_d() {
                v
            } else {
                y
            }
        }),
{
    lemma_register_addresses(symbols);
    reveal_with_fuel(run, 6);
}

/// The code that pushes from an indirect segment.
#[verifier::rlimit(50)]
pub proof fn lemma_push_segment(
    code: Seq<Instr>,
    symbols: Symbols,
    s: Machine,
    segment: Seq<char>,
    n: nat,
)
    requires
        placed(code, s.pc, push_segment_code(segment, n)),
        registers_resolve(symbols),
        loadable(symbols, segment),
        n < 32768,
    ensures
        ({
            let t = run(code, symbols, s, 9);
            let base = s.ram[operand_address(symbols, segment)];
            let v = s.ram[cell(wrap(base + n))];
            let sp = s.sp();
            &&& t.pc == s.pc + 9
            &&& t.ram == s.ram.insert(0, wrap(sp + 1)).insert(cell(sp), v)
        }),
{
    lemma_register_addresses(symbols);
    lemma_decimal_text_is_numeral(n);
    lemma_decimal_round_trip(n);
    let base = s.ram[operand_address(symbols, segment)];
    let m = run(code, symbols, s, 5);
    assert(m.pc == s.pc + 5 && m.d == s.ram[cell(wrap(base + n))] && m.ram == s.ram) by {
        reveal_with_fuel(run, 6);
    }
    assert(run(code, symbols, m, 4).pc == m.pc + 4 && run(code, symbols, m, 4).ram
        == m.ram.insert(0, wrap(m.sp() + 1)).insert(cell(m.sp()), m.d)) by {
        reveal_with_fuel(run, 5);
    }
    lemma_run_split(code, symbols, s, 5, 4);
}

/// Either term of a 16-bit sum is the sum less the other term.
pub proof fn lemma_sum_splits(x: u16, y: u16)
    ensures
        wrap(wrap(x + y) - y) == x,
        wrap(wrap(x + y) - x) == y,
{
}

/// The code that pops into an indirect segment.  The cell is addressed
/// through the base as it is before the pop.
#[verifier::rlimit(50)]
pub proof fn lemma_pop_segment(
    code: Seq<Instr>,
    symbols: Symbols,
    s: Machine,
    segment: Seq<char>,
    n: nat,
)
    requires
        placed(code, s.pc, pop_segment_code(segment, n)),
        registers_resolve(symbols),
        loadable(symbols, segment),
        n < 32768,
        top_cell(s) != 0,
    ensures
        ({
            let t = run(code, symbols, s, 9);
            let base = s.ram[operand_address(symbols, segment)];
            let sp = wrap(s.sp() - 1);
            &&& t.pc == s.pc + 9
            &&& t.ram == s.ram.insert(0, sp).insert(cell(wrap(base + n)), s.ram[cell(sp)])
        }),
{
    lemma_register_addresses(symbols);
    lemma_decimal_text_is_numeral(n);
    lemma_decimal_round_trip(n);
    let base = s.ram[operand_address(symbols, segment)];
    let sp = wrap(s.sp() - 1);
    let target = wrap(base + n);
    let v = s.ram[cell(sp)];
    let m = run(code, symbols, s, 7);
    assert(m == Machine {
        pc: s.pc + 7,
        a: sp,
        d: wrap(target + v),
        ram: s.ram.insert(0, sp),
    }) by {
        reveal_with_fuel(run, 8);
    }
    lemma_sum_splits(target, v);
    assert(run(code, symbols, m, 2).ram == m.ram.insert(cell(target), v)) by {
        reveal_with_fuel(run, 3);
    }
    assert(run(code, symbols, m, 2).pc == m.pc + 2) by {
        reveal_with_fuel(run, 3);
    }
    lemma_run_split(code, symbols, s, 7, 2);
}

/// The code that pushes an address, or the cell at an address.
#[verifier::rlimit(50)]
pub proof fn lemma_push_value(
    code: Seq<Instr>,
    symbols: Symbols,
    s: Machine,
    var: Seq<char>,
    use_a_over_m: bool,
)
    requires
        placed(code, s.pc, push_value_code(var, use_a_over_m)),
        registers_resolve(symbols),
        loadable(symbols, var),
    ensures
        ({
            let t = run(code, symbols, s, 6);
            let address = operand_address(symbols, var);
            let v = if use_a_over_m {
                address as u16
            } else {
                s.ram[address]
            };
            &&& t.pc == s.pc + 6
            &&& t.ram == s.ram.insert(0, wrap(s.sp() + 1)).insert(cell(s.sp()), v)
        }),
{
    lemma_register_addresses(symbols);
    reveal_with_fuel(run, 7);
}

/// The code that pops into the cell at an address.
#[verifier::rlimit(50)]
pub proof fn lemma_pop_value(code: Seq<Instr>, symbols: Symbols, s: Machine, var: Seq<char>)
    requires
        placed(code, s.pc, pop_value_code(var)),
        registers_resolve(symbols),
        loadable(symbols, var),
        top_cell(s) != 0,
    ensures
        ({
            let t = run(code, symbols, s, 5);
            let sp = wrap(s.sp() - 1);
            &&& t.pc == s.pc + 5
            &&& t.ram == s.ram.insert(0, sp).insert(
                operand_address(symbols, var),
                s.ram[cell(sp)],
            )
        }),
{
    lemma_register_addresses(symbols);
    reveal_with_fuel(run, 6);
}

/// A label line does nothing.
#[verifier::rlimit(50)]
pub proof fn lemma_def_label(code: Seq<Instr>, symbols: Symbols, s: Machine, label: Seq<char>)
    requires
        placed(code, s.pc, def_label_code(label)),
    ensures
        run(code, symbols, s, 1) == (Machine { pc: s.pc + 1, ..s }),
{
    reveal_with_fuel(run, 2);
}

/// The code of `goto` continues at the label and leaves the memory alone.
#[verifier::rlimit(50)]
pub proof fn lemma_goto(code: Seq<Instr>, symbols: Symbols, s: Machine, label: Seq<char>)
    requires
        placed(code, s.pc, goto_code(label)),
        loadable(symbols, label),
    ensures
        ({
            let t = run(code, symbols, s, 2);
            &&& t.pc == operand_address(symbols, label)
            &&& t.ram == s.ram
        }),
{
    reveal_with_fuel(run, 3);
}

/// The code of `if-goto` pops the top of the stack and continues at the
/// label where the popped value is not zero, behind itself where it is.
#[verifier::rlimit(50)]
pub proof fn lemma_if_goto(code: Seq<Instr>, symbols: Symbols, s: Machine, label: Seq<char>)
    requires
        placed(code, s.pc, if_goto_code(label)),
        registers_resolve(symbols),
        loadable(symbols, label),
        top_cell(s) != 0,
    ensures
        ({
            let t = run(code, symbols, s, 5);
            &&& t.pc == if s.ram[top_cell(s)] != 0 {
                operand_address(symbols, label)
            } else {
                s.pc + 5
            }
            &&& t.ram == s.ram.insert(0, wrap(s.sp() - 1))
        }),
{
    lemma_register_addresses(symbols);
    reveal_with_fuel(run, 6);
}

/// Whether a comparison holds of the difference `diff` of its operands,
/// read as a signed number.
pub open spec fn holds_of_difference(kind: Comparison, diff: u16) -> bool {
    match kind {
        Comparison::Eq => diff == 0,
        Comparison::GT => signed(diff) > 0,
        Comparison::LT => signed(diff) < 0,
    }
}

/// How many lines the code of a comparison runs: one less where it skips
/// the line that adds one to `D`.
pub open spec fn comparison_steps(holds: bool) -> nat {
    if holds {
        12
    } else {
        11
    }
}

/// The code of a comparison pops two values and pushes the truth word of
/// the comparison of their difference with zero.
#[verifier::rlimit(50)]
pub proof fn lemma_comparison(
    code: Seq<Instr>,
    symbols: Symbols,
    s: Machine,
    kind: Comparison,
    counter: nat,
)
    requires
        placed(code, s.pc, comparison_code(kind, counter)),
        registers_resolve(symbols),
        operand_address(symbols, end_comp_label(counter)) == s.pc + 8,
        s.pc + 8 < 32768,
        top_cell(s) != 0,
        cell(wrap(s.sp() - 2)) != 0,
    ensures
        ({
            let first = s.ram[cell(wrap(s.sp() - 2))];
            let second = s.ram[top_cell(s)];
            let holds = holds_of_difference(kind, wrap(first - second));
            let t = run(code, symbols, s, comparison_steps(holds));
            &&& t.pc == s.pc + 12
            &&& t.ram =~= s.ram.insert(0, wrap(s.sp() - 1)).insert(
                cell(wrap(s.sp() - 2)),
                truth_word(holds),
            )
        }),
{
    lemma_register_addresses(symbols);
    let below = cell(wrap(s.sp() - 2));
    let first = s.ram[below];
    let second = s.ram[top_cell(s)];
    let diff = wrap(first - second);
    let holds = holds_of_difference(kind, diff);
    lemma_arithmetic_two_args(code, symbols, s, Dest::MD, Comp::MMinusD);
    let m = run(code, symbols, s, 5);
    assert(m.d == diff);
    assert(m.ram == s.ram.insert(0, wrap(s.sp() - 1)).insert(below, diff));
    assert(jumps(jump_if_false(kind), diff) == !holds);
    // To the label: over the line that adds one, or past it.
    let skip: nat = if holds {
        3
    } else {
        2
    };
    let at_label = run(code, symbols, m, skip);
    assert(at_label == Machine {
        pc: s.pc + 8,
        a: (s.pc + 8) as u16,
        d: if holds {
            wrap(diff + 1)
        } else {
            diff
        },
        ram: m.ram,
    }) by {
        reveal_with_fuel(run, 4);
    }
    let t = run(code, symbols, at_label, 4);
    assert(t.pc == s.pc + 12 && t.ram == m.ram.insert(below, wrap(diff - at_label.d))) by {
        reveal_with_fuel(run, 5);
    }
    assert(wrap(diff - at_label.d) == truth_word(holds));
    lemma_run_split(code, symbols, m, skip, 4);
    lemma_run_split(code, symbols, s, 5, skip + 4);
}


/// `@5` loads five.
proof fn lemma_five(symbols: Symbols)
    ensures
        operand_address(symbols, "5"@) == 5,
{
    reveal_strlit("5");
    lemma_digit_is_numeral("5"@);
}

/// The five cells from `base` on hold a return address and the segment
/// pointers of `caller`.
pub open spec fn frame_at(t: Machine, base: int, return_address: int, caller: Machine) -> bool {
    &&& t.ram[base] == return_address
    &&& t.ram[base + 1] == caller.lcl()
    &&& t.ram[base + 2] == caller.arg()
    &&& t.ram[base + 3] == caller.this()
    &&& t.ram[base + 4] == caller.that()
}

/// The end of a call sets `ARG` and `LCL` and continues at the function.
#[verifier::rlimit(50)]
proof fn lemma_call_tail(
    code: Seq<Instr>,
    symbols: Symbols,
    s: Machine,
    function: Seq<char>,
    n_args: nat,
    return_label: Seq<char>,
)
    requires
        placed(code, s.pc, call_tail_code(function, n_args, return_label)),
        registers_resolve(symbols),
        loadable(symbols, function),
        n_args < 32768,
    ensures
        ({
            let t = run(code, symbols, s, 14);
            &&& t.pc == operand_address(symbols, function)
            &&& t.ram == s.ram.insert(2, wrap(s.sp() - wrap(n_args as int + 5))).insert(1, s.sp())
        }),
{
    lemma_register_addresses(symbols);
    lemma_five(symbols);
    lemma_decimal_text_is_numeral(n_args);
    lemma_decimal_round_trip(n_args);
    let m = run(code, symbols, s, 8);
    let arg = wrap(s.sp() - wrap(n_args as int + 5));
    assert(m.pc == s.pc + 8 && m.ram == s.ram.insert(2, arg)) by {
        reveal_with_fuel(run, 9);
    }
    assert(run(code, symbols, m, 6).pc == operand_address(symbols, function) && run(
        code,
        symbols,
        m,
        6,
    ).ram == m.ram.insert(1, m.ram[0])) by {
        reveal_with_fuel(run, 7);
    }
    lemma_run_split(code, symbols, s, 8, 6);
}

/// Pushing an address, or the cell at an address, onto a stack above the
/// registers: the value lies on top, and no cell but the stack pointer and
/// the new top has changed.
proof fn lemma_push_cell(
    code: Seq<Instr>,
    symbols: Symbols,
    s: Machine,
    var: Seq<char>,
    use_a_over_m: bool,
)
    requires
        placed(code, s.pc, push_value_code(var, use_a_over_m)),
        registers_resolve(symbols),
        loadable(symbols, var),
        stack_ok(s, 0, 1),
    ensures
        ({
            let t = run(code, symbols, s, 6);
            &&& t.pc == s.pc + 6
            &&& t.sp() == s.sp() + 1
            &&& t.ram[s.sp() as int] == if use_a_over_m {
                operand_address(symbols, var) as u16
            } else {
                s.ram[operand_address(symbols, var)]
            }
            &&& forall|k: int| k != 0 && k != s.sp() ==> t.ram[k] == s.ram[k]
        }),
{
    lemma_push_value(code, symbols, s, var, use_a_over_m);
}

/// A call saves the return address and the caller's four segment pointers
/// in the five cells above the stack, sets `ARG` to the first of the
/// `n_args` topmost cells of the caller's stack and `LCL` and `SP` just
/// above the saved frame, and continues at the function.  It changes no
/// other cell.
#[verifier::rlimit(50)]
pub proof fn lemma_call_func(
    code: Seq<Instr>,
    symbols: Symbols,
    s: Machine,
    function: Seq<char>,
    n_args: nat,
    return_label: Seq<char>,
)
    requires
        placed(code, s.pc, call_func_code(function, n_args, return_label)),
        registers_resolve(symbols),
        loadable(symbols, function),
        loadable(symbols, return_label),
        n_args < 32768,
        stack_ok(s, 0, 5),
    ensures
        ({
            let t = run(code, symbols, s, 44);
            &&& t.pc == operand_address(symbols, function)
            &&& t.sp() == s.sp() + 5
            &&& t.lcl() == s.sp() + 5
            &&& t.arg() == wrap(s.sp() - n_args)
            &&& t.this() == s.this()
            &&& t.that() == s.that()
            &&& frame_at(t, s.sp() as int, operand_address(symbols, return_label), s)
            &&& forall|k: int|
                k > 2 && !(s.sp() <= k < s.sp() + 5) ==> t.ram[k] == s.ram[k]
        }),
{
    lemma_register_addresses(symbols);
    let p0 = push_value_code(return_label, true);
    let p1 = push_value_code("LCL"@, false);
    let p2 = push_value_code("ARG"@, false);
    let p3 = push_value_code("THIS"@, false);
    let p4 = push_value_code("THAT"@, false);
    let tail = call_tail_code(function, n_args, return_label);
    lemma_placed_concat(code, s.pc, p0 + p1 + p2 + p3 + p4, tail);
    lemma_placed_concat(code, s.pc, p0 + p1 + p2 + p3, p4);
    lemma_placed_concat(code, s.pc, p0 + p1 + p2, p3);
    lemma_placed_concat(code, s.pc, p0 + p1, p2);
    lemma_placed_concat(code, s.pc, p0, p1);
    let sp = s.sp() as int;
    let m1 = run(code, symbols, s, 6);
    lemma_push_cell(code, symbols, s, return_label, true);
    let m2 = run(code, symbols, m1, 6);
    lemma_push_cell(code, symbols, m1, "LCL"@, false);
    let m3 = run(code, symbols, m2, 6);
    lemma_push_cell(code, symbols, m2, "ARG"@, false);
    let m4 = run(code, symbols, m3, 6);
    lemma_push_cell(code, symbols, m3, "THIS"@, false);
    let m5 = run(code, symbols, m4, 6);
    lemma_push_cell(code, symbols, m4, "THAT"@, false);
    assert(m5.sp() == sp + 5);
    assert(frame_at(m5, sp, operand_address(symbols, return_label), s));
    assert(forall|k: int| k != 0 && !(sp <= k < sp + 5) ==> m5.ram[k] == s.ram[k]);
    lemma_call_tail(code, symbols, m5, function, n_args, return_label);
    assert(wrap((sp + 5) - wrap(n_args as int + 5)) == wrap(sp - n_args));
    lemma_run_split(code, symbols, s, 6, 6);
    lemma_run_split(code, symbols, s, 12, 6);
    lemma_run_split(code, symbols, s, 18, 6);
    lemma_run_split(code, symbols, s, 24, 6);
    lemma_run_split(code, symbols, s, 30, 14);
}

/// How many lines the entry code of a function with `n_vars` locals runs.
pub open spec fn func_steps(n_vars: nat) -> nat {
    10 * n_vars + 7
}

/// The loop at the entry of a function, from its head on, with `k` zeros
/// left to push: it pushes them and ends behind the entry code.
#[verifier::rlimit(50)]
proof fn lemma_clear_locals(
    code: Seq<Instr>,
    symbols: Symbols,
    s: Machine,
    at: int,
    fn_name: Seq<char>,
    n_vars: nat,
    k: nat,
)
    requires
        placed(code, at, func_code(fn_name, n_vars)),
        registers_resolve(symbols),
        operand_address(symbols, local_loop_label(fn_name)) == at + 3,
        operand_address(symbols, local_loop_end_label(fn_name)) == at + 13,
        at + 13 < 32768,
        s.pc == at + 3,
        k < 32768,
        s.d == k,
        0 < s.sp(),
        s.sp() + k <= 32768,
    ensures
        ({
            let t = run(code, symbols, s, 10 * k + 4);
            &&& t.pc == at + 14
            &&& t.sp() == s.sp() + k
            &&& forall|x: int|
                x != 0 ==> t.ram[x] == if s.sp() <= x < s.sp() + k {
                    0
                } else {
                    s.ram[x]
                }
        }),
    decreases k,
{
    lemma_register_addresses(symbols);
    if k == 0 {
        assert(run(code, symbols, s, 4).pc == at + 14 && run(code, symbols, s, 4).ram == s.ram) by {
            reveal_with_fuel(run, 5);
        }
    } else {
        let m = run(code, symbols, s, 10);
        assert(m.pc == at + 3 && m.d == k - 1 && m.ram == s.ram.insert(
            0,
            (s.sp() + 1) as u16,
        ).insert(s.sp() as int, 0)) by {
            reveal_with_fuel(run, 11);
        }
        lemma_clear_locals(code, symbols, m, at, fn_name, n_vars, (k - 1) as nat);
        lemma_run_split(code, symbols, s, 10, (10 * (k - 1) + 4) as nat);
    }
}

/// The entry code of a function pushes `n_vars` zeros: it clears the
/// `n_vars` cells from the stack pointer on, moves the stack pointer up by
/// `n_vars`, and changes no other cell.
#[verifier::rlimit(50)]
pub proof fn lemma_func(
    code: Seq<Instr>,
    symbols: Symbols,
    s: Machine,
    fn_name: Seq<char>,
    n_vars: nat,
)
    requires
        placed(code, s.pc, func_code(fn_name, n_vars)),
        registers_resolve(symbols),
        operand_address(symbols, local_loop_label(fn_name)) == s.pc + 3,
        operand_address(symbols, local_loop_end_label(fn_name)) == s.pc + 13,
        s.pc + 13 < 32768,
        n_vars < 32768,
        0 < s.sp(),
        s.sp() + n_vars <= 32768,
    ensures
        ({
            let t = run(code, symbols, s, func_steps(n_vars));
            &&& t.pc == s.pc + 14
            &&& t.sp() == s.sp() + n_vars
            &&& forall|x: int|
                x != 0 ==> t.ram[x] == if s.sp() <= x < s.sp() + n_vars {
                    0
                } else {
                    s.ram[x]
                }
        }),
{
    lemma_register_addresses(symbols);
    lemma_decimal_text_is_numeral(n_vars);
    lemma_decimal_round_trip(n_vars);
    let m = run(code, symbols, s, 3);
    assert(m.pc == s.pc + 3 && m.d == n_vars && m.ram == s.ram) by {
        reveal_with_fuel(run, 4);
    }
    lemma_clear_locals(code, symbols, m, s.pc, fn_name, n_vars, n_vars);
    lemma_run_split(code, symbols, s, 3, 10 * n_vars + 4);
}

/// The start of the return routine keeps the return address in cell 14.
#[verifier::rlimit(50)]
proof fn lemma_return_save_address(code: Seq<Instr>, symbols: Symbols, s: Machine)
    requires
        placed(code, s.pc, return_save_address_code()),
        registers_resolve(symbols),
    ensures
        ({
            let t = run(code, symbols, s, 8);
            &&& t.pc == s.pc + 8
            &&& t.ram == s.ram.insert(14, s.ram[cell(wrap(s.lcl() - 5))])
        }),
{
    lemma_register_addresses(symbols);
    lemma_five(symbols);
    reveal_with_fuel(run, 9);
}

/// The return value goes where `ARG` points, and `SP` just above it.
#[verifier::rlimit(50)]
proof fn lemma_return_place_value(code: Seq<Instr>, symbols: Symbols, s: Machine)
    requires
        placed(code, s.pc, return_place_value_code()),
        registers_resolve(symbols),
    ensures
        ({
            let t = run(code, symbols, s, 9);
            &&& t.pc == s.pc + 9
            &&& t.ram == s.ram.insert(cell(s.arg()), s.ram[top_cell(s)]).insert(
                0,
                wrap(s.arg() + 1),
            )
        }),
{
    lemma_register_addresses(symbols);
    let m = run(code, symbols, s, 6);
    assert(m.pc == s.pc + 6 && m.a == s.arg() && m.ram == s.ram.insert(
        cell(s.arg()),
        s.ram[top_cell(s)],
    )) by {
        reveal_with_fuel(run, 7);
    }
    assert(run(code, symbols, m, 3).pc == m.pc + 3 && run(code, symbols, m, 3).ram
        == m.ram.insert(0, wrap(m.a + 1))) by {
        reveal_with_fuel(run, 4);
    }
    lemma_run_split(code, symbols, s, 6, 3);
}

/// Cell 13 is set to the address below `LCL`, and `THAT` to the cell there.
#[verifier::rlimit(50)]
proof fn lemma_return_restore_that(code: Seq<Instr>, symbols: Symbols, s: Machine)
    requires
        placed(code, s.pc, return_restore_that_code()),
        registers_resolve(symbols),
    ensures
        ({
            let t = run(code, symbols, s, 7);
            let below = wrap(s.lcl() - 1);
            let r = s.ram.insert(13, below);
            &&& t.pc == s.pc + 7
            &&& t.ram == r.insert(4, r[cell(below)])
        }),
{
    lemma_register_addresses(symbols);
    reveal_with_fuel(run, 8);
}

/// Cell 13 moves one address down, and the cell that `pointer` stands for
/// is set to the cell that cell 13 then addresses.
#[verifier::rlimit(50)]
proof fn lemma_return_restore(
    code: Seq<Instr>,
    symbols: Symbols,
    s: Machine,
    pointer: Seq<char>,
)
    requires
        placed(code, s.pc, return_restore_code(pointer)),
        registers_resolve(symbols),
        loadable(symbols, pointer),
    ensures
        ({
            let t = run(code, symbols, s, 5);
            let below = wrap(s.ram[13] - 1);
            let r = s.ram.insert(13, below);
            &&& t.pc == s.pc + 5
            &&& t.ram == r.insert(operand_address(symbols, pointer), r[cell(below)])
        }),
{
    lemma_register_addresses(symbols);
    reveal_with_fuel(run, 6);
}

/// The end of the return routine continues at the address kept in cell 14.
#[verifier::rlimit(50)]
proof fn lemma_return_jump(code: Seq<Instr>, symbols: Symbols, s: Machine)
    requires
        placed(code, s.pc, return_jump_code()),
        registers_resolve(symbols),
    ensures
        ({
            let t = run(code, symbols, s, 3);
            &&& t.pc == s.ram[14]
            &&& t.ram == s.ram
        }),
{
    lemma_register_addresses(symbols);
    reveal_with_fuel(run, 4);
}

/// The state is that of a function about to return: `LCL` lies above a
/// frame of five cells, `ARG` at or below the first of them, both above the
/// registers, and the stack holds a value.
pub open spec fn ready_to_return(s: Machine) -> bool {
    &&& 16 <= s.arg()
    &&& s.arg() + 5 <= s.lcl()
    &&& s.lcl() <= 32768
    &&& stack_ok(s, 1, 0)
}

/// The return routine puts the topmost value of the stack where `ARG`
/// points and `SP` just above it, restores `LCL`, `ARG`, `THIS` and `THAT`
/// from the four cells below the old `LCL`, and continues at the address
/// found five cells below it.  Of the memory above the registers it changes
/// that one cell only.
#[verifier::rlimit(50)]
pub proof fn lemma_write_return(code: Seq<Instr>, symbols: Symbols, s: Machine)
    requires
        placed(code, s.pc, write_return_code()),
        registers_resolve(symbols),
        ready_to_return(s),
    ensures
        ({
            let t = run(code, symbols, s, 42);
            let frame = s.lcl() as int;
            &&& t.pc == s.ram[frame - 5]
            &&& t.sp() == s.arg() + 1
            &&& t.ram[s.arg() as int] == s.ram[s.sp() - 1]
            &&& t.lcl() == s.ram[frame - 4]
            &&& t.arg() == s.ram[frame - 3]
            &&& t.this() == s.ram[frame - 2]
            &&& t.that() == s.ram[frame - 1]
            &&& forall|k: int| k >= 16 && k != s.arg() ==> t.ram[k] == s.ram[k]
        }),
{
    lemma_register_addresses(symbols);
    let c1 = return_save_address_code();
    let c2 = return_place_value_code();
    let c3 = return_restore_that_code();
    let c4 = return_restore_code("THIS"@);
    let c5 = return_restore_code("ARG"@);
    let c6 = return_restore_code("LCL"@);
    let c7 = return_jump_code();
    lemma_placed_concat(code, s.pc, c1 + c2 + c3 + c4 + c5 + c6, c7);
    lemma_placed_concat(code, s.pc, c1 + c2 + c3 + c4 + c5, c6);
    lemma_placed_concat(code, s.pc, c1 + c2 + c3 + c4, c5);
    lemma_placed_concat(code, s.pc, c1 + c2 + c3, c4);
    lemma_placed_concat(code, s.pc, c1 + c2, c3);
    lemma_placed_concat(code, s.pc, c1, c2);
    let frame = s.lcl() as int;
    let arg = s.arg() as int;
    let m1 = run(code, symbols, s, 8);
    lemma_return_save_address(code, symbols, s);
    let m2 = run(code, symbols, m1, 9);
    lemma_return_place_value(code, symbols, m1);
    assert(m2.ram[14] == s.ram[frame - 5]);
    assert(m2.ram[arg] == s.ram[s.sp() - 1]);
    assert(m2.sp() == arg + 1);
    assert(m2.lcl() == frame);
    assert(forall|k: int| frame - 4 <= k < frame ==> m2.ram[k] == s.ram[k]);
    assert(forall|k: int| k >= 16 && k != arg ==> m2.ram[k] == s.ram[k]);
    let m3 = run(code, symbols, m2, 7);
    lemma_return_restore_that(code, symbols, m2);
    assert(m3.ram[13] == frame - 1);
    assert(m3.that() == s.ram[frame - 1]);
    let m4 = run(code, symbols, m3, 5);
    lemma_return_restore(code, symbols, m3, "THIS"@);
    assert(m4.ram[13] == frame - 2);
    assert(m4.this() == s.ram[frame - 2]);
    let m5 = run(code, symbols, m4, 5);
    lemma_return_restore(code, symbols, m4, "ARG"@);
    assert(m5.ram[13] == frame - 3);
    assert(m5.arg() == s.ram[frame - 3]);
    assert(m5.ram[arg] == s.ram[s.sp() - 1]);
    let m6 = run(code, symbols, m5, 5);
    lemma_return_restore(code, symbols, m5, "LCL"@);
    assert(m6.lcl() == s.ram[frame - 4]);
    assert(m6.ram[14] == s.ram[frame - 5]);
    assert(forall|k: int| k >= 16 && k != arg ==> m6.ram[k] == s.ram[k]);
    lemma_return_jump(code, symbols, m6);
    lemma_run_split(code, symbols, s, 8, 9);
    lemma_run_split(code, symbols, s, 17, 7);
    lemma_run_split(code, symbols, s, 24, 5);
    lemma_run_split(code, symbols, s, 29, 5);
    lemma_run_split(code, symbols, s, 34, 5);
    lemma_run_split(code, symbols, s, 39, 3);
}

/// A return after the first continues at the return routine and leaves the
/// memory alone.
#[verifier::rlimit(50)]
pub proof fn lemma_return_func(code: Seq<Instr>, symbols: Symbols, s: Machine)
    requires
        placed(code, s.pc, return_func_code()),
        loadable(symbols, shared_return_label()),
    ensures
        ({
            let t = run(code, symbols, s, 2);
            &&& t.pc == operand_address(symbols, shared_return_label())
            &&& t.ram == s.ram
        }),
{
    reveal_with_fuel(run, 3);
}

/// `@256` loads 256.
proof fn lemma_stack_base(symbols: Symbols)
    ensures
        operand_address(symbols, "256"@) == 256,
{
    reveal_strlit("256");
    let s = "256"@;
    let two = s.drop_last().drop_last();
    assert(two.len() == 1 && two[0] == '2');
    lemma_digit_is_numeral(two);
    assert(numeral_value(s.drop_last()) == 25);
    assert(numeral_value(s) == 256);
}

/// The code in front of the bootstrap call sets the stack pointer to 256.
#[verifier::rlimit(50)]
pub proof fn lemma_stack_setup(code: Seq<Instr>, symbols: Symbols, s: Machine)
    requires
        placed(code, s.pc, stack_setup_code()),
        registers_resolve(symbols),
    ensures
        ({
            let t = run(code, symbols, s, 6);
            &&& t.pc == s.pc + 6
            &&& t.ram == s.ram.insert(0, 256)
        }),
{
    lemma_register_addresses(symbols);
    lemma_stack_base(symbols);
    reveal_with_fuel(run, 7);
}

} // verus!
