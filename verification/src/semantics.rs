//! What the commands of the stack machine do on the target machine.
//!
//! The stack grows upwards from above the machine's registers; `SP` is the
//! address just above its top.  Every lemma speaks of an assembled listing
//! that holds the code of a command at the program counter, and of the
//! state once that code has run.

use vstd::prelude::*;

use crate::assembly::{Comp, Dest, Instr};
use crate::code_writer::{
    base_symbol, bootstrap_code, bootstrap_return_label, call_func_code, call_tail_code,
    command_code, comparison_code, end_comp_label, func_code, local_loop_end_label,
    local_loop_label, next_state, pop_code, pop_segment_code, push_code, push_segment_code,
    push_value_code, qualified_label, return_label, return_save_address_code, shared_return_label,
    stack_setup_code, static_symbol, write_return_code, GenState,
};
use crate::decimal::{decimal_text, lemma_decimal_round_trip, lemma_decimal_text_is_numeral};
use crate::fragments::{
    comparison_steps, frame_at, func_steps, lemma_arithmetic_one_arg, lemma_arithmetic_two_args,
    lemma_call_func, lemma_comparison, lemma_def_label, lemma_func, lemma_goto, lemma_if_goto,
    lemma_pop_segment, lemma_pop_value, lemma_push_segment, lemma_push_value, lemma_return_func,
    lemma_stack_setup, lemma_write_return, ready_to_return,
};
use crate::machine::{
    assembled, cell, lemma_label_address, lemma_placed_concat, lemma_register_addresses,
    lemma_run_split, loadable, operand_address, placed, run, signed, stack_ok, truth_word, wrap,
    Machine, Symbols,
};
use crate::{Command, Comparison, MemSegment};

verus! {

/// The segments that are addressed through a base pointer.
pub open spec fn indirect(segment: MemSegment) -> bool {
    segment == MemSegment::Argument || segment == MemSegment::Local || segment == MemSegment::This
        || segment == MemSegment::That
}

/// The address of the cell that holds the base of an indirect segment.
pub open spec fn base_address(segment: MemSegment) -> int
    recommends
        indirect(segment),
{
    match segment {
        MemSegment::Local => 1,
        MemSegment::Argument => 2,
        MemSegment::This => 3,
        _ => 4,
    }
}

/// The address of cell `n` of a segment that lies at fixed addresses:
/// what the symbol of a `static` cell stands for, cell 3 or 4 for
/// `pointer`, and the cell `n` places above cell 5 for `temp`.
pub open spec fn fixed_address(
    symbols: Symbols,
    file: Seq<char>,
    segment: MemSegment,
    n: u16,
) -> int
    recommends
        segment == MemSegment::Static || segment == MemSegment::Pointer || segment
            == MemSegment::Temp,
{
    match segment {
        MemSegment::Static => operand_address(symbols, static_symbol(file, n as nat)),
        MemSegment::Pointer => if n == 0 {
            3
        } else {
            4
        },
        _ => n + 5,
    }
}

/// The address of the cell that `push segment n` reads and `pop segment n`
/// writes, for a segment other than `constant`.
pub open spec fn segment_cell(
    symbols: Symbols,
    s: Machine,
    file: Seq<char>,
    segment: MemSegment,
    n: u16,
) -> int
    recommends
        segment != MemSegment::Constant,
{
    if indirect(segment) {
        cell(wrap(s.ram[base_address(segment)] + n))
    } else {
        fixed_address(symbols, file, segment, n)
    }
}

/// `@n` or the symbol of the cell can be encoded.
pub open spec fn segment_loadable(
    symbols: Symbols,
    file: Seq<char>,
    segment: MemSegment,
    n: u16,
) -> bool {
    match segment {
        MemSegment::Static => loadable(symbols, static_symbol(file, n as nat)),
        MemSegment::Pointer => true,
        MemSegment::Temp => n + 5 < 32768,
        _ => n < 32768,
    }
}

/// How many lines the code of a push or pop runs.
pub open spec fn transfer_steps(segment: MemSegment, push: bool) -> nat {
    if indirect(segment) {
        9
    } else if push {
        6
    } else {
        5
    }
}

/// `push segment n` puts on top of the stack the number `n` for `constant`
/// and the cell `n` of the segment otherwise, and moves the stack pointer
/// up by one.
pub proof fn lemma_push_command(
    code: Seq<Instr>,
    symbols: Symbols,
    s: Machine,
    st: GenState,
    segment: MemSegment,
    n: u16,
)
    requires
        placed(code, s.pc, command_code(st, Command::Push(segment, n))),
        assembled(code, symbols),
        segment_loadable(symbols, st.file, segment, n),
        stack_ok(s, 0, 1),
    ensures
        ({
            let t = run(code, symbols, s, transfer_steps(segment, true));
            let v = if segment == MemSegment::Constant {
                n
            } else {
                s.ram[segment_cell(symbols, s, st.file, segment, n)]
            };
            &&& t.pc == s.pc + transfer_steps(segment, true)
            &&& t.ram == s.ram.insert(0, (s.sp() + 1) as u16).insert(s.sp() as int, v)
        }),
{
    lemma_register_addresses(symbols);
    match segment {
        MemSegment::Static => {
            lemma_push_value(code, symbols, s, static_symbol(st.file, n as nat), false);
        },
        MemSegment::Pointer => {
            lemma_push_value(
                code,
                symbols,
                s,
                if n == 0 {
                    "THIS"@
                } else {
                    "THAT"@
                },
                false,
            );
        },
        MemSegment::Temp => {
            lemma_decimal_text_is_numeral(n as nat + 5);
            lemma_decimal_round_trip(n as nat + 5);
            lemma_push_value(code, symbols, s, decimal_text(n as nat + 5), false);
        },
        MemSegment::Constant => {
            lemma_decimal_text_is_numeral(n as nat);
            lemma_decimal_round_trip(n as nat);
            lemma_push_value(code, symbols, s, decimal_text(n as nat), true);
        },
        _ => {
            lemma_push_segment(code, symbols, s, base_symbol(segment), n as nat);
        },
    }
}

/// `pop segment n` moves the stack pointer down by one and stores the value
/// that was on top in cell `n` of the segment, found through the base as
/// it is before the pop.
pub proof fn lemma_pop_command(
    code: Seq<Instr>,
    symbols: Symbols,
    s: Machine,
    st: GenState,
    segment: MemSegment,
    n: u16,
)
    requires
        segment != MemSegment::Constant,
        placed(code, s.pc, command_code(st, Command::Pop(segment, n))),
        assembled(code, symbols),
        segment_loadable(symbols, st.file, segment, n),
        stack_ok(s, 1, 0),
    ensures
        ({
            let t = run(code, symbols, s, transfer_steps(segment, false));
            &&& t.pc == s.pc + transfer_steps(segment, false)
            &&& t.ram == s.ram.insert(0, (s.sp() - 1) as u16).insert(
                segment_cell(symbols, s, st.file, segment, n),
                s.ram[s.sp() - 1],
            )
        }),
{
    lemma_register_addresses(symbols);
    match segment {
        MemSegment::Static => {
            lemma_pop_value(code, symbols, s, static_symbol(st.file, n as nat));
        },
        MemSegment::Pointer => {
            lemma_pop_value(
                code,
                symbols,
                s,
                if n == 0 {
                    "THIS"@
                } else {
                    "THAT"@
                },
            );
        },
        MemSegment::Temp => {
            lemma_decimal_text_is_numeral(n as nat + 5);
            lemma_decimal_round_trip(n as nat + 5);
            lemma_pop_value(code, symbols, s, decimal_text(n as nat + 5));
        },
        _ => {
            lemma_pop_segment(code, symbols, s, base_symbol(segment), n as nat);
        },
    }
}

/// What a binary command makes of the value `x` below the top of the stack
/// and the value `y` on top.
pub open spec fn binary_result(command: Command, x: u16, y: u16) -> u16 {
    match command {
        Command::Add => wrap(x + y),
        Command::Sub => wrap(x - y),
        Command::And => x & y,
        _ => x | y,
    }
}

/// The commands that replace the two topmost values by one.
pub open spec fn binary(command: Command) -> bool {
    command == Command::Add || command == Command::Sub || command == Command::And || command
        == Command::Or
}

/// What a unary command makes of the value on top of the stack.
pub open spec fn unary_result(command: Command, x: u16) -> u16 {
    match command {
        Command::Neg => wrap(-x),
        _ => !x,
    }
}

/// The commands that replace the topmost value.
pub open spec fn unary(command: Command) -> bool {
    command == Command::Neg || command == Command::Not
}

/// `add`, `sub`, `and` and `or` replace the two topmost values of the
/// stack by their result and change no other cell of the stack or of a
/// segment.
pub proof fn lemma_binary_command(
    code: Seq<Instr>,
    symbols: Symbols,
    s: Machine,
    st: GenState,
    command: Command,
)
    requires
        binary(command),
        placed(code, s.pc, command_code(st, command)),
        assembled(code, symbols),
        stack_ok(s, 2, 0),
    ensures
        ({
            let t = run(code, symbols, s, 5);
            let x = s.ram[s.sp() - 2];
            let y = s.ram[s.sp() - 1];
            &&& t.pc == s.pc + 5
            &&& t.sp() == s.sp() - 1
            &&& t.ram[t.sp() - 1] == binary_result(command, x, y)
            &&& forall|k: int| k != 0 && k != s.sp() - 2 ==> t.ram[k] == s.ram[k]
        }),
{
    let comp = match command {
        Command::Add => Comp::DPlusM,
        Command::Sub => Comp::MMinusD,
        Command::And => Comp::DAndM,
        _ => Comp::DOrM,
    };
    lemma_arithmetic_two_args(code, symbols, s, Dest::M, comp);
    let x = s.ram[s.sp() - 2];
    let y = s.ram[s.sp() - 1];
    assert(y & x == x & y) by (bit_vector);
    assert(y | x == x | y) by (bit_vector);
}

/// `neg` and `not` replace the topmost value of the stack by its result and
/// change nothing else.
pub proof fn lemma_unary_command(
    code: Seq<Instr>,
    symbols: Symbols,
    s: Machine,
    st: GenState,
    command: Command,
)
    requires
        unary(command),
        placed(code, s.pc, command_code(st, command)),
        assembled(code, symbols),
        stack_ok(s, 1, 0),
    ensures
        ({
            let t = run(code, symbols, s, 3);
            &&& t.pc == s.pc + 3
            &&& t.ram[s.sp() - 1] == unary_result(command, s.ram[s.sp() - 1])
            &&& forall|k: int| k != s.sp() - 1 ==> t.ram[k] == s.ram[k]
        }),
{
    let comp = match command {
        Command::Neg => Comp::NegM,
        _ => Comp::NotM,
    };
    lemma_arithmetic_one_arg(code, symbols, s, comp);
}

/// Whether a comparison holds of `x` and `y`, read as signed numbers.
pub open spec fn holds_of(kind: Comparison, x: int, y: int) -> bool {
    match kind {
        Comparison::Eq => x == y,
        Comparison::GT => x > y,
        Comparison::LT => x < y,
    }
}

/// A comparison replaces the two topmost values of the stack by the truth
/// word of the comparison: `eq` of any two values, `gt` and `lt` of values
/// whose difference is a 16-bit signed number.
pub proof fn lemma_compare_command(
    code: Seq<Instr>,
    symbols: Symbols,
    s: Machine,
    st: GenState,
    kind: Comparison,
)
    requires
        placed(code, s.pc, command_code(st, Command::Compare(kind))),
        assembled(code, symbols),
        stack_ok(s, 2, 0),
        kind != Comparison::Eq ==> -32768 <= signed(s.ram[s.sp() - 2]) - signed(
            s.ram[s.sp() - 1],
        ) < 32768,
    ensures
        ({
            let x = signed(s.ram[s.sp() - 2]);
            let y = signed(s.ram[s.sp() - 1]);
            let t = run(code, symbols, s, comparison_steps(holds_of(kind, x, y)));
            &&& t.pc == s.pc + 12
            &&& t.sp() == s.sp() - 1
            &&& t.ram[t.sp() - 1] == truth_word(holds_of(kind, x, y))
            &&& forall|k: int| k != 0 && k != s.sp() - 2 ==> t.ram[k] == s.ram[k]
        }),
{
    assert(code[s.pc + 8] == comparison_code(kind, st.comparisons)[8]);
    lemma_label_address(code, symbols, s.pc + 8, end_comp_label(st.comparisons));
    lemma_comparison(code, symbols, s, kind, st.comparisons);
}

/// `label` does nothing.
pub proof fn lemma_label_command(
    code: Seq<Instr>,
    symbols: Symbols,
    s: Machine,
    st: GenState,
    name: Seq<char>,
)
    requires
        placed(code, s.pc, command_code(st, Command::Label(name))),
    ensures
        run(code, symbols, s, 1) == (Machine { pc: s.pc + 1, ..s }),
{
    lemma_def_label(code, symbols, s, qualified_label(st.function, name));
}

/// `goto name` continues at the line of the label `name` of the current
/// function and leaves the memory alone.
pub proof fn lemma_goto_command(
    code: Seq<Instr>,
    symbols: Symbols,
    s: Machine,
    st: GenState,
    name: Seq<char>,
    target: int,
)
    requires
        assembled(code, symbols),
        placed(code, s.pc, command_code(st, Command::Goto(name))),
        0 <= target < code.len(),
        code[target] == Instr::Label(qualified_label(st.function, name)),
    ensures
        ({
            let t = run(code, symbols, s, 2);
            &&& t.pc == target
            &&& t.ram == s.ram
        }),
{
    lemma_label_address(code, symbols, target, qualified_label(st.function, name));
    lemma_goto(code, symbols, s, qualified_label(st.function, name));
}

/// `if-goto name` pops the topmost value of the stack and continues at the
/// line of the label `name` of the current function where the value is not
/// zero, and behind itself where it is.
pub proof fn lemma_if_goto_command(
    code: Seq<Instr>,
    symbols: Symbols,
    s: Machine,
    st: GenState,
    name: Seq<char>,
    target: int,
)
    requires
        assembled(code, symbols),
        placed(code, s.pc, command_code(st, Command::IfGoto(name))),
        0 <= target < code.len(),
        code[target] == Instr::Label(qualified_label(st.function, name)),
        stack_ok(s, 1, 0),
    ensures
        ({
            let t = run(code, symbols, s, 5);
            &&& t.pc == if s.ram[s.sp() - 1] != 0 {
                target
            } else {
                s.pc + 5
            }
            &&& t.ram == s.ram.insert(0, (s.sp() - 1) as u16)
        }),
{
    lemma_label_address(code, symbols, target, qualified_label(st.function, name));
    lemma_if_goto(code, symbols, s, qualified_label(st.function, name));
}

/// `function name n_vars` pushes `n_vars` zeros: it clears the `n_vars`
/// cells from the stack pointer on, moves the stack pointer up by `n_vars`
/// and changes no other cell, whatever `LCL` is; with no locals it stores
/// nothing.
pub proof fn lemma_function_command(
    code: Seq<Instr>,
    symbols: Symbols,
    s: Machine,
    st: GenState,
    name: Seq<char>,
    n_vars: u16,
)
    requires
        assembled(code, symbols),
        placed(code, s.pc, command_code(st, Command::Function(name, n_vars))),
        n_vars < 32768,
        0 < s.sp(),
        s.sp() + n_vars <= 32768,
    ensures
        ({
            let t = run(code, symbols, s, func_steps(n_vars as nat));
            &&& t.pc == s.pc + 14
            &&& t.sp() == s.sp() + n_vars
            &&& forall|x: int| s.sp() <= x < s.sp() + n_vars ==> t.ram[x] == 0
            &&& forall|x: int|
                x != 0 && !(s.sp() <= x < s.sp() + n_vars) ==> t.ram[x] == s.ram[x]
        }),
{
    let fragment = func_code(name, n_vars as nat);
    assert(code[s.pc + 3] == fragment[3]);
    assert(code[s.pc + 13] == fragment[13]);
    lemma_label_address(code, symbols, s.pc + 3, local_loop_label(name));
    lemma_label_address(code, symbols, s.pc + 13, local_loop_end_label(name));
    lemma_func(code, symbols, s, name, n_vars as nat);
}

/// The state `t` is that of a function called from the state `caller` with
/// `n_args` arguments: `LCL` lies five cells above the caller's stack,
/// those five cells hold the address to return to and the caller's `LCL`,
/// `ARG`, `THIS` and `THAT`, and `ARG` addresses the first of the caller's
/// `n_args` topmost cells.
pub open spec fn called_from(
    t: Machine,
    caller: Machine,
    return_address: int,
    n_args: nat,
) -> bool {
    &&& t.lcl() == caller.sp() + 5
    &&& t.arg() == caller.sp() - n_args
    &&& frame_at(t, caller.sp() as int, return_address, caller)
}

/// `call name n_args` builds a frame above the stack and continues at the
/// function: the state is then that of a function called from here, to
/// return to the label behind the call, with an empty stack and with the
/// caller's `THIS` and `THAT`.  No cell of the caller's stack or below it,
/// but `SP`, `LCL` and `ARG`, has changed.
pub proof fn lemma_call_command(
    code: Seq<Instr>,
    symbols: Symbols,
    s: Machine,
    st: GenState,
    name: Seq<char>,
    n_args: u16,
    entry: int,
)
    requires
        assembled(code, symbols),
        placed(code, s.pc, command_code(st, Command::Call(name, n_args))),
        0 <= entry < code.len(),
        code[entry] == Instr::Label(name),
        stack_ok(s, n_args as nat, 5),
    ensures
        ({
            let t = run(code, symbols, s, 44);
            &&& t.pc == entry
            &&& code[s.pc + 44] == Instr::Label(return_label(st.file, st.calls))
            &&& called_from(t, s, s.pc + 44, n_args as nat)
            &&& t.sp() == t.lcl()
            &&& t.this() == s.this()
            &&& t.that() == s.that()
            &&& forall|k: int| k > 2 && k < s.sp() ==> t.ram[k] == s.ram[k]
        }),
{
    let label = return_label(st.file, st.calls);
    let tail = call_tail_code(name, n_args as nat, label);
    lemma_placed_concat(
        code,
        s.pc,
        push_value_code(label, true) + push_value_code("LCL"@, false) + push_value_code(
            "ARG"@,
            false,
        ) + push_value_code("THIS"@, false) + push_value_code("THAT"@, false),
        tail,
    );
    assert(code[s.pc + 44] == tail[14]);
    lemma_label_address(code, symbols, s.pc + 44, label);
    lemma_label_address(code, symbols, entry, name);
    lemma_call_func(code, symbols, s, name, n_args as nat, label);
}

/// How many lines a return runs: two more where it first has to jump to
/// the routine.
pub open spec fn return_steps(st: GenState) -> nat {
    if st.return_emitted {
        44
    } else {
        42
    }
}

/// `return`, whether it is the return routine or a jump to it, puts the
/// topmost value of the stack where `ARG` points and `SP` just above it,
/// restores `LCL`, `ARG`, `THIS` and `THAT` from the four cells below the
/// old `LCL`, and continues at the address found five cells below it.  Of
/// the memory above the registers it changes that one cell only.
pub proof fn lemma_return_command(
    code: Seq<Instr>,
    symbols: Symbols,
    s: Machine,
    st: GenState,
    routine: int,
)
    requires
        assembled(code, symbols),
        placed(code, s.pc, command_code(st, Command::Return)),
        st.return_emitted ==> placed(code, routine, write_return_code()),
        ready_to_return(s),
    ensures
        ({
            let t = run(code, symbols, s, return_steps(st));
            let frame = s.lcl() as int;
            &&& t.pc == s.ram[frame - 5]
            &&& t.sp() == s.arg() + 1
            &&& t.ram[s.arg() as int] == s.ram[s.sp() - 1]
            &&& t.lcl() == s.ram[frame - 4]
            &&& t.arg() == s.ram[frame - 3]
            &&& t.this() == s.ram[frame - 2]
            &&& t.that() == s.ram[frame - 1]
            &&& forall|k: int| k >= 16 && k != s.arg() ==> t.ram[k] == s.ram[k]
        }),
{
    if st.return_emitted {
        assert(code[routine] == write_return_code()[0]);
        assert(write_return_code()[0] == return_save_address_code()[0]);
        lemma_label_address(code, symbols, routine, shared_return_label());
        lemma_return_func(code, symbols, s);
        let m = run(code, symbols, s, 2);
        lemma_write_return(code, symbols, m);
        lemma_run_split(code, symbols, s, 2, 42);
    } else {
        lemma_write_return(code, symbols, s);
    }
}

/// Pushing a cell of an indirect segment and popping it back into the same
/// cell leaves the stack pointer and every cell as they were, but for the
/// free cell above the stack, through which the value went.
pub proof fn lemma_push_pop_round_trip(
    code: Seq<Instr>,
    symbols: Symbols,
    s: Machine,
    file: Seq<char>,
    segment: MemSegment,
    n: u16,
)
    requires
        indirect(segment),
        placed(code, s.pc, push_code(file, segment, n) + pop_code(file, segment, n)),
        assembled(code, symbols),
        n < 32768,
        stack_ok(s, 0, 1),
    ensures
        ({
            let t = run(code, symbols, s, 18);
            let target = cell(wrap(s.ram[base_address(segment)] + n));
            &&& t.pc == s.pc + 18
            &&& t.sp() == s.sp()
            &&& t.ram[target] == s.ram[target]
            &&& forall|x: int| x != s.sp() ==> t.ram[x] == s.ram[x]
        }),
{
    let name = base_symbol(segment);
    lemma_register_addresses(symbols);
    lemma_placed_concat(
        code,
        s.pc,
        push_segment_code(name, n as nat),
        pop_segment_code(name, n as nat),
    );
    lemma_push_segment(code, symbols, s, name, n as nat);
    let m = run(code, symbols, s, 9);
    lemma_pop_segment(code, symbols, m, name, n as nat);
    lemma_run_split(code, symbols, s, 9, 9);
}

/// `push constant a`, `push constant b` and a binary command leave the
/// result of the command on `a` and `b` on top of the stack, one cell above
/// where the stack ended before.
pub proof fn lemma_push_push_binary(
    code: Seq<Instr>,
    symbols: Symbols,
    s: Machine,
    st: GenState,
    a: u16,
    b: u16,
    command: Command,
)
    requires
        binary(command),
        placed(
            code,
            s.pc,
            push_code(st.file, MemSegment::Constant, a) + push_code(
                st.file,
                MemSegment::Constant,
                b,
            ) + command_code(st, command),
        ),
        assembled(code, symbols),
        a < 32768,
        b < 32768,
        stack_ok(s, 0, 2),
    ensures
        ({
            let t = run(code, symbols, s, 17);
            &&& t.pc == s.pc + 17
            &&& t.sp() == s.sp() + 1
            &&& t.ram[t.sp() - 1] == binary_result(command, a, b)
            &&& forall|k: int|
                k != 0 && k != s.sp() && k != s.sp() + 1 ==> t.ram[k] == s.ram[k]
        }),
{
    let first = push_code(st.file, MemSegment::Constant, a);
    let second = push_code(st.file, MemSegment::Constant, b);
    lemma_placed_concat(code, s.pc, first + second, command_code(st, command));
    lemma_placed_concat(code, s.pc, first, second);
    lemma_push_command(code, symbols, s, st, MemSegment::Constant, a);
    let m1 = run(code, symbols, s, 6);
    lemma_push_command(code, symbols, m1, st, MemSegment::Constant, b);
    let m2 = run(code, symbols, m1, 6);
    lemma_binary_command(code, symbols, m2, st, command);
    lemma_run_split(code, symbols, s, 6, 6);
    lemma_run_split(code, symbols, s, 12, 5);
}

/// `push constant a` and a unary command leave the result of the command
/// on `a` on top of the stack.
pub proof fn lemma_push_unary(
    code: Seq<Instr>,
    symbols: Symbols,
    s: Machine,
    st: GenState,
    a: u16,
    command: Command,
)
    requires
        unary(command),
        placed(code, s.pc, push_code(st.file, MemSegment::Constant, a) + command_code(st, command)),
        assembled(code, symbols),
        a < 32768,
        stack_ok(s, 0, 1),
    ensures
        ({
            let t = run(code, symbols, s, 9);
            &&& t.pc == s.pc + 9
            &&& t.sp() == s.sp() + 1
            &&& t.ram[t.sp() - 1] == unary_result(command, a)
            &&& forall|k: int| k != 0 && k != s.sp() ==> t.ram[k] == s.ram[k]
        }),
{
    let first = push_code(st.file, MemSegment::Constant, a);
    lemma_placed_concat(code, s.pc, first, command_code(st, command));
    lemma_push_command(code, symbols, s, st, MemSegment::Constant, a);
    let m1 = run(code, symbols, s, 6);
    lemma_unary_command(code, symbols, m1, st, command);
    lemma_run_split(code, symbols, s, 6, 3);
}

/// `push constant a`, `push constant b` and a comparison leave the truth
/// word of the comparison of `a` with `b` on top of the stack: all bits set
/// where it holds, zero where it does not.
pub proof fn lemma_push_push_compare(
    code: Seq<Instr>,
    symbols: Symbols,
    s: Machine,
    st: GenState,
    a: u16,
    b: u16,
    kind: Comparison,
)
    requires
        placed(
            code,
            s.pc,
            push_code(st.file, MemSegment::Constant, a) + push_code(
                st.file,
                MemSegment::Constant,
                b,
            ) + command_code(st, Command::Compare(kind)),
        ),
        assembled(code, symbols),
        a < 32768,
        b < 32768,
        stack_ok(s, 0, 2),
    ensures
        ({
            let holds = holds_of(kind, a as int, b as int);
            let t = run(code, symbols, s, 12 + comparison_steps(holds));
            &&& t.pc == s.pc + 24
            &&& t.sp() == s.sp() + 1
            &&& t.ram[t.sp() - 1] == truth_word(holds)
            &&& forall|k: int|
                k != 0 && k != s.sp() && k != s.sp() + 1 ==> t.ram[k] == s.ram[k]
        }),
{
    let first = push_code(st.file, MemSegment::Constant, a);
    let second = push_code(st.file, MemSegment::Constant, b);
    let holds = holds_of(kind, a as int, b as int);
    lemma_placed_concat(code, s.pc, first + second, command_code(st, Command::Compare(kind)));
    lemma_placed_concat(code, s.pc, first, second);
    lemma_push_command(code, symbols, s, st, MemSegment::Constant, a);
    let m1 = run(code, symbols, s, 6);
    lemma_push_command(code, symbols, m1, st, MemSegment::Constant, b);
    let m2 = run(code, symbols, m1, 6);
    lemma_compare_command(code, symbols, m2, st, kind);
    lemma_run_split(code, symbols, s, 6, 6);
    lemma_run_split(code, symbols, s, 12, comparison_steps(holds));
}

/// A call followed by the entry code of the called function: `ARG`
/// addresses the `n_args` values that the caller pushed last, whatever
/// their number, `LCL` addresses `n_vars` cleared cells above the saved
/// frame, and the stack is empty above them.
pub proof fn lemma_call_enters_function(
    code: Seq<Instr>,
    symbols: Symbols,
    s: Machine,
    st: GenState,
    at_entry: GenState,
    name: Seq<char>,
    n_args: u16,
    n_vars: u16,
    entry: int,
)
    requires
        assembled(code, symbols),
        placed(code, s.pc, command_code(st, Command::Call(name, n_args))),
        placed(code, entry, command_code(at_entry, Command::Function(name, n_vars))),
        n_vars < 32768,
        stack_ok(s, n_args as nat, 5 + n_vars as nat),
    ensures
        ({
            let t = run(code, symbols, s, 44 + func_steps(n_vars as nat));
            &&& t.pc == entry + 14
            &&& called_from(t, s, s.pc + 44, n_args as nat)
            &&& forall|x: int| t.arg() <= x < t.arg() + n_args ==> t.ram[x] == s.ram[x]
            &&& forall|x: int| t.lcl() <= x < t.lcl() + n_vars ==> t.ram[x] == 0
            &&& t.sp() == t.lcl() + n_vars
            &&& t.this() == s.this()
            &&& t.that() == s.that()
            &&& forall|k: int| k > 4 && k < s.sp() ==> t.ram[k] == s.ram[k]
        }),
{
    assert(code[entry] == func_code(name, n_vars as nat)[0]);
    lemma_call_command(code, symbols, s, st, name, n_args, entry);
    let m = run(code, symbols, s, 44);
    lemma_function_command(code, symbols, m, at_entry, name, n_vars);
    lemma_run_split(code, symbols, s, 44, func_steps(n_vars as nat));
}

/// A function returns to its caller.
///
/// `caller` is a state at a call.  `callee` is any later state at a
/// `return` that is still that of a function called from there: it has the
/// `LCL` and `ARG` that the call set and the frame that it saved, whatever
/// was called and has returned in between, at whatever depth.  After the
/// return the program continues at the label behind the call.  `LCL`,
/// `ARG`, `THIS` and `THAT` are what they were at the call, the arguments
/// are replaced by the topmost value of the callee's stack, and no other
/// cell above the registers differs from `callee`.
pub proof fn lemma_return_restores_caller(
    code: Seq<Instr>,
    symbols: Symbols,
    caller: Machine,
    callee: Machine,
    st: GenState,
    at_return: GenState,
    name: Seq<char>,
    n_args: u16,
    routine: int,
)
    requires
        assembled(code, symbols),
        placed(code, caller.pc, command_code(st, Command::Call(name, n_args))),
        placed(code, callee.pc, command_code(at_return, Command::Return)),
        at_return.return_emitted ==> placed(code, routine, write_return_code()),
        stack_ok(caller, n_args as nat, 5),
        called_from(callee, caller, caller.pc + 44, n_args as nat),
        stack_ok(callee, 1, 0),
    ensures
        ({
            let t = run(code, symbols, callee, return_steps(at_return));
            let result = caller.sp() - n_args;
            &&& t.pc == caller.pc + 44
            &&& code[t.pc] == Instr::Label(return_label(st.file, st.calls))
            &&& t.lcl() == caller.lcl()
            &&& t.arg() == caller.arg()
            &&& t.this() == caller.this()
            &&& t.that() == caller.that()
            &&& t.sp() == result + 1
            &&& t.ram[result] == callee.ram[callee.sp() - 1]
            &&& forall|k: int| k >= 16 && k != result ==> t.ram[k] == callee.ram[k]
        }),
{
    lemma_return_command(code, symbols, callee, at_return, routine);
    let label = return_label(st.file, st.calls);
    let tail = call_tail_code(name, n_args as nat, label);
    lemma_placed_concat(
        code,
        caller.pc,
        push_value_code(label, true) + push_value_code("LCL"@, false) + push_value_code(
            "ARG"@,
            false,
        ) + push_value_code("THIS"@, false) + push_value_code("THAT"@, false),
        tail,
    );
    assert(code[caller.pc + 44] == tail[14]);
}

/// Calling a function that returns a constant.
///
/// The listing holds a call of `name` and, elsewhere, the function: its
/// entry code, `push constant c` and `return`.  From the call the program
/// comes back to the label behind it with `c` in place of the arguments,
/// with `LCL`, `ARG`, `THIS` and `THAT` as they were, and with the stack
/// below the arguments untouched.
pub proof fn lemma_call_returns_constant(
    code: Seq<Instr>,
    symbols: Symbols,
    s: Machine,
    st: GenState,
    at_entry: GenState,
    name: Seq<char>,
    n_args: u16,
    n_vars: u16,
    c: u16,
    entry: int,
    routine: int,
)
    requires
        assembled(code, symbols),
        placed(code, s.pc, command_code(st, Command::Call(name, n_args))),
        placed(
            code,
            entry,
            command_code(at_entry, Command::Function(name, n_vars)) + command_code(
                next_state(at_entry, Command::Function(name, n_vars)),
                Command::Push(MemSegment::Constant, c),
            ) + command_code(
                next_state(at_entry, Command::Function(name, n_vars)),
                Command::Return,
            ),
        ),
        at_entry.return_emitted ==> placed(code, routine, write_return_code()),
        n_vars < 32768,
        c < 32768,
        stack_ok(s, n_args as nat, 6 + n_vars as nat),
    ensures
        ({
            let inside = next_state(at_entry, Command::Function(name, n_vars));
            let t = run(
                code,
                symbols,
                s,
                44 + func_steps(n_vars as nat) + 6 + return_steps(inside),
            );
            let result = s.sp() - n_args;
            &&& t.pc == s.pc + 44
            &&& t.sp() == result + 1
            &&& t.ram[result] == c
            &&& t.lcl() == s.lcl()
            &&& t.arg() == s.arg()
            &&& t.this() == s.this()
            &&& t.that() == s.that()
            &&& forall|k: int| 16 <= k < result ==> t.ram[k] == s.ram[k]
        }),
{
    let inside = next_state(at_entry, Command::Function(name, n_vars));
    let enter = command_code(at_entry, Command::Function(name, n_vars));
    let push = command_code(inside, Command::Push(MemSegment::Constant, c));
    let leave = command_code(inside, Command::Return);
    lemma_placed_concat(code, entry, enter + push, leave);
    lemma_placed_concat(code, entry, enter, push);
    let steps_in = 44 + func_steps(n_vars as nat);
    lemma_call_enters_function(code, symbols, s, st, at_entry, name, n_args, n_vars, entry);
    let m1 = run(code, symbols, s, steps_in);
    lemma_push_command(code, symbols, m1, inside, MemSegment::Constant, c);
    let m2 = run(code, symbols, m1, 6);
    lemma_return_restores_caller(code, symbols, s, m2, st, inside, name, n_args, routine);
    lemma_run_split(code, symbols, s, steps_in, 6);
    lemma_run_split(code, symbols, s, steps_in + 6, return_steps(inside));
}

/// The bootstrap code sets the stack pointer to 256 and calls `Sys.init`
/// without arguments: the program continues there with an empty stack
/// above a frame at 256.
pub proof fn lemma_bootstrap(code: Seq<Instr>, symbols: Symbols, s: Machine, entry: int)
    requires
        assembled(code, symbols),
        placed(code, s.pc, bootstrap_code()),
        0 <= entry < code.len(),
        code[entry] == Instr::Label("Sys.init"@),
    ensures
        ({
            let t = run(code, symbols, s, 50);
            &&& t.pc == entry
            &&& t.sp() == 261
            &&& t.lcl() == 261
            &&& t.arg() == 256
            &&& t.ram[256] == s.pc + 50
        }),
{
    let call = call_func_code("Sys.init"@, 0, bootstrap_return_label());
    let tail = call_tail_code("Sys.init"@, 0, bootstrap_return_label());
    lemma_placed_concat(code, s.pc, stack_setup_code(), call);
    lemma_placed_concat(
        code,
        s.pc + 6,
        push_value_code(bootstrap_return_label(), true) + push_value_code("LCL"@, false)
            + push_value_code("ARG"@, false) + push_value_code("THIS"@, false) + push_value_code(
            "THAT"@,
            false,
        ),
        tail,
    );
    assert(code[s.pc + 50] == tail[14]);
    lemma_label_address(code, symbols, s.pc + 50, bootstrap_return_label());
    lemma_label_address(code, symbols, entry, "Sys.init"@);
    lemma_stack_setup(code, symbols, s);
    let m = run(code, symbols, s, 6);
    lemma_call_func(code, symbols, m, "Sys.init"@, 0, bootstrap_return_label());
    lemma_run_split(code, symbols, s, 6, 44);
}

} // verus!
