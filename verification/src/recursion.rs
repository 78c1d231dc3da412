//! A function that calls itself, as deep as the memory allows.
//!
//! `countdown n` calls itself with `n - 1` until the argument is zero and
//! hands the zero back through every level.  The lemma at the end follows
//! one call through all its levels: whatever the depth, each return finds
//! the frame of its own call and restores the state of its caller.

use vstd::prelude::*;

use crate::assembly::Instr;
use crate::code_writer::{command_code, next_state, write_return_code, GenState};
use crate::fragments::func_steps;
use crate::machine::{
    assembled, lemma_placed_concat, lemma_run_split, placed, run, stack_ok, Machine, Symbols,
};
use crate::semantics::{
    called_from, lemma_binary_command, lemma_call_enters_function, lemma_if_goto_command,
    lemma_label_command, lemma_push_command, lemma_return_restores_caller, return_steps,
};
use crate::{Command, MemSegment};

verus! {

/// The state inside the function: behind its `function` command.
pub open spec fn inside(st: GenState, name: Seq<char>) -> GenState {
    next_state(st, Command::Function(name, 0))
}

/// The state behind the first `return` of the function.
pub open spec fn later(st: GenState, name: Seq<char>) -> GenState {
    next_state(inside(st, name), Command::Return)
}

/// The code generated, from the state `st` on, for
///
/// ```text
/// function name 0
/// push argument 0
/// if-goto MORE
/// push constant 0
/// return
/// label MORE
/// push argument 0
/// push constant 1
/// sub
/// call name 1
/// return
/// ```
pub open spec fn countdown_code(st: GenState, name: Seq<char>) -> Seq<Instr> {
    command_code(st, Command::Function(name, 0))
        + command_code(inside(st, name), Command::Push(MemSegment::Argument, 0))
        + command_code(inside(st, name), Command::IfGoto("MORE"@))
        + command_code(inside(st, name), Command::Push(MemSegment::Constant, 0))
        + command_code(inside(st, name), Command::Return)
        + command_code(later(st, name), Command::Label("MORE"@))
        + command_code(later(st, name), Command::Push(MemSegment::Argument, 0))
        + command_code(later(st, name), Command::Push(MemSegment::Constant, 1))
        + command_code(later(st, name), Command::Sub)
        + command_code(later(st, name), Command::Call(name, 1))
        + command_code(next_state(later(st, name), Command::Call(name, 1)), Command::Return)
}

/// How many lines the first `return` of the function has.
pub open spec fn first_return_len(st: GenState) -> int {
    if st.return_emitted {
        2
    } else {
        42
    }
}

/// Where the return routine stands: where the listing has it, if it was
/// generated before the function, and in the function's first `return`
/// otherwise.
pub open spec fn routine_position(st: GenState, entry: int, routine: int) -> int {
    if st.return_emitted {
        routine
    } else {
        entry + 34
    }
}

/// How many lines run from a call of the function with argument `n` to the
/// label behind that call.
pub open spec fn countdown_steps(st: GenState, n: nat) -> nat
    decreases n,
{
    if n == 0 {
        71 + return_steps(st)
    } else {
        (86 + countdown_steps(st, (n - 1) as nat) + 45) as nat
    }
}

/// Where the code of each command of the function stands.
#[verifier::rlimit(50)]
proof fn lemma_countdown_layout(code: Seq<Instr>, entry: int, st: GenState, name: Seq<char>)
    requires
        placed(code, entry, countdown_code(st, name)),
    ensures
        ({
            let r = first_return_len(st);
            let i = inside(st, name);
            let l = later(st, name);
            &&& placed(code, entry, command_code(st, Command::Function(name, 0)))
            &&& placed(code, entry + 14, command_code(i, Command::Push(MemSegment::Argument, 0)))
            &&& placed(code, entry + 23, command_code(i, Command::IfGoto("MORE"@)))
            &&& placed(code, entry + 28, command_code(i, Command::Push(MemSegment::Constant, 0)))
            &&& placed(code, entry + 34, command_code(i, Command::Return))
            &&& placed(code, entry + 34 + r, command_code(l, Command::Label("MORE"@)))
            &&& placed(
                code,
                entry + 35 + r,
                command_code(l, Command::Push(MemSegment::Argument, 0)),
            )
            &&& placed(
                code,
                entry + 44 + r,
                command_code(l, Command::Push(MemSegment::Constant, 1)),
            )
            &&& placed(code, entry + 50 + r, command_code(l, Command::Sub))
            &&& placed(code, entry + 55 + r, command_code(l, Command::Call(name, 1)))
            &&& placed(
                code,
                entry + 100 + r,
                command_code(next_state(l, Command::Call(name, 1)), Command::Return),
            )
        }),
{
    let i = inside(st, name);
    let l = later(st, name);
    let c0 = command_code(st, Command::Function(name, 0));
    let c1 = command_code(i, Command::Push(MemSegment::Argument, 0));
    let c2 = command_code(i, Command::IfGoto("MORE"@));
    let c3 = command_code(i, Command::Push(MemSegment::Constant, 0));
    let c4 = command_code(i, Command::Return);
    let c5 = command_code(l, Command::Label("MORE"@));
    let c6 = command_code(l, Command::Push(MemSegment::Argument, 0));
    let c7 = command_code(l, Command::Push(MemSegment::Constant, 1));
    let c8 = command_code(l, Command::Sub);
    let c9 = command_code(l, Command::Call(name, 1));
    let c10 = command_code(next_state(l, Command::Call(name, 1)), Command::Return);
    assert(c0.len() == 14);
    assert(c1.len() == 9);
    assert(c2.len() == 5);
    assert(c3.len() == 6);
    assert(c4.len() == first_return_len(st));
    assert(c5.len() == 1);
    assert(c6.len() == 9);
    assert(c7.len() == 6);
    assert(c8.len() == 5);
    assert(c9.len() == 45);
    lemma_placed_concat(code, entry, c0 + c1 + c2 + c3 + c4 + c5 + c6 + c7 + c8 + c9, c10);
    lemma_placed_concat(code, entry, c0 + c1 + c2 + c3 + c4 + c5 + c6 + c7 + c8, c9);
    lemma_placed_concat(code, entry, c0 + c1 + c2 + c3 + c4 + c5 + c6 + c7, c8);
    lemma_placed_concat(code, entry, c0 + c1 + c2 + c3 + c4 + c5 + c6, c7);
    lemma_placed_concat(code, entry, c0 + c1 + c2 + c3 + c4 + c5, c6);
    lemma_placed_concat(code, entry, c0 + c1 + c2 + c3 + c4, c5);
    lemma_placed_concat(code, entry, c0 + c1 + c2 + c3, c4);
    lemma_placed_concat(code, entry, c0 + c1 + c2, c3);
    lemma_placed_concat(code, entry, c0 + c1, c2);
    lemma_placed_concat(code, entry, c0, c1);
}

/// `t` has the segment pointers of `s` and its cells above the registers
/// and below `limit`.
pub open spec fn kept(t: Machine, s: Machine, limit: int) -> bool {
    &&& t.lcl() == s.lcl()
    &&& t.arg() == s.arg()
    &&& t.this() == s.this()
    &&& t.that() == s.that()
    &&& forall|k: int| 16 <= k < limit ==> t.ram[k] == s.ram[k]
}

/// The listing holds the function at `entry` and a call of it at the
/// program counter of `s`, and the return routine at `routine` if it was
/// generated before the function.
pub open spec fn countdown_called(
    code: Seq<Instr>,
    symbols: Symbols,
    s: Machine,
    at_call: GenState,
    st: GenState,
    name: Seq<char>,
    entry: int,
    routine: int,
) -> bool {
    &&& assembled(code, symbols)
    &&& placed(code, entry, countdown_code(st, name))
    &&& st.return_emitted ==> placed(code, routine, write_return_code())
    &&& placed(code, s.pc, command_code(at_call, Command::Call(name, 1)))
}

/// `m` is a state inside the function called from `s`, with `depth` cells
/// on its stack: it has the frame of that call, and the caller's stack is
/// as it was.
pub open spec fn in_function(m: Machine, s: Machine, depth: int) -> bool {
    &&& called_from(m, s, s.pc + 44, 1)
    &&& m.sp() == s.sp() + 5 + depth
    &&& forall|k: int| 16 <= k < s.sp() ==> m.ram[k] == s.ram[k]
}

/// What holds when the call has come back.
pub open spec fn come_back(t: Machine, s: Machine) -> bool {
    &&& t.pc == s.pc + 44
    &&& t.sp() == s.sp()
    &&& t.ram[s.sp() - 1] == 0
    &&& kept(t, s, s.sp() - 1)
}

/// From the call to behind the test of the argument.
#[verifier::rlimit(50)]
proof fn lemma_countdown_enter(
    code: Seq<Instr>,
    symbols: Symbols,
    s: Machine,
    at_call: GenState,
    st: GenState,
    name: Seq<char>,
    entry: int,
    routine: int,
)
    requires
        countdown_called(code, symbols, s, at_call, st, name, entry, routine),
        stack_ok(s, 1, 7),
    ensures
        ({
            let m = run(code, symbols, s, 65);
            &&& in_function(m, s, 0)
            &&& m.pc == if s.ram[s.sp() - 1] == 0 {
                entry + 28
            } else {
                entry + 34 + first_return_len(st)
            }
        }),
{
    lemma_countdown_layout(code, entry, st, name);
    let r = first_return_len(st);
    let i = inside(st, name);
    let l = later(st, name);
    lemma_call_enters_function(code, symbols, s, at_call, st, name, 1, 0, entry);
    let m1 = run(code, symbols, s, 51);
    lemma_push_command(code, symbols, m1, i, MemSegment::Argument, 0);
    let m2 = run(code, symbols, m1, 9);
    assert(m2.ram[m2.sp() - 1] == s.ram[s.sp() - 1]);
    assert(code[entry + 34 + r] == command_code(l, Command::Label("MORE"@))[0]);
    lemma_if_goto_command(code, symbols, m2, i, "MORE"@, entry + 34 + r);
    lemma_run_split(code, symbols, s, 51, 9);
    lemma_run_split(code, symbols, s, 60, 5);
}

/// The last level: the argument is zero, and zero is returned.
#[verifier::rlimit(50)]
proof fn lemma_countdown_base(
    code: Seq<Instr>,
    symbols: Symbols,
    s: Machine,
    m: Machine,
    at_call: GenState,
    st: GenState,
    name: Seq<char>,
    entry: int,
    routine: int,
)
    requires
        countdown_called(code, symbols, s, at_call, st, name, entry, routine),
        stack_ok(s, 1, 7),
        in_function(m, s, 0),
        m.pc == entry + 28,
    ensures
        come_back(run(code, symbols, m, 6 + return_steps(st)), s),
{
    lemma_countdown_layout(code, entry, st, name);
    let i = inside(st, name);
    lemma_push_command(code, symbols, m, i, MemSegment::Constant, 0);
    let m4 = run(code, symbols, m, 6);
    assert(called_from(m4, s, s.pc + 44, 1));
    lemma_return_restores_caller(code, symbols, s, m4, at_call, i, name, 1, routine);
    lemma_run_split(code, symbols, m, 6, return_steps(i));
}

/// Where the code between the label `MORE` and the call stands.
proof fn lemma_countdown_layout_descend(
    code: Seq<Instr>,
    entry: int,
    st: GenState,
    name: Seq<char>,
)
    requires
        placed(code, entry, countdown_code(st, name)),
    ensures
        ({
            let r = first_return_len(st);
            let l = later(st, name);
            &&& placed(code, entry + 34 + r, command_code(l, Command::Label("MORE"@)))
            &&& placed(
                code,
                entry + 35 + r,
                command_code(l, Command::Push(MemSegment::Argument, 0)),
            )
            &&& placed(
                code,
                entry + 44 + r,
                command_code(l, Command::Push(MemSegment::Constant, 1)),
            )
            &&& placed(code, entry + 50 + r, command_code(l, Command::Sub))
        }),
{
    lemma_countdown_layout(code, entry, st, name);
}

/// A level above the last: from the label `MORE` to behind the push of the
/// argument.
#[verifier::rlimit(50)]
proof fn lemma_countdown_reload(
    code: Seq<Instr>,
    symbols: Symbols,
    s: Machine,
    m: Machine,
    st: GenState,
    name: Seq<char>,
    entry: int,
)
    requires
        assembled(code, symbols),
        placed(code, entry, countdown_code(st, name)),
        stack_ok(s, 1, 7),
        in_function(m, s, 0),
        m.pc == entry + 34 + first_return_len(st),
    ensures
        ({
            let t = run(code, symbols, m, 10);
            &&& in_function(t, s, 1)
            &&& t.pc == entry + 44 + first_return_len(st)
            &&& t.ram[t.sp() - 1] == s.ram[s.sp() - 1]
        }),
{
    lemma_countdown_layout_descend(code, entry, st, name);
    let l = later(st, name);
    lemma_label_command(code, symbols, m, l, "MORE"@);
    let m4 = run(code, symbols, m, 1);
    lemma_push_command(code, symbols, m4, l, MemSegment::Argument, 0);
    lemma_run_split(code, symbols, m, 1, 9);
}

/// A level above the last: from the label `MORE` to the call of the next
/// level, with the argument less one on the stack.
#[verifier::rlimit(50)]
proof fn lemma_countdown_descend(
    code: Seq<Instr>,
    symbols: Symbols,
    s: Machine,
    m: Machine,
    st: GenState,
    name: Seq<char>,
    entry: int,
)
    requires
        assembled(code, symbols),
        placed(code, entry, countdown_code(st, name)),
        stack_ok(s, 1, 7),
        in_function(m, s, 0),
        m.pc == entry + 34 + first_return_len(st),
        s.ram[s.sp() - 1] > 0,
    ensures
        ({
            let t = run(code, symbols, m, 21);
            &&& in_function(t, s, 1)
            &&& t.pc == entry + 55 + first_return_len(st)
            &&& t.ram[t.sp() - 1] == s.ram[s.sp() - 1] - 1
        }),
{
    lemma_countdown_layout_descend(code, entry, st, name);
    let l = later(st, name);
    let sp = s.sp() as int;
    let n = s.ram[sp - 1];
    lemma_countdown_reload(code, symbols, s, m, st, name, entry);
    let m5 = run(code, symbols, m, 10);
    lemma_push_command(code, symbols, m5, l, MemSegment::Constant, 1);
    let m6 = run(code, symbols, m5, 6);
    assert(m6.ram == m5.ram.insert(0, (sp + 7) as u16).insert(sp + 6, 1));
    assert(m6.ram[sp + 5] == n && m6.ram[sp + 6] == 1 && m6.sp() == sp + 7);
    lemma_binary_command(code, symbols, m6, l, Command::Sub);
    let m7 = run(code, symbols, m6, 5);
    assert(m7.sp() == sp + 6 && m7.ram[sp + 5] == n - 1);
    assert(forall|k: int| k != 0 && k != sp + 5 ==> m7.ram[k] == m6.ram[k]);
    assert(in_function(m7, s, 1));
    lemma_run_split(code, symbols, m, 10, 6);
    lemma_run_split(code, symbols, m, 16, 5);
}

/// A level above the last: from the label behind the call of the next
/// level, with the zero that it returned on the stack, back to the caller.
#[verifier::rlimit(50)]
proof fn lemma_countdown_ascend(
    code: Seq<Instr>,
    symbols: Symbols,
    s: Machine,
    m: Machine,
    at_call: GenState,
    st: GenState,
    name: Seq<char>,
    entry: int,
    routine: int,
)
    requires
        countdown_called(code, symbols, s, at_call, st, name, entry, routine),
        stack_ok(s, 1, 7),
        in_function(m, s, 1),
        m.pc == entry + 99 + first_return_len(st),
        m.ram[m.sp() - 1] == 0,
    ensures
        come_back(run(code, symbols, m, 45), s),
{
    lemma_countdown_layout(code, entry, st, name);
    let l = later(st, name);
    let call = command_code(l, Command::Call(name, 1));
    assert(code[m.pc] == call[44]);
    let m9 = run(code, symbols, m, 1);
    assert(m9 == Machine { pc: m.pc + 1, ..m }) by {
        reveal_with_fuel(run, 2);
    }
    lemma_return_restores_caller(
        code,
        symbols,
        s,
        m9,
        at_call,
        next_state(l, Command::Call(name, 1)),
        name,
        1,
        routine_position(st, entry, routine),
    );
    lemma_run_split(code, symbols, m, 1, 44);
}

/// A call of the function with the argument `n` on top of the stack comes
/// back to the label behind the call with zero in place of the argument,
/// with the caller's `LCL`, `ARG`, `THIS` and `THAT`, and with the stack
/// below the argument untouched.  It goes `n` calls deep on its way; all
/// it asks for is seven free cells for each level.
#[verifier::rlimit(50)]
pub proof fn lemma_countdown(
    code: Seq<Instr>,
    symbols: Symbols,
    s: Machine,
    at_call: GenState,
    st: GenState,
    name: Seq<char>,
    entry: int,
    routine: int,
    n: u16,
)
    requires
        countdown_called(code, symbols, s, at_call, st, name, entry, routine),
        stack_ok(s, 1, 7 * (n as nat + 1)),
        s.ram[s.sp() - 1] == n,
    ensures
        come_back(run(code, symbols, s, countdown_steps(st, n as nat)), s),
    decreases n,
{
    lemma_countdown_enter(code, symbols, s, at_call, st, name, entry, routine);
    let m3 = run(code, symbols, s, 65);
    if n == 0 {
        lemma_countdown_base(code, symbols, s, m3, at_call, st, name, entry, routine);
        lemma_run_split(code, symbols, s, 65, 6 + return_steps(st));
    } else {
        lemma_countdown_layout(code, entry, st, name);
        lemma_countdown_descend(code, symbols, s, m3, st, name, entry);
        let m7 = run(code, symbols, m3, 21);
        let inner = countdown_steps(st, (n - 1) as nat);
        lemma_countdown(
            code,
            symbols,
            m7,
            later(st, name),
            st,
            name,
            entry,
            routine,
            (n - 1) as u16,
        );
        let m8 = run(code, symbols, m7, inner);
        assert(in_function(m8, s, 1));
        lemma_countdown_ascend(code, symbols, s, m8, at_call, st, name, entry, routine);
        lemma_run_split(code, symbols, s, 65, 21);
        lemma_run_split(code, symbols, s, 86, inner);
        lemma_run_split(code, symbols, s, 86 + inner, 45);
    }
}

} // verus!
