//! The code generator: the assembly fragment of each command, and the
//! [`CodeWriter`] that carries the state from one command to the next.

use vstd::prelude::*;
use vstd::string::*;

use crate::assembly::{assign, branch, render, Comp, Dest, Emitter, Instr, Jump};
use crate::decimal::{decimal, decimal_text};
use crate::assembly::lemma_render_concat;
use crate::program::{lemma_push_step, program_code, state_after, with_command, Step};
use crate::{Command, Comparison, MemSegment, VmCommand};

verus! {

/// Code for `neg` and `not`: replaces the top of the stack by `comp`, which
/// reads the top as `M`.
pub open spec fn arithmetic_one_arg_code(comp: Comp) -> Seq<Instr> {
    Seq::empty()
        .push(Instr::At("SP"@))
        .push(assign(Dest::A, Comp::MMinusOne))
        .push(assign(Dest::M, comp))
}

/// Code for a binary operation: pops the top of the stack into `D`, points
/// `A` at the new top and executes `dest=comp` there.
pub open spec fn arithmetic_two_args_code(dest: Dest, comp: Comp) -> Seq<Instr> {
    Seq::empty()
        .push(Instr::At("SP"@))
        .push(assign(Dest::AM, Comp::MMinusOne))
        .push(assign(Dest::D, Comp::M))
        .push(assign(Dest::A, Comp::AMinusOne))
        .push(assign(dest, comp))
}

/// The label that ends the comparison numbered `counter`.  Like every
/// label that the generator makes up it holds two `$`, which no label of a
/// program with plain names does.
pub open spec fn end_comp_label(counter: nat) -> Seq<char> {
    "$$END_COMP"@ + decimal_text(counter)
}

/// The jump that is taken when the comparison does not hold of the
/// difference of its operands.
pub open spec fn jump_if_false(kind: Comparison) -> Jump {
    match kind {
        Comparison::Eq => Jump::JNE,
        Comparison::GT => Jump::JLE,
        Comparison::LT => Jump::JGE,
    }
}

/// Code for a comparison.  It leaves the difference of the operands on the
/// stack and in `D`, adds one to `D` where the comparison holds, and
/// subtracts `D` from the difference: zero where it fails, minus one where
/// it holds.
pub open spec fn comparison_code(kind: Comparison, counter: nat) -> Seq<Instr> {
    arithmetic_two_args_code(Dest::MD, Comp::MMinusD)
        .push(Instr::At(end_comp_label(counter)))
        .push(branch(Comp::D, jump_if_false(kind)))
        .push(assign(Dest::D, Comp::DPlusOne))
        .push(Instr::Label(end_comp_label(counter)))
        .push(Instr::At("SP"@))
        .push(assign(Dest::A, Comp::MMinusOne))
        .push(assign(Dest::M, Comp::MMinusD))
}

/// Code that pushes the cell `n` places above the address held in `segment`.
pub open spec fn push_segment_code(segment: Seq<char>, n: nat) -> Seq<Instr> {
    Seq::empty()
        .push(Instr::At(decimal_text(n)))
        .push(assign(Dest::D, Comp::A))
        .push(Instr::At(segment))
        .push(assign(Dest::A, Comp::DPlusM))
        .push(assign(Dest::D, Comp::M))
        .push(Instr::At("SP"@))
        .push(assign(Dest::M, Comp::MPlusOne))
        .push(assign(Dest::A, Comp::MMinusOne))
        .push(assign(Dest::M, Comp::D))
}

/// Code that pops into the cell `n` places above the address held in
/// `segment`.  The target address is computed first; while the value is
/// popped, `D` holds their sum, from which both are recovered.
pub open spec fn pop_segment_code(segment: Seq<char>, n: nat) -> Seq<Instr> {
    Seq::empty()
        .push(Instr::At(decimal_text(n)))
        .push(assign(Dest::D, Comp::A))
        .push(Instr::At(segment))
        .push(assign(Dest::D, Comp::DPlusM))
        .push(Instr::At("SP"@))
        .push(assign(Dest::AM, Comp::MMinusOne))
        .push(assign(Dest::D, Comp::DPlusM))
        .push(assign(Dest::A, Comp::DMinusM))
        .push(assign(Dest::M, Comp::DMinusA))
}

/// Code that pushes what `var` stands for: the address itself where
/// `use_a_over_m` is set, the cell at that address where it is not.
pub open spec fn push_value_code(var: Seq<char>, use_a_over_m: bool) -> Seq<Instr> {
    Seq::empty()
        .push(Instr::At(var))
        .push(assign(Dest::D, if use_a_over_m { Comp::A } else { Comp::M }))
        .push(Instr::At("SP"@))
        .push(assign(Dest::M, Comp::MPlusOne))
        .push(assign(Dest::A, Comp::MMinusOne))
        .push(assign(Dest::M, Comp::D))
}

/// Code that pops into the cell that `var` stands for.
pub open spec fn pop_value_code(var: Seq<char>) -> Seq<Instr> {
    Seq::empty()
        .push(Instr::At("SP"@))
        .push(assign(Dest::AM, Comp::MMinusOne))
        .push(assign(Dest::D, Comp::M))
        .push(Instr::At(var))
        .push(assign(Dest::M, Comp::D))
}

/// Code that marks a place.
pub open spec fn def_label_code(label: Seq<char>) -> Seq<Instr> {
    Seq::empty()
        .push(Instr::Label(label))
}

/// Code that jumps to `label`.
pub open spec fn goto_code(label: Seq<char>) -> Seq<Instr> {
    Seq::empty()
        .push(Instr::At(label))
        .push(branch(Comp::Zero, Jump::JMP))
}

/// Code that pops the top of the stack and jumps to `label` unless it is
/// zero.
pub open spec fn if_goto_code(label: Seq<char>) -> Seq<Instr> {
    Seq::empty()
        .push(Instr::At("SP"@))
        .push(assign(Dest::AM, Comp::MMinusOne))
        .push(assign(Dest::D, Comp::M))
        .push(Instr::At(label))
        .push(branch(Comp::D, Jump::JNE))
}

/// The label at the head of the loop that clears a function's locals.  A
/// label of the function itself has one `$` behind the function's name,
/// this one has two.
pub open spec fn local_loop_label(fn_name: Seq<char>) -> Seq<char> {
    fn_name + "$$LocalLoop"@
}

/// The label behind that loop.
pub open spec fn local_loop_end_label(fn_name: Seq<char>) -> Seq<char> {
    fn_name + "$$LocalLoopEnd"@
}

/// Code at the entry of a function: pushes `n_vars` zeros.  `D` counts
/// the zeros that are left to push; with none the loop is left before it
/// has stored anything.
pub open spec fn func_code(fn_name: Seq<char>, n_vars: nat) -> Seq<Instr> {
    Seq::empty()
        .push(Instr::Label(fn_name))
        .push(Instr::At(decimal_text(n_vars)))
        .push(assign(Dest::D, Comp::A))
        .push(Instr::Label(local_loop_label(fn_name)))
        .push(Instr::At(local_loop_end_label(fn_name)))
        .push(branch(Comp::D, Jump::JEQ))
        .push(Instr::At("SP"@))
        .push(assign(Dest::M, Comp::MPlusOne))
        .push(assign(Dest::A, Comp::MMinusOne))
        .push(assign(Dest::M, Comp::Zero))
        .push(assign(Dest::D, Comp::DMinusOne))
        .push(Instr::At(local_loop_label(fn_name)))
        .push(branch(Comp::Zero, Jump::JMP))
        .push(Instr::Label(local_loop_end_label(fn_name)))
}

/// The end of a call: sets `ARG` to `SP - 5 - n_args` and `LCL` to `SP`,
/// jumps to `function`, and marks the place to come back to.
pub open spec fn call_tail_code(
    function: Seq<char>,
    n_args: nat,
    return_label: Seq<char>,
) -> Seq<Instr> {
    Seq::empty()
        .push(Instr::At(decimal_text(n_args)))
        .push(assign(Dest::D, Comp::A))
        .push(Instr::At("5"@))
        .push(assign(Dest::D, Comp::DPlusA))
        .push(Instr::At("SP"@))
        .push(assign(Dest::D, Comp::MMinusD))
        .push(Instr::At("ARG"@))
        .push(assign(Dest::M, Comp::D))
        .push(Instr::At("SP"@))
        .push(assign(Dest::D, Comp::M))
        .push(Instr::At("LCL"@))
        .push(assign(Dest::M, Comp::D))
        .push(Instr::At(function))
        .push(branch(Comp::Zero, Jump::JMP))
        .push(Instr::Label(return_label))
}

/// Code for a call: pushes the return address and the caller's `LCL`,
/// `ARG`, `THIS` and `THAT`, and goes on as `call_tail_code` says.
pub open spec fn call_func_code(
    function: Seq<char>,
    n_args: nat,
    return_label: Seq<char>,
) -> Seq<Instr> {
    push_value_code(return_label, true)
        + push_value_code("LCL"@, false)
        + push_value_code("ARG"@, false)
        + push_value_code("THIS"@, false)
        + push_value_code("THAT"@, false)
        + call_tail_code(function, n_args, return_label)
}

/// The label of the one return routine of a program.
pub open spec fn shared_return_label() -> Seq<char> {
    "$$RETURN"@
}

/// Code of a return that uses the routine emitted earlier.
pub open spec fn return_func_code() -> Seq<Instr> {
    Seq::empty()
        .push(Instr::At(shared_return_label()))
        .push(branch(Comp::Zero, Jump::JMP))
}

/// The start of the return routine: keeps the return address, found five
/// cells below `LCL`, in `R14`.
pub open spec fn return_save_address_code() -> Seq<Instr> {
    Seq::empty()
        .push(Instr::Label(shared_return_label()))
        .push(Instr::At("5"@))
        .push(assign(Dest::D, Comp::A))
        .push(Instr::At("LCL"@))
        .push(assign(Dest::A, Comp::MMinusD))
        .push(assign(Dest::D, Comp::M))
        .push(Instr::At("R14"@))
        .push(assign(Dest::M, Comp::D))
}

/// Stores the top of the stack where `ARG` points and sets `SP` just above
/// it.
pub open spec fn return_place_value_code() -> Seq<Instr> {
    Seq::empty()
        .push(Instr::At("SP"@))
        .push(assign(Dest::A, Comp::MMinusOne))
        .push(assign(Dest::D, Comp::M))
        .push(Instr::At("ARG"@))
        .push(assign(Dest::A, Comp::M))
        .push(assign(Dest::M, Comp::D))
        .push(assign(Dest::D, Comp::APlusOne))
        .push(Instr::At("SP"@))
        .push(assign(Dest::M, Comp::D))
}

/// Points `R13` at the cell below `LCL` and restores `THAT` from it.
pub open spec fn return_restore_that_code() -> Seq<Instr> {
    Seq::empty()
        .push(Instr::At("LCL"@))
        .push(assign(Dest::D, Comp::MMinusOne))
        .push(Instr::At("R13"@))
        .push(assign(Dest::AM, Comp::D))
        .push(assign(Dest::D, Comp::M))
        .push(Instr::At("THAT"@))
        .push(assign(Dest::M, Comp::D))
}

/// Moves `R13` one cell down and restores `pointer` from the cell it then
/// addresses.
pub open spec fn return_restore_code(pointer: Seq<char>) -> Seq<Instr> {
    Seq::empty()
        .push(Instr::At("R13"@))
        .push(assign(Dest::AM, Comp::MMinusOne))
        .push(assign(Dest::D, Comp::M))
        .push(Instr::At(pointer))
        .push(assign(Dest::M, Comp::D))
}

/// Jumps to the address kept in `R14`.
pub open spec fn return_jump_code() -> Seq<Instr> {
    Seq::empty()
        .push(Instr::At("R14"@))
        .push(assign(Dest::A, Comp::M))
        .push(branch(Comp::Zero, Jump::JMP))
}

/// The return routine, under the shared label.
pub open spec fn write_return_code() -> Seq<Instr> {
    return_save_address_code()
        + return_place_value_code()
        + return_restore_that_code()
        + return_restore_code("THIS"@)
        + return_restore_code("ARG"@)
        + return_restore_code("LCL"@)
        + return_jump_code()
}

/// What the code generator carries from one command to the next.
pub struct GenState {
    /// The name of the source file being read; `static` cells are named
    /// after it.
    pub file: Seq<char>,
    /// The name of the function being read; labels are qualified by it.
    pub function: Seq<char>,
    /// How many comparisons have been generated.
    pub comparisons: nat,
    /// How many calls have been generated.
    pub calls: nat,
    /// Whether the return routine has been generated.
    pub return_emitted: bool,
}

/// The state of a generator that has seen no command.
pub open spec fn initial_state(filename: Seq<char>) -> GenState {
    GenState {
        file: filename,
        function: "$"@ + filename + "$"@,
        comparisons: 0,
        calls: 0,
        return_emitted: false,
    }
}

/// The symbol of cell `n` of the `static` segment of `file`.
pub open spec fn static_symbol(file: Seq<char>, n: nat) -> Seq<char> {
    file + "."@ + decimal_text(n)
}

/// The symbol behind `pointer n`: `THIS` for zero, `THAT` otherwise.
pub open spec fn pointer_symbol(n: u16) -> Seq<char> {
    if n == 0 {
        "THIS"@
    } else {
        "THAT"@
    }
}

/// The address of cell `n` of the `temp` segment, which starts at 5.
pub open spec fn temp_symbol(n: u16) -> Seq<char> {
    decimal_text(n as nat + 5)
}

/// The symbol that holds the base address of an indirect segment.
pub open spec fn base_symbol(segment: MemSegment) -> Seq<char>
    recommends
        segment == MemSegment::Argument || segment == MemSegment::Local || segment
            == MemSegment::This || segment == MemSegment::That,
{
    match segment {
        MemSegment::Argument => "ARG"@,
        MemSegment::Local => "LCL"@,
        MemSegment::This => "THIS"@,
        _ => "THAT"@,
    }
}

/// A label of the source program, qualified by the function it stands in.
pub open spec fn qualified_label(function: Seq<char>, name: Seq<char>) -> Seq<char> {
    function + "$"@ + name
}

/// The label behind the call numbered `calls`, generated while reading
/// `file`.  With its second `$` it is no label of a function named like
/// the file.
pub open spec fn return_label(file: Seq<char>, calls: nat) -> Seq<char> {
    file + "$ret$"@ + decimal_text(calls)
}

/// Code for `push segment n`, generated while reading `file`.
pub open spec fn push_code(file: Seq<char>, segment: MemSegment, n: u16) -> Seq<Instr> {
    match segment {
        MemSegment::Static => push_value_code(static_symbol(file, n as nat), false),
        MemSegment::Pointer => push_value_code(pointer_symbol(n), false),
        MemSegment::Temp => push_value_code(temp_symbol(n), false),
        MemSegment::Constant => push_value_code(decimal_text(n as nat), true),
        _ => push_segment_code(base_symbol(segment), n as nat),
    }
}

/// Code for `pop segment n`, generated while reading `file`.  There is none
/// for `Constant`.
pub open spec fn pop_code(file: Seq<char>, segment: MemSegment, n: u16) -> Seq<Instr> {
    match segment {
        MemSegment::Static => pop_value_code(static_symbol(file, n as nat)),
        MemSegment::Pointer => pop_value_code(pointer_symbol(n)),
        MemSegment::Temp => pop_value_code(temp_symbol(n)),
        MemSegment::Constant => Seq::empty(),
        _ => pop_segment_code(base_symbol(segment), n as nat),
    }
}

/// The code of one command, generated in state `st`.
pub open spec fn command_code(st: GenState, command: Command) -> Seq<Instr> {
    match command {
        Command::Add => arithmetic_two_args_code(Dest::M, Comp::DPlusM),
        Command::Sub => arithmetic_two_args_code(Dest::M, Comp::MMinusD),
        Command::Neg => arithmetic_one_arg_code(Comp::NegM),
        Command::Compare(kind) => comparison_code(kind, st.comparisons),
        Command::And => arithmetic_two_args_code(Dest::M, Comp::DAndM),
        Command::Or => arithmetic_two_args_code(Dest::M, Comp::DOrM),
        Command::Not => arithmetic_one_arg_code(Comp::NotM),
        Command::Push(segment, n) => push_code(st.file, segment, n),
        Command::Pop(segment, n) => pop_code(st.file, segment, n),
        Command::Label(name) => def_label_code(qualified_label(st.function, name)),
        Command::Goto(name) => goto_code(qualified_label(st.function, name)),
        Command::IfGoto(name) => if_goto_code(qualified_label(st.function, name)),
        Command::Function(name, n_vars) => func_code(name, n_vars as nat),
        Command::Call(name, n_args) => call_func_code(
            name,
            n_args as nat,
            return_label(st.file, st.calls),
        ),
        Command::Return => if st.return_emitted {
            return_func_code()
        } else {
            write_return_code()
        },
    }
}

/// The state after one command was generated in state `st`.
pub open spec fn next_state(st: GenState, command: Command) -> GenState {
    match command {
        Command::Compare(_) => GenState { comparisons: st.comparisons + 1, ..st },
        Command::Function(name, _) => GenState { function: name, ..st },
        Command::Call(_, _) => GenState { calls: st.calls + 1, ..st },
        Command::Return => GenState { return_emitted: true, ..st },
        _ => st,
    }
}

/// What one command adds to the listing: its code, below a comment that
/// repeats the command where `comment` is set.
pub open spec fn emitted_code(st: GenState, command: Command, comment: bool) -> Seq<Instr> {
    if comment {
        Seq::empty().push(Instr::Comment(command.text())) + command_code(st, command)
    } else {
        command_code(st, command)
    }
}

/// Code that sets the stack pointer to 256, where the stack starts.
pub open spec fn stack_setup_code() -> Seq<Instr> {
    Seq::empty()
        .push(Instr::Comment("bootstrap code"@))
        .push(Instr::At("256"@))
        .push(assign(Dest::D, Comp::A))
        .push(Instr::At("SP"@))
        .push(assign(Dest::M, Comp::D))
        .push(Instr::Comment("call sys_init"@))
}

/// The label behind the call of `Sys.init` in the bootstrap code.
pub open spec fn bootstrap_return_label() -> Seq<char> {
    "$$BOOTSTRAP"@
}

/// The code in front of a whole program: sets up the stack and calls
/// `Sys.init` without arguments.
pub open spec fn bootstrap_code() -> Seq<Instr> {
    stack_setup_code() + call_func_code("Sys.init"@, 0, bootstrap_return_label())
}

/// The texts of `parts`, end to end.
pub open spec fn join(parts: Seq<String>) -> Seq<char>
    decreases parts.len(),
{
    if parts.len() == 0 {
        Seq::empty()
    } else {
        join(parts.drop_last()) + parts.last()@
    }
}

/// The text of the code for `neg` and `not`.
pub fn arithmetic_one_arg(comp: Comp) -> (text: String)
    ensures
        text@ == render(arithmetic_one_arg_code(comp)),
{
    let mut e = Emitter::new();
    e.at("SP");
    e.assign(Dest::A, Comp::MMinusOne);
    e.assign(Dest::M, comp);
    e.finish()
}

/// The text of the code for a binary operation.
pub fn arithmetic_two_args(dest: Dest, comp: Comp) -> (text: String)
    ensures
        text@ == render(arithmetic_two_args_code(dest, comp)),
{
    let mut e = Emitter::new();
    e.at("SP");
    e.assign(Dest::AM, Comp::MMinusOne);
    e.assign(Dest::D, Comp::M);
    e.assign(Dest::A, Comp::AMinusOne);
    e.assign(dest, comp);
    e.finish()
}

/// The text of the code for the comparison numbered `counter`.
pub fn comparison(kind: Comparison, counter: usize) -> (text: String)
    ensures
        text@ == render(comparison_code(kind, counter as nat)),
{
    let jump = match kind {
        Comparison::Eq => Jump::JNE,
        Comparison::GT => Jump::JLE,
        Comparison::LT => Jump::JGE,
    };
    let mut label = String::from_str("$$END_COMP");
    label.append(decimal(counter as u64).as_str());
    let head = arithmetic_two_args(Dest::MD, Comp::MMinusD);
    let mut e = Emitter::resume(head, Ghost(arithmetic_two_args_code(Dest::MD, Comp::MMinusD)));
    e.at(label.as_str());
    e.branch(Comp::D, jump);
    e.assign(Dest::D, Comp::DPlusOne);
    e.label(label.as_str());
    e.at("SP");
    e.assign(Dest::A, Comp::MMinusOne);
    e.assign(Dest::M, Comp::MMinusD);
    e.finish()
}

/// The text of the code that pushes cell `n` of the segment whose base
/// `segment` holds.
pub fn push_segment(segment: &str, n: u16) -> (text: String)
    ensures
        text@ == render(push_segment_code(segment@, n as nat)),
{
    let mut e = Emitter::new();
    e.at(decimal(n as u64).as_str());
    e.assign(Dest::D, Comp::A);
    e.at(segment);
    e.assign(Dest::A, Comp::DPlusM);
    e.assign(Dest::D, Comp::M);
    e.at("SP");
    e.assign(Dest::M, Comp::MPlusOne);
    e.assign(Dest::A, Comp::MMinusOne);
    e.assign(Dest::M, Comp::D);
    e.finish()
}

/// The text of the code that pops into cell `n` of the segment whose base
/// `segment` holds.
pub fn pop_segment(segment: &str, n: u16) -> (text: String)
    ensures
        text@ == render(pop_segment_code(segment@, n as nat)),
{
    let mut e = Emitter::new();
    e.at(decimal(n as u64).as_str());
    e.assign(Dest::D, Comp::A);
    e.at(segment);
    e.assign(Dest::D, Comp::DPlusM);
    e.at("SP");
    e.assign(Dest::AM, Comp::MMinusOne);
    e.assign(Dest::D, Comp::DPlusM);
    e.assign(Dest::A, Comp::DMinusM);
    e.assign(Dest::M, Comp::DMinusA);
    e.finish()
}

/// The text of the code that pushes what `var` stands for, or the cell
/// there.
pub fn push_value(var: &str, use_a_over_m: bool) -> (text: String)
    ensures
        text@ == render(push_value_code(var@, use_a_over_m)),
{
    let mut e = Emitter::new();
    e.at(var);
    e.assign(
        Dest::D,
        if use_a_over_m {
            Comp::A
        } else {
            Comp::M
        },
    );
    e.at("SP");
    e.assign(Dest::M, Comp::MPlusOne);
    e.assign(Dest::A, Comp::MMinusOne);
    e.assign(Dest::M, Comp::D);
    e.finish()
}

/// The text of the code that pops into the cell that `var` stands for.
pub fn pop_value(var: &str) -> (text: String)
    ensures
        text@ == render(pop_value_code(var@)),
{
    let mut e = Emitter::new();
    e.at("SP");
    e.assign(Dest::AM, Comp::MMinusOne);
    e.assign(Dest::D, Comp::M);
    e.at(var);
    e.assign(Dest::M, Comp::D);
    e.finish()
}

/// The text of a label line.
pub fn def_label(label: String) -> (text: String)
    ensures
        text@ == render(def_label_code(label@)),
{
    let mut e = Emitter::new();
    e.label(label.as_str());
    e.finish()
}

/// The text of the code that jumps to `label`.
pub fn goto(label: String) -> (text: String)
    ensures
        text@ == render(goto_code(label@)),
{
    let mut e = Emitter::new();
    e.at(label.as_str());
    e.branch(Comp::Zero, Jump::JMP);
    e.finish()
}

/// The text of the code that pops a value and jumps to `label` unless it
/// is zero.
pub fn if_goto(label: String) -> (text: String)
    ensures
        text@ == render(if_goto_code(label@)),
{
    let mut e = Emitter::new();
    e.at("SP");
    e.assign(Dest::AM, Comp::MMinusOne);
    e.assign(Dest::D, Comp::M);
    e.at(label.as_str());
    e.branch(Comp::D, Jump::JNE);
    e.finish()
}

/// The text of the code at the entry of a function with `n_vars` locals.
pub fn func(fn_name: &str, n_vars: u16) -> (text: String)
    ensures
        text@ == render(func_code(fn_name@, n_vars as nat)),
{
    let mut head = String::from_str(fn_name);
    head.append("$$LocalLoop");
    let mut end = String::from_str(fn_name);
    end.append("$$LocalLoopEnd");
    let mut e = Emitter::new();
    e.label(fn_name);
    e.at(decimal(n_vars as u64).as_str());
    e.assign(Dest::D, Comp::A);
    e.label(head.as_str());
    e.at(end.as_str());
    e.branch(Comp::D, Jump::JEQ);
    e.at("SP");
    e.assign(Dest::M, Comp::MPlusOne);
    e.assign(Dest::A, Comp::MMinusOne);
    e.assign(Dest::M, Comp::Zero);
    e.assign(Dest::D, Comp::DMinusOne);
    e.at(head.as_str());
    e.branch(Comp::Zero, Jump::JMP);
    e.label(end.as_str());
    e.finish()
}

/// The text of the end of a call.
fn call_tail(function: &str, n_args: u16, return_label: &str) -> (text: String)
    ensures
        text@ == render(call_tail_code(function@, n_args as nat, return_label@)),
{
    let mut e = Emitter::new();
    e.at(decimal(n_args as u64).as_str());
    e.assign(Dest::D, Comp::A);
    e.at("5");
    e.assign(Dest::D, Comp::DPlusA);
    e.at("SP");
    e.assign(Dest::D, Comp::MMinusD);
    e.at("ARG");
    e.assign(Dest::M, Comp::D);
    e.at("SP");
    e.assign(Dest::D, Comp::M);
    e.at("LCL");
    e.assign(Dest::M, Comp::D);
    e.at(function);
    e.branch(Comp::Zero, Jump::JMP);
    e.label(return_label);
    e.finish()
}

/// The text of the code for a call that comes back to `return_label`.
pub fn call_func(function: &str, n_args: u16, return_label: String) -> (text: String)
    ensures
        text@ == render(call_func_code(function@, n_args as nat, return_label@)),
{
    let saved_return_addr = push_value(return_label.as_str(), true);
    let saved_lcl = push_value("LCL", false);
    let saved_arg = push_value("ARG", false);
    let saved_this = push_value("THIS", false);
    let saved_that = push_value("THAT", false);
    let tail = call_tail(function, n_args, return_label.as_str());
    let mut e = Emitter::resume(saved_return_addr, Ghost(push_value_code(return_label@, true)));
    e.extend(saved_lcl.as_str(), Ghost(push_value_code("LCL"@, false)));
    e.extend(saved_arg.as_str(), Ghost(push_value_code("ARG"@, false)));
    e.extend(saved_this.as_str(), Ghost(push_value_code("THIS"@, false)));
    e.extend(saved_that.as_str(), Ghost(push_value_code("THAT"@, false)));
    e.extend(tail.as_str(), Ghost(call_tail_code(function@, n_args as nat, return_label@)));
    e.finish()
}

/// The text of a return that uses the return routine.
pub fn return_func() -> (text: String)
    ensures
        text@ == render(return_func_code()),
{
    let mut e = Emitter::new();
    e.at("$$RETURN");
    e.branch(Comp::Zero, Jump::JMP);
    e.finish()
}

/// Adds the code that restores `pointer` from the next cell of the frame.
fn return_restore(e: &mut Emitter, pointer: &str)
    requires
        old(e).wf(),
    ensures
        final(e).wf(),
        final(e).code() == old(e).code() + return_restore_code(pointer@),
{
    e.at("R13");
    e.assign(Dest::AM, Comp::MMinusOne);
    e.assign(Dest::D, Comp::M);
    e.at(pointer);
    e.assign(Dest::M, Comp::D);
    assert(e.code() =~= old(e).code() + return_restore_code(pointer@));
}

/// The text of the return routine.
pub fn write_return() -> (text: String)
    ensures
        text@ == render(write_return_code()),
{
    let mut e = Emitter::new();
    e.label("$$RETURN");
    e.at("5");
    e.assign(Dest::D, Comp::A);
    e.at("LCL");
    e.assign(Dest::A, Comp::MMinusD);
    e.assign(Dest::D, Comp::M);
    e.at("R14");
    e.assign(Dest::M, Comp::D);
    let ghost saved = e.code();
    e.at("SP");
    e.assign(Dest::A, Comp::MMinusOne);
    e.assign(Dest::D, Comp::M);
    e.at("ARG");
    e.assign(Dest::A, Comp::M);
    e.assign(Dest::M, Comp::D);
    e.assign(Dest::D, Comp::APlusOne);
    e.at("SP");
    e.assign(Dest::M, Comp::D);
    assert(e.code() =~= saved + return_place_value_code());
    let ghost placed = e.code();
    e.at("LCL");
    e.assign(Dest::D, Comp::MMinusOne);
    e.at("R13");
    e.assign(Dest::AM, Comp::D);
    e.assign(Dest::D, Comp::M);
    e.at("THAT");
    e.assign(Dest::M, Comp::D);
    assert(e.code() =~= placed + return_restore_that_code());
    return_restore(&mut e, "THIS");
    return_restore(&mut e, "ARG");
    return_restore(&mut e, "LCL");
    let ghost restored = e.code();
    e.at("R14");
    e.assign(Dest::A, Comp::M);
    e.branch(Comp::Zero, Jump::JMP);
    assert(e.code() =~= restored + return_jump_code());
    e.finish()
}

/// Behind one more command the state is the state after the longer
/// program, and the text is the text of the longer program.
proof fn lemma_command_written(
    first: GenState,
    log: Seq<Step>,
    st: GenState,
    command: Command,
    comment: bool,
    out: Seq<char>,
    pending: Seq<char>,
    added: Seq<char>,
)
    requires
        st == state_after(first, log),
        out + pending == render(program_code(first, log)),
        added == render(emitted_code(st, command, comment)),
    ensures
        next_state(st, command) == state_after(first, with_command(log, command, comment)),
        out + (pending + added) == render(
            program_code(first, with_command(log, command, comment)),
        ),
{
    let echo = Step::Comment(command.text());
    assert(out + (pending + added) =~= out + pending + added);
    if comment {
        lemma_push_step(first, log, echo);
        lemma_push_step(first, log.push(echo), Step::Command(command));
        lemma_render_concat(
            Seq::empty().push(Instr::Comment(command.text())),
            command_code(st, command),
        );
        let a = render(program_code(first, log));
        let b = render(Seq::empty().push(Instr::Comment(command.text())));
        let c = render(command_code(st, command));
        assert(a + (b + c) =~= a + b + c);
    } else {
        lemma_push_step(first, log, Step::Command(command));
    }
}

/// Generates the assembly text of a program, command by command.
///
/// The text gathers in the writer until `flush` hands it out.  The two
/// counters run through the whole program: turning to another file does not
/// set them back.  The writer keeps a record of its steps, which costs
/// nothing at run time: all that it has written is the text of the program
/// of those steps (`lemma_written`), so what holds of such programs holds
/// of its output.
pub struct CodeWriter {
    filename: String,
    curr_func: String,
    comp_count: usize,
    call_count: usize,
    return_written: bool,
    /// One entry for each step, in order.  An entry holds the text of its
    /// step until that is handed out, and stays when the text is gone: so
    /// there are always at least as many entries as comparisons and calls
    /// together, and the counters cannot overflow.
    fragments: Vec<String>,
    /// How many of `fragments` were handed out.
    flushed: usize,
    /// The file that the writer was made for.
    root: Ghost<Seq<char>>,
    /// The steps that the writer has taken.
    log: Ghost<Seq<Step>>,
    /// The text that the writer has handed out.
    out: Ghost<Seq<char>>,
}

impl CodeWriter {
    /// The counters are bounded by the number of fragments.
    spec fn counts_ok(&self) -> bool {
        &&& self.comp_count + self.call_count <= self.fragments@.len()
        &&& self.flushed <= self.fragments@.len()
    }

    /// The counters are in bounds, the state is the state after the steps
    /// taken, and the text handed out and the pending text together are
    /// the text of the program of those steps.
    pub closed spec fn wf(&self) -> bool {
        &&& self.counts_ok()
        &&& self.state() == state_after(initial_state(self.root@), self.log@)
        &&& self.out@ + self.pending() == render(
            program_code(initial_state(self.root@), self.log@),
        )
    }

    /// The file that the writer was made for.
    pub closed spec fn root(&self) -> Seq<char> {
        self.root@
    }

    /// The steps that the writer has taken since it was made.
    pub closed spec fn steps(&self) -> Seq<Step> {
        self.log@
    }

    /// The text that `flush` has handed out so far.
    pub closed spec fn handed_out(&self) -> Seq<char> {
        self.out@
    }

    /// What a writer has written is the program of its steps: its state is
    /// the state after them, and all its text, handed out or pending, is
    /// the text of their listing.
    pub proof fn lemma_written(&self)
        requires
            self.wf(),
        ensures
            self.state() == state_after(initial_state(self.root()), self.steps()),
            self.handed_out() + self.pending() == render(
                program_code(initial_state(self.root()), self.steps()),
            ),
    {
    }

    /// The state that the next command is generated in.
    pub closed spec fn state(&self) -> GenState {
        GenState {
            file: self.filename@,
            function: self.curr_func@,
            comparisons: self.comp_count as nat,
            calls: self.call_count as nat,
            return_emitted: self.return_written,
        }
    }

    /// The text generated since the last `flush`.
    pub closed spec fn pending(&self) -> Seq<char> {
        join(self.fragments@.subrange(self.flushed as int, self.fragments@.len() as int))
    }

    /// A writer in its initial state.  With `bootstrap` the text starts
    /// with the code that sets up the stack and calls `Sys.init`.
    pub fn new(filename: &str, bootstrap: bool) -> (w: Self)
        ensures
            w.wf(),
            w.state() == initial_state(filename@),
            w.pending() == if bootstrap {
                render(bootstrap_code())
            } else {
                Seq::empty()
            },
            w.root() == filename@,
            w.steps() == if bootstrap {
                Seq::empty().push(Step::Bootstrap)
            } else {
                Seq::empty()
            },
            w.handed_out() == Seq::<char>::empty(),
    {
        let ghost none = Seq::<Step>::empty();
        proof {
            lemma_push_step(initial_state(filename@), none, Step::Bootstrap);
            assert(render(program_code(initial_state(filename@), none)) =~= Seq::<char>::empty());
        }
        let mut fragments: Vec<String> = Vec::new();
        if bootstrap {
            let call_sys_init = call_func(
                "Sys.init",
                0,
                String::from_str("$$BOOTSTRAP"),
            );
            let mut e = Emitter::new();
            e.comment("bootstrap code");
            e.at("256");
            e.assign(Dest::D, Comp::A);
            e.at("SP");
            e.assign(Dest::M, Comp::D);
            e.comment("call sys_init");
            e.extend(
                call_sys_init.as_str(),
                Ghost(call_func_code("Sys.init"@, 0, bootstrap_return_label())),
            );
            let text = e.finish();
            fragments.push(text);
            assert(fragments@.subrange(0, 1) =~= fragments@);
            assert(fragments@.drop_last() =~= Seq::<String>::empty());
            assert(join(Seq::<String>::empty()) =~= Seq::<char>::empty());
            assert(join(fragments@) =~= text@);
        } else {
            assert(fragments@.subrange(0, 0) =~= Seq::<String>::empty());
        }
        let mut curr_func = String::from_str("$");
        curr_func.append(filename);
        curr_func.append("$");
        CodeWriter {
            filename: String::from_str(filename),
            curr_func,
            comp_count: 0,
            call_count: 0,
            return_written: false,
            fragments,
            flushed: 0,
            root: Ghost(filename@),
            log: Ghost(
                if bootstrap {
                    none.push(Step::Bootstrap)
                } else {
                    none
                },
            ),
            out: Ghost(Seq::empty()),
        }
    }

    /// Names the source file that the next commands come from.
    pub fn set_file_name(&mut self, filename: &str)
        requires
            old(self).wf(),
        ensures
            final(self).wf(),
            final(self).state() == (GenState { file: filename@, ..old(self).state() }),
            final(self).pending() == old(self).pending(),
            final(self).root() == old(self).root(),
            final(self).steps() == old(self).steps().push(Step::File(filename@)),
            final(self).handed_out() == old(self).handed_out(),
    {
        self.filename = String::from_str(filename);
        proof {
            lemma_push_step(initial_state(self.root@), self.log@, Step::File(filename@));
            self.log@ = self.log@.push(Step::File(filename@));
            assert(self.out@ + self.pending() =~= old(self).out@ + old(self).pending()
                + Seq::<char>::empty());
        }
    }

    /// Hands out the text generated since the last call.
    pub fn flush(&mut self) -> (text: String)
        requires
            old(self).wf(),
        ensures
            final(self).wf(),
            final(self).state() == old(self).state(),
            text@ == old(self).pending(),
            final(self).pending() == Seq::<char>::empty(),
            final(self).root() == old(self).root(),
            final(self).steps() == old(self).steps(),
            final(self).handed_out() == old(self).handed_out() + text@,
    {
        let mut text = String::new();
        let mut i: usize = self.flushed;
        let n: usize = self.fragments.len();
        let ghost before = self.fragments@;
        assert(before.subrange(i as int, i as int) =~= Seq::<String>::empty());
        while i < n
            invariant
                self.flushed <= i <= n,
                self.flushed == old(self).flushed,
                self.state() == old(self).state(),
                self.root@ == old(self).root@,
                self.log@ == old(self).log@,
                self.out@ == old(self).out@,
                self.comp_count + self.call_count <= n,
                n == self.fragments@.len(),
                n == before.len(),
                forall|k: int| i <= k < n ==> self.fragments@[k] == before[k],
                text@ == join(before.subrange(self.flushed as int, i as int)),
            decreases n - i,
        {
            text.append(self.fragments[i].as_str());
            proof {
                let wider = before.subrange(self.flushed as int, i + 1);
                assert(wider.drop_last() =~= before.subrange(self.flushed as int, i as int));
            }
            self.fragments.set(i, String::new());
            i = i + 1;
        }
        self.flushed = n;
        assert(self.fragments@.subrange(n as int, n as int) =~= Seq::<String>::empty());
        proof {
            self.out@ = self.out@ + text@;
            assert(self.out@ + self.pending() =~= old(self).out@ + old(self).pending());
        }
        text
    }

    /// Adds `text` to the record of fragments.
    fn append(&mut self, text: String)
        requires
            old(self).counts_ok(),
        ensures
            final(self).counts_ok(),
            final(self).state() == old(self).state(),
            final(self).root@ == old(self).root@,
            final(self).log@ == old(self).log@,
            final(self).out@ == old(self).out@,
            final(self).pending() == old(self).pending() + text@,
            final(self).comp_count + final(self).call_count < final(self).fragments@.len()
                <= usize::MAX,
    {
        self.fragments.push(text);
        proof {
            let len = self.fragments@.len() as int;
            assert(self.fragments.len() <= usize::MAX);
            assert(self.fragments@.subrange(self.flushed as int, len).drop_last()
                =~= old(self).fragments@.subrange(self.flushed as int, len - 1));
        }
    }

    /// Adds a comment line.
    pub fn comment(&mut self, comment: &str)
        requires
            old(self).wf(),
        ensures
            final(self).wf(),
            final(self).state() == old(self).state(),
            final(self).pending() == old(self).pending() + render(
                Seq::empty().push(Instr::Comment(comment@)),
            ),
            final(self).root() == old(self).root(),
            final(self).steps() == old(self).steps().push(Step::Comment(comment@)),
            final(self).handed_out() == old(self).handed_out(),
    {
        let mut e = Emitter::new();
        e.comment(comment);
        let text = e.finish();
        let ghost added = text@;
        self.append(text);
        proof {
            lemma_push_step(initial_state(self.root@), self.log@, Step::Comment(comment@));
            self.log@ = self.log@.push(Step::Comment(comment@));
            assert(self.out@ + self.pending() =~= old(self).out@ + old(self).pending() + added);
        }
    }

    /// The symbol of cell `n` of the current file's `static` segment.
    fn static_name(&self, n: u16) -> (name: String)
        ensures
            name@ == static_symbol(self.state().file, n as nat),
    {
        let mut name = self.filename.clone();
        name.append(".");
        name.append(decimal(n as u64).as_str());
        name
    }

    /// `name`, qualified by the current function.
    fn qualify(&self, name: &str) -> (label: String)
        ensures
            label@ == qualified_label(self.state().function, name@),
    {
        let mut label = self.curr_func.clone();
        label.append("$");
        label.append(name);
        label
    }

    /// The code of `command` in the current state.
    fn command_text(&self, command: VmCommand) -> (text: String)
        requires
            self.wf(),
            command@.well_formed(),
        ensures
            text@ == render(command_code(self.state(), command@)),
    {
        match command {
            VmCommand::Add => arithmetic_two_args(Dest::M, Comp::DPlusM),
            VmCommand::Sub => arithmetic_two_args(Dest::M, Comp::MMinusD),
            VmCommand::Neg => arithmetic_one_arg(Comp::NegM),
            VmCommand::Compare(kind) => comparison(kind, self.comp_count),
            VmCommand::And => arithmetic_two_args(Dest::M, Comp::DAndM),
            VmCommand::Or => arithmetic_two_args(Dest::M, Comp::DOrM),
            VmCommand::Not => arithmetic_one_arg(Comp::NotM),
            VmCommand::Push(segment, n) => match segment {
                MemSegment::Argument => push_segment("ARG", n),
                MemSegment::Local => push_segment("LCL", n),
                MemSegment::This => push_segment("THIS", n),
                MemSegment::That => push_segment("THAT", n),
                MemSegment::Static => push_value(self.static_name(n).as_str(), false),
                MemSegment::Pointer => push_value(
                    if n == 0 {
                        "THIS"
                    } else {
                        "THAT"
                    },
                    false,
                ),
                MemSegment::Temp => push_value(decimal(n as u64 + 5).as_str(), false),
                MemSegment::Constant => push_value(decimal(n as u64).as_str(), true),
            },
            VmCommand::Pop(segment, n) => match segment {
                MemSegment::Argument => pop_segment("ARG", n),
                MemSegment::Local => pop_segment("LCL", n),
                MemSegment::This => pop_segment("THIS", n),
                MemSegment::That => pop_segment("THAT", n),
                MemSegment::Static => pop_value(self.static_name(n).as_str()),
                MemSegment::Pointer => pop_value(
                    if n == 0 {
                        "THIS"
                    } else {
                        "THAT"
                    },
                ),
                MemSegment::Temp => pop_value(decimal(n as u64 + 5).as_str()),
                MemSegment::Constant => String::new(),
            },
            VmCommand::Label(name) => def_label(self.qualify(name)),
            VmCommand::Goto(name) => goto(self.qualify(name)),
            VmCommand::IfGoto(name) => if_goto(self.qualify(name)),
            VmCommand::Function(name, n_vars) => func(name, n_vars),
            VmCommand::Call(name, n_args) => {
                let mut return_label = self.filename.clone();
                return_label.append("$ret$");
                return_label.append(decimal(self.call_count as u64).as_str());
                call_func(name, n_args, return_label)
            },
            VmCommand::Return => if self.return_written {
                return_func()
            } else {
                write_return()
            },
        }
    }

    /// Generates the code of `command` and moves to the next state.  With
    /// `comment` the code stands below a comment line that repeats the
    /// command.
    pub fn generate_code(&mut self, command: VmCommand, comment: bool)
        requires
            old(self).wf(),
            command@.well_formed(),
        ensures
            final(self).wf(),
            final(self).state() == next_state(old(self).state(), command@),
            final(self).pending() == old(self).pending() + render(
                emitted_code(old(self).state(), command@, comment),
            ),
            final(self).root() == old(self).root(),
            final(self).steps() == with_command(old(self).steps(), command@, comment),
            final(self).handed_out() == old(self).handed_out(),
    {
        let code = self.command_text(command);
        let text = if comment {
            let mut e = Emitter::new();
            e.comment(command.to_string().as_str());
            e.extend(code.as_str(), Ghost(command_code(self.state(), command@)));
            e.finish()
        } else {
            code
        };
        let ghost added = text@;
        self.append(text);
        self.advance(&command);
        proof {
            lemma_command_written(
                initial_state(self.root@),
                self.log@,
                old(self).state(),
                command@,
                comment,
                self.out@,
                old(self).pending(),
                added,
            );
            self.log@ = with_command(self.log@, command@, comment);
        }
    }

    /// Moves to the state behind `command`.
    fn advance(&mut self, command: &VmCommand)
        requires
            old(self).counts_ok(),
            old(self).comp_count + old(self).call_count < old(self).fragments@.len()
                <= usize::MAX,
        ensures
            final(self).counts_ok(),
            final(self).state() == next_state(old(self).state(), command@),
            final(self).pending() == old(self).pending(),
            final(self).root@ == old(self).root@,
            final(self).log@ == old(self).log@,
            final(self).out@ == old(self).out@,
    {
        match *command {
            VmCommand::Compare(_) => {
                self.comp_count = self.comp_count + 1;
            },
            VmCommand::Function(name, _) => {
                self.curr_func = String::from_str(name);
            },
            VmCommand::Call(_, _) => {
                self.call_count = self.call_count + 1;
            },
            VmCommand::Return => {
                self.return_written = true;
            },
            _ => {},
        }
    }
}

} // verus!
