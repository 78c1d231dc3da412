//! The labels that the code of each step defines, and why no two of them
//! are the same in a program with plain names.
//!
//! A plain name holds no `$`.  The entry label of a function is its name.
//! Every other label has a front part without `$`, then `$`, then a rest
//! whose form tells where the label comes from: `$LocalLoop` and
//! `$LocalLoopEnd` behind a function, `$END_COMP` and a number or `$RETURN`
//! behind nothing, `ret$` and a number behind a file, a plain name behind
//! a function, and the file, `$$` and a plain name behind nothing for a
//! label in front of the first function.

use vstd::prelude::*;

use crate::assembly::Instr;
use crate::code_writer::{
    arithmetic_one_arg_code, arithmetic_two_args_code, bootstrap_return_label, call_func_code,
    call_tail_code, end_comp_label, goto_code, if_goto_code, local_loop_end_label, local_loop_label,
    pop_code, pop_segment_code, pop_value_code, push_code, push_segment_code, push_value_code,
    qualified_label, return_func_code, return_jump_code, return_label, return_place_value_code,
    return_restore_code, return_restore_that_code, return_save_address_code, shared_return_label,
    stack_setup_code, write_return_code, GenState,
};
use crate::decimal::{
    decimal_text, is_digit, is_numeral, lemma_decimal_text_injective, lemma_decimal_text_is_numeral,
};
use crate::machine::is_register;
use crate::program::{lemma_same_prefix, step_code, Step};
use crate::Command;

verus! {

/// The text holds no `$`.
pub open spec fn no_dollar(s: Seq<char>) -> bool {
    forall|i: int| 0 <= i < s.len() ==> #[trigger] s[i] != '$'
}

/// A text is split at its first `$` in one way only.
pub proof fn lemma_split_unique(a: Seq<char>, r: Seq<char>, b: Seq<char>, q: Seq<char>)
    requires
        no_dollar(a),
        no_dollar(b),
        a + "$"@ + r == b + "$"@ + q,
    ensures
        a == b,
        r == q,
{
    reveal_strlit("$");
    let s = a + "$"@ + r;
    let t = b + "$"@ + q;
    assert(s.len() == a.len() + 1 + r.len());
    assert(t.len() == b.len() + 1 + q.len());
    assert(s[a.len() as int] == '$');
    assert(t[b.len() as int] == '$');
    if a.len() < b.len() {
        assert(t[a.len() as int] == b[a.len() as int]);
    } else if b.len() < a.len() {
        assert(s[b.len() as int] == a[b.len() as int]);
    }
    assert forall|i: int| 0 <= i < a.len() implies a[i] == b[i] by {
        assert(s[i] == a[i]);
        assert(t[i] == b[i]);
    }
    assert(a =~= b);
    assert forall|i: int| 0 <= i < r.len() implies r[i] == q[i] by {
        assert(s[a.len() + 1 + i] == r[i]);
        assert(t[b.len() + 1 + i] == q[i]);
    }
    assert(r =~= q);
}

/// No line of the code is a label.
pub open spec fn label_free(code: Seq<Instr>) -> bool {
    forall|i: int| 0 <= i < code.len() ==> !(#[trigger] code[i] is Label)
}

/// The one label line of the code is the line `at`.
pub open spec fn one_label(code: Seq<Instr>, at: int, name: Seq<char>) -> bool {
    &&& 0 <= at < code.len()
    &&& code[at] == Instr::Label(name)
    &&& forall|i: int| 0 <= i < code.len() && i != at ==> !(#[trigger] code[i] is Label)
}

/// Code without labels behind code without labels.
pub proof fn lemma_label_free_concat(a: Seq<Instr>, b: Seq<Instr>)
    requires
        label_free(a),
        label_free(b),
    ensures
        label_free(a + b),
{
    assert forall|i: int| 0 <= i < (a + b).len() implies !(#[trigger] (a + b)[i] is Label) by {
        if i < a.len() {
            assert((a + b)[i] == a[i]);
        } else {
            assert((a + b)[i] == b[i - a.len()]);
        }
    }
}

/// Code with one label behind code without labels.
pub proof fn lemma_one_label_behind(a: Seq<Instr>, b: Seq<Instr>, at: int, name: Seq<char>)
    requires
        label_free(a),
        one_label(b, at, name),
    ensures
        one_label(a + b, a.len() + at, name),
{
    assert((a + b)[a.len() + at] == b[at]);
    assert forall|i: int| 0 <= i < (a + b).len() && i != a.len() + at implies !(#[trigger] (a
        + b)[i] is Label) by {
        if i < a.len() {
            assert((a + b)[i] == a[i]);
        } else {
            assert((a + b)[i] == b[i - a.len()]);
        }
    }
}

/// Code without labels behind code with one label.
pub proof fn lemma_one_label_in_front(a: Seq<Instr>, b: Seq<Instr>, at: int, name: Seq<char>)
    requires
        one_label(a, at, name),
        label_free(b),
    ensures
        one_label(a + b, at, name),
{
    assert((a + b)[at] == a[at]);
    assert forall|i: int| 0 <= i < (a + b).len() && i != at implies !(#[trigger] (a + b)[i]
        is Label) by {
        if i < a.len() {
            assert((a + b)[i] == a[i]);
        } else {
            assert((a + b)[i] == b[i - a.len()]);
        }
    }
}

/// The fragments that move values and compute hold no label.
pub proof fn lemma_label_free_fragments()
    ensures
        forall|c: crate::assembly::Comp| label_free(#[trigger] arithmetic_one_arg_code(c)),
        forall|d: crate::assembly::Dest, c: crate::assembly::Comp|
            label_free(#[trigger] arithmetic_two_args_code(d, c)),
        forall|v: Seq<char>, n: nat| label_free(#[trigger] push_segment_code(v, n)),
        forall|v: Seq<char>, n: nat| label_free(#[trigger] pop_segment_code(v, n)),
        forall|v: Seq<char>, b: bool| label_free(#[trigger] push_value_code(v, b)),
        forall|v: Seq<char>| label_free(#[trigger] pop_value_code(v)),
        forall|v: Seq<char>| label_free(#[trigger] goto_code(v)),
        forall|v: Seq<char>| label_free(#[trigger] if_goto_code(v)),
        label_free(return_func_code()),
{
}

/// The one label of the code of a call is the label to come back to, at
/// its end.
pub proof fn lemma_call_label(function: Seq<char>, n_args: nat, label: Seq<char>)
    ensures
        one_label(call_func_code(function, n_args, label), 44, label),
{
    lemma_label_free_fragments();
    let p0 = push_value_code(label, true);
    let p1 = push_value_code("LCL"@, false);
    let p2 = push_value_code("ARG"@, false);
    let p3 = push_value_code("THIS"@, false);
    let p4 = push_value_code("THAT"@, false);
    let tail = call_tail_code(function, n_args, label);
    lemma_label_free_concat(p0, p1);
    lemma_label_free_concat(p0 + p1, p2);
    lemma_label_free_concat(p0 + p1 + p2, p3);
    lemma_label_free_concat(p0 + p1 + p2 + p3, p4);
    assert(one_label(tail, 14, label));
    lemma_one_label_behind(p0 + p1 + p2 + p3 + p4, tail, 14, label);
}

/// The one label of the return routine is the shared label, at its head.
pub proof fn lemma_routine_label()
    ensures
        one_label(write_return_code(), 0, shared_return_label()),
{
    let c1 = return_save_address_code();
    let c2 = return_place_value_code();
    let c3 = return_restore_that_code();
    let c4 = return_restore_code("THIS"@);
    let c5 = return_restore_code("ARG"@);
    let c6 = return_restore_code("LCL"@);
    let c7 = return_jump_code();
    assert(one_label(c1, 0, shared_return_label()));
    assert(label_free(c2));
    assert(label_free(c3));
    assert(label_free(c4));
    assert(label_free(c5));
    assert(label_free(c6));
    assert(label_free(c7));
    lemma_one_label_in_front(c1, c2, 0, shared_return_label());
    lemma_one_label_in_front(c1 + c2, c3, 0, shared_return_label());
    lemma_one_label_in_front(c1 + c2 + c3, c4, 0, shared_return_label());
    lemma_one_label_in_front(c1 + c2 + c3 + c4, c5, 0, shared_return_label());
    lemma_one_label_in_front(c1 + c2 + c3 + c4 + c5, c6, 0, shared_return_label());
    lemma_one_label_in_front(c1 + c2 + c3 + c4 + c5 + c6, c7, 0, shared_return_label());
}

/// `name` is a label that the code of `step` defines when it is generated
/// in the state `st`.
pub open spec fn is_label_of(st: GenState, step: Step, name: Seq<char>) -> bool {
    match step {
        Step::Command(Command::Function(f, _)) => name == f || name == local_loop_label(f)
            || name == local_loop_end_label(f),
        Step::Command(Command::Compare(_)) => name == end_comp_label(st.comparisons),
        Step::Command(Command::Label(l)) => name == qualified_label(st.function, l),
        Step::Command(Command::Call(_, _)) => name == return_label(st.file, st.calls),
        Step::Command(Command::Return) => !st.return_emitted && name == shared_return_label(),
        Step::Bootstrap => name == bootstrap_return_label(),
        _ => false,
    }
}

/// Every label line in the code of a step holds a label of that step, and
/// no two lines of it hold the same label.
pub proof fn lemma_step_labels(st: GenState, step: Step)
    ensures
        forall|i: int|
            0 <= i < step_code(st, step).len() ==> (#[trigger] step_code(
                st,
                step,
            )[i] matches Instr::Label(name) ==> is_label_of(st, step, name)),
        forall|i: int, j: int|
            0 <= i < step_code(st, step).len() && 0 <= j < step_code(st, step).len()
                && #[trigger] step_code(st, step)[i] is Label && #[trigger] step_code(st, step)[j]
                == step_code(st, step)[i] ==> i == j,
{
    lemma_label_free_fragments();
    let code = step_code(st, step);
    match step {
        Step::File(_) => {},
        Step::Comment(_) => {
            assert(label_free(code));
        },
        Step::Bootstrap => {
            let call = call_func_code("Sys.init"@, 0, bootstrap_return_label());
            assert(label_free(stack_setup_code()));
            lemma_call_label("Sys.init"@, 0, bootstrap_return_label());
            lemma_one_label_behind(stack_setup_code(), call, 44, bootstrap_return_label());
        },
        Step::Command(command) => {
            match command {
                Command::Function(f, n) => {
                    reveal_strlit("$$LocalLoop");
                    reveal_strlit("$$LocalLoopEnd");
                    assert(local_loop_label(f).len() == f.len() + 11);
                    assert(local_loop_end_label(f).len() == f.len() + 14);
                    assert(code[0] == Instr::Label(f));
                    assert(code[3] == Instr::Label(local_loop_label(f)));
                    assert(code[13] == Instr::Label(local_loop_end_label(f)));
                    assert(forall|i: int|
                        0 <= i < code.len() && i != 0 && i != 3 && i != 13 ==> !(#[trigger] code[i]
                            is Label));
                },
                Command::Compare(kind) => {
                    assert(one_label(code, 8, end_comp_label(st.comparisons)));
                },
                Command::Label(l) => {
                    assert(one_label(code, 0, qualified_label(st.function, l)));
                },
                Command::Call(f, n) => {
                    lemma_call_label(f, n as nat, return_label(st.file, st.calls));
                },
                Command::Return => {
                    if !st.return_emitted {
                        lemma_routine_label();
                    }
                },
                Command::Push(segment, n) => {
                    assert(label_free(push_code(st.file, segment, n)));
                },
                Command::Pop(segment, n) => {
                    assert(label_free(pop_code(st.file, segment, n)));
                },
                _ => {
                    assert(label_free(code));
                },
            }
        },
    }
}

/// A name that a function can have: it holds no `$` and is neither a
/// numeral nor one of the machine's own symbols.
pub open spec fn function_name_ok(name: Seq<char>) -> bool {
    no_dollar(name) && !is_numeral(name) && !is_register(name)
}

/// The names that a step brings are plain.
pub open spec fn step_names_plain(step: Step) -> bool {
    match step {
        Step::File(name) => no_dollar(name),
        Step::Command(Command::Function(name, _)) => function_name_ok(name),
        Step::Command(Command::Label(name)) => no_dollar(name),
        _ => true,
    }
}

/// The name that stands for the current function while no function has
/// begun, in a program that starts with the file `root`.
pub open spec fn root_function(root: Seq<char>) -> Seq<char> {
    "$"@ + root + "$"@
}

/// The names in a state are plain: the file is, and so is the function,
/// unless none has begun.
pub open spec fn state_plain(st: GenState, root: Seq<char>) -> bool {
    &&& no_dollar(root)
    &&& no_dollar(st.file)
    &&& st.function == root_function(root) || no_dollar(st.function)
}

/// Where a label of a step comes from: 0 for the entry of a function, 1 and
/// 2 for the head and the end of its loop, 3 for the end of a comparison, 4
/// for the return routine, 5 for the place to come back to from a call, 6
/// for a label inside a function, 7 for a label in front of the first and
/// 8 for the label of the bootstrap code.
pub open spec fn kind_of(st: GenState, root: Seq<char>, step: Step, name: Seq<char>) -> int {
    match step {
        Step::Command(Command::Function(f, _)) => if name == f {
            0
        } else if name == local_loop_label(f) {
            1
        } else {
            2
        },
        Step::Command(Command::Compare(_)) => 3,
        Step::Command(Command::Return) => 4,
        Step::Command(Command::Call(_, _)) => 5,
        Step::Bootstrap => 8,
        _ => if st.function == root_function(root) {
            7
        } else {
            6
        },
    }
}

/// The part of a label in front of its first `$`.
pub open spec fn front_of(st: GenState, root: Seq<char>, step: Step) -> Seq<char> {
    match step {
        Step::Command(Command::Function(f, _)) => f,
        Step::Command(Command::Call(_, _)) => st.file,
        Step::Command(Command::Label(_)) => if st.function == root_function(root) {
            Seq::empty()
        } else {
            st.function
        },
        _ => Seq::empty(),
    }
}

/// The part of a label behind its first `$`.
pub open spec fn rest_of(st: GenState, root: Seq<char>, step: Step, name: Seq<char>) -> Seq<char> {
    match step {
        Step::Command(Command::Function(f, _)) => if name == local_loop_label(f) {
            "$LocalLoop"@
        } else {
            "$LocalLoopEnd"@
        },
        Step::Command(Command::Compare(_)) => "$END_COMP"@ + decimal_text(st.comparisons),
        Step::Command(Command::Return) => "$RETURN"@,
        Step::Bootstrap => "$BOOTSTRAP"@,
        Step::Command(Command::Call(_, _)) => "ret$"@ + decimal_text(st.calls),
        Step::Command(Command::Label(l)) => if st.function == root_function(root) {
            root + "$$"@ + l
        } else {
            l
        },
        _ => Seq::empty(),
    }
}

/// What the rest of a label of each kind looks like.
pub open spec fn rest_has_form(kind: int, root: Seq<char>, r: Seq<char>) -> bool {
    if 1 <= kind <= 4 || kind == 8 {
        &&& r.len() >= 2
        &&& r[0] == '$'
        &&& r[1] == if kind == 3 {
            'E'
        } else if kind == 4 {
            'R'
        } else if kind == 8 {
            'B'
        } else {
            'L'
        }
        &&& kind == 1 ==> r.len() == 10
        &&& kind == 2 ==> r.len() == 13
    } else if kind == 5 {
        r.len() >= 5 && r[0] == 'r' && r[3] == '$'
    } else if kind == 6 {
        no_dollar(r)
    } else {
        &&& r.len() >= root.len() + 2
        &&& r[root.len() as int] == '$'
        &&& r[root.len() as int + 1] == '$'
        &&& root.len() > 0 ==> r[0] != '$'
    }
}

/// A label of a step with plain names is the name of a function, or it is
/// a plain front part, `$`, and a rest of the form of its kind.
pub proof fn lemma_label_parts(st: GenState, root: Seq<char>, step: Step, name: Seq<char>)
    requires
        is_label_of(st, step, name),
        state_plain(st, root),
        step_names_plain(step),
    ensures
        0 <= kind_of(st, root, step, name) <= 8,
        kind_of(st, root, step, name) == 0 ==> function_name_ok(name),
        kind_of(st, root, step, name) != 0 ==> {
            &&& name == front_of(st, root, step) + "$"@ + rest_of(st, root, step, name)
            &&& no_dollar(front_of(st, root, step))
            &&& rest_has_form(
                kind_of(st, root, step, name),
                root,
                rest_of(st, root, step, name),
            )
        },
{
    reveal_strlit("$");
    reveal_strlit("$$");
    reveal_strlit("$$LocalLoop");
    reveal_strlit("$$LocalLoopEnd");
    reveal_strlit("$LocalLoop");
    reveal_strlit("$LocalLoopEnd");
    reveal_strlit("$$END_COMP");
    reveal_strlit("$END_COMP");
    reveal_strlit("$$RETURN");
    reveal_strlit("$RETURN");
    reveal_strlit("$ret$");
    reveal_strlit("ret$");
    reveal_strlit("$$BOOTSTRAP");
    reveal_strlit("$BOOTSTRAP");
    let front = front_of(st, root, step);
    let rest = rest_of(st, root, step, name);
    let none = Seq::<char>::empty();
    match step {
        Step::Command(Command::Function(f, _)) => {
            if name != f {
                assert(name =~= front + "$"@ + rest);
            }
        },
        Step::Command(Command::Compare(_)) => {
            assert(name =~= front + "$"@ + rest);
            assert(rest[1] == "$END_COMP"@[1]);
        },
        Step::Command(Command::Return) => {
            assert(name =~= front + "$"@ + rest);
        },
        Step::Bootstrap => {
            assert(name =~= front + "$"@ + rest);
        },
        Step::Command(Command::Call(_, _)) => {
            assert(name =~= front + "$"@ + rest);
            assert(rest[0] == "ret$"@[0]);
            assert(rest[3] == "ret$"@[3]);
        },
        Step::Command(Command::Label(l)) => {
            assert(name =~= front + "$"@ + rest);
            if st.function == root_function(root) {
                assert(rest[root.len() as int] == "$$"@[0]);
                assert(rest[root.len() as int + 1] == "$$"@[1]);
                if root.len() > 0 {
                    assert(rest[0] == root[0]);
                }
            }
        },
        _ => {},
    }
}

/// The machine's own symbols hold no `$`.
pub proof fn lemma_registers_are_plain(name: Seq<char>)
    requires
        is_register(name),
    ensures
        no_dollar(name),
{
    reveal_strlit("SP");
    reveal_strlit("LCL");
    reveal_strlit("ARG");
    reveal_strlit("THIS");
    reveal_strlit("THAT");
    reveal_strlit("R13");
    reveal_strlit("R14");
    reveal_strlit("R0");
    reveal_strlit("R1");
    reveal_strlit("R2");
    reveal_strlit("R3");
    reveal_strlit("R4");
    reveal_strlit("R5");
    reveal_strlit("R6");
    reveal_strlit("R7");
    reveal_strlit("R8");
    reveal_strlit("R9");
    reveal_strlit("R10");
    reveal_strlit("R11");
    reveal_strlit("R12");
    reveal_strlit("R15");
    reveal_strlit("SCREEN");
    reveal_strlit("KBD");
}

/// A label of a step with plain names is neither a numeral nor one of the
/// machine's own symbols.
pub proof fn lemma_label_is_symbol(st: GenState, root: Seq<char>, step: Step, name: Seq<char>)
    requires
        is_label_of(st, step, name),
        state_plain(st, root),
        step_names_plain(step),
    ensures
        !is_numeral(name),
        !is_register(name),
{
    reveal_strlit("$");
    lemma_label_parts(st, root, step, name);
    if kind_of(st, root, step, name) != 0 {
        let at = front_of(st, root, step).len() as int;
        assert(name[at] == '$');
        assert(!is_digit(name[at]));
        if is_register(name) {
            lemma_registers_are_plain(name);
        }
    }
}

/// What tells the labels of an earlier step from those of a later one:
/// two functions have two names, two labels in one function have two
/// names, two comparisons and two calls have two numbers, behind a return
/// the routine is out, and the bootstrap code comes once.
pub open spec fn steps_apart(
    earlier_state: GenState,
    earlier: Step,
    later_state: GenState,
    later: Step,
) -> bool {
    match (earlier, later) {
        (
            Step::Command(Command::Function(f, _)),
            Step::Command(Command::Function(g, _)),
        ) => f != g,
        (Step::Command(Command::Label(l)), Step::Command(Command::Label(m))) => {
            earlier_state.function == later_state.function ==> l != m
        },
        (Step::Command(Command::Compare(_)), Step::Command(Command::Compare(_))) => {
            earlier_state.comparisons != later_state.comparisons
        },
        (Step::Command(Command::Call(_, _)), Step::Command(Command::Call(_, _))) => {
            earlier_state.calls != later_state.calls
        },
        (Step::Command(Command::Return), Step::Command(Command::Return)) => {
            later_state.return_emitted
        },
        (_, Step::Bootstrap) => false,
        _ => true,
    }
}

/// The place to come back to from a call is no label in front of the
/// first function.
proof fn lemma_return_label_is_no_root_label(calls: nat, root: Seq<char>, l: Seq<char>)
    requires
        no_dollar(root),
    ensures
        "ret$"@ + decimal_text(calls) != root + "$$"@ + l,
{
    reveal_strlit("$");
    reveal_strlit("$$");
    reveal_strlit("ret$");
    reveal_strlit("ret");
    let d = decimal_text(calls);
    lemma_decimal_text_is_numeral(calls);
    if "ret$"@ + d == root + "$$"@ + l {
        assert("ret$"@ + d =~= "ret"@ + "$"@ + d);
        assert(root + "$$"@ + l =~= root + "$"@ + ("$"@ + l));
        lemma_split_unique("ret"@, d, root, "$"@ + l);
        assert(("$"@ + l)[0] == '$');
        assert(is_digit(d[0]));
    }
}

/// Labels of two steps that are apart differ.
pub proof fn lemma_labels_of_steps_differ(
    st1: GenState,
    step1: Step,
    n1: Seq<char>,
    st2: GenState,
    step2: Step,
    n2: Seq<char>,
    root: Seq<char>,
)
    requires
        is_label_of(st1, step1, n1),
        is_label_of(st2, step2, n2),
        state_plain(st1, root),
        state_plain(st2, root),
        step_names_plain(step1),
        step_names_plain(step2),
        steps_apart(st1, step1, st2, step2),
    ensures
        n1 != n2,
{
    if n1 == n2 {
        reveal_strlit("$");
        lemma_label_parts(st1, root, step1, n1);
        lemma_label_parts(st2, root, step2, n2);
        let k1 = kind_of(st1, root, step1, n1);
        let k2 = kind_of(st2, root, step2, n2);
        let f1 = front_of(st1, root, step1);
        let f2 = front_of(st2, root, step2);
        let r1 = rest_of(st1, root, step1, n1);
        let r2 = rest_of(st2, root, step2, n2);
        if k1 == 0 && k2 == 0 {
        } else if k1 == 0 {
            assert(n2[f2.len() as int] == '$');
        } else if k2 == 0 {
            assert(n1[f1.len() as int] == '$');
        } else {
            lemma_split_unique(f1, r1, f2, r2);
            if k1 == k2 {
                if k1 == 3 {
                    lemma_same_prefix(
                        "$END_COMP"@,
                        decimal_text(st1.comparisons),
                        decimal_text(st2.comparisons),
                    );
                    lemma_decimal_text_injective(st1.comparisons, st2.comparisons);
                } else if k1 == 5 {
                    lemma_same_prefix(
                        "ret$"@,
                        decimal_text(st1.calls),
                        decimal_text(st2.calls),
                    );
                    lemma_decimal_text_injective(st1.calls, st2.calls);
                } else if k1 == 7 {
                    match (step1, step2) {
                        (
                            Step::Command(Command::Label(l)),
                            Step::Command(Command::Label(m)),
                        ) => {
                            lemma_same_prefix(root + "$$"@, l, m);
                        },
                        _ => {},
                    }
                }
            } else if k1 == 5 && k2 == 7 {
                match step2 {
                    Step::Command(Command::Label(l)) => {
                        lemma_return_label_is_no_root_label(st1.calls, root, l);
                    },
                    _ => {},
                }
            } else if k1 == 7 && k2 == 5 {
                match step1 {
                    Step::Command(Command::Label(l)) => {
                        lemma_return_label_is_no_root_label(st2.calls, root, l);
                    },
                    _ => {},
                }
            } else {
                assert(r1.len() > 0 && r2.len() > 0);
                assert(r1[0] == r2[0]);
                if 1 <= k1 <= 4 || 1 <= k2 <= 4 || k1 == 8 || k2 == 8 {
                    assert(r1[1] == r2[1]);
                } else if k1 == 5 || k2 == 5 {
                    assert(r1[3] == r2[3]);
                } else {
                    assert(r1[root.len() as int] == r2[root.len() as int]);
                }
            }
        }
    }
}

} // verus!
