//! Whole programs: what the generator has seen and written after a sequence
//! of steps, and what holds of the labels in it.  The main result is
//! `lemma_labels_are_distinct`: in a program with plain names every label
//! stands on one line only.

use vstd::prelude::*;

use crate::assembly::{lemma_render_concat, render, Instr};
use crate::code_writer::{
    bootstrap_code, command_code, end_comp_label, next_state, qualified_label, return_func_code,
    return_label, write_return_code, GenState,
};
use crate::labels::{
    is_label_of, lemma_label_is_symbol, lemma_labels_of_steps_differ, lemma_step_labels,
    state_plain, step_names_plain, steps_apart,
};
use crate::machine::{assembled, labels_are_distinct, lemma_symbols_exist, placed, symbols_of};
use crate::decimal::{
    decimal_text, is_digit, is_numeral, lemma_decimal_text_injective, lemma_decimal_text_is_numeral,
};
use crate::machine::is_register;
use crate::Command;

verus! {

/// One step of a driver: it has the bootstrap code generated, turns to
/// another source file, adds a comment line, or has the code of a command
/// generated.
pub enum Step {
    Bootstrap,
    File(Seq<char>),
    Comment(Seq<char>),
    Command(Command),
}

/// The state of the generator after one step.
pub open spec fn step_state(st: GenState, step: Step) -> GenState {
    match step {
        Step::File(name) => GenState { file: name, ..st },
        Step::Command(command) => next_state(st, command),
        _ => st,
    }
}

/// The code that one step adds to the listing.
pub open spec fn step_code(st: GenState, step: Step) -> Seq<Instr> {
    match step {
        Step::Bootstrap => bootstrap_code(),
        Step::File(_) => Seq::empty(),
        Step::Comment(text) => Seq::empty().push(Instr::Comment(text)),
        Step::Command(command) => command_code(st, command),
    }
}

/// The state of the generator after `steps`, from the state `st` on.
pub open spec fn state_after(st: GenState, steps: Seq<Step>) -> GenState
    decreases steps.len(),
{
    if steps.len() == 0 {
        st
    } else {
        step_state(state_after(st, steps.drop_last()), steps.last())
    }
}

/// The listing of a program: the code of its steps, in order.
pub open spec fn program_code(st: GenState, steps: Seq<Step>) -> Seq<Instr>
    decreases steps.len(),
{
    if steps.len() == 0 {
        Seq::empty()
    } else {
        program_code(st, steps.drop_last()) + step_code(
            state_after(st, steps.drop_last()),
            steps.last(),
        )
    }
}

/// The code of the step at position `i` of a program.
pub open spec fn code_at(st: GenState, steps: Seq<Step>, i: int) -> Seq<Instr>
    recommends
        0 <= i < steps.len(),
{
    step_code(state_after(st, steps.take(i)), steps[i])
}

/// The step at position `i` is a comparison.
pub open spec fn is_compare(steps: Seq<Step>, i: int) -> bool {
    steps[i] matches Step::Command(Command::Compare(_))
}

/// The step at position `i` is a call.
pub open spec fn is_call(steps: Seq<Step>, i: int) -> bool {
    steps[i] matches Step::Command(Command::Call(_, _))
}

/// The step at position `i` is a return.
pub open spec fn is_return(steps: Seq<Step>, i: int) -> bool {
    steps[i] == Step::Command(Command::Return)
}

/// A program with one more step at its end: the state moves on by that
/// step, and the listing and its text grow by the code of that step.
pub proof fn lemma_push_step(st: GenState, steps: Seq<Step>, step: Step)
    ensures
        state_after(st, steps.push(step)) == step_state(state_after(st, steps), step),
        program_code(st, steps.push(step)) == program_code(st, steps) + step_code(
            state_after(st, steps),
            step,
        ),
        render(program_code(st, steps.push(step))) == render(program_code(st, steps)) + render(
            step_code(state_after(st, steps), step),
        ),
{
    assert(steps.push(step).drop_last() =~= steps);
    lemma_render_concat(program_code(st, steps), step_code(state_after(st, steps), step));
}

/// The steps of a writer that has the code of `command` generated, below a
/// comment line that repeats the command where `comment` is set.
pub open spec fn with_command(steps: Seq<Step>, command: Command, comment: bool) -> Seq<Step> {
    if comment {
        steps.push(Step::Comment(command.text())).push(Step::Command(command))
    } else {
        steps.push(Step::Command(command))
    }
}

/// One more step: the state moves on by that step.
pub proof fn lemma_state_after_take(st: GenState, steps: Seq<Step>, i: int)
    requires
        0 <= i < steps.len(),
    ensures
        state_after(st, steps.take(i + 1)) == step_state(state_after(st, steps.take(i)), steps[i]),
{
    assert(steps.take(i + 1).drop_last() =~= steps.take(i));
}

/// The counters never go down, and the return routine stays generated.
pub proof fn lemma_state_grows(st: GenState, steps: Seq<Step>, i: int, j: int)
    requires
        0 <= i <= j <= steps.len(),
    ensures
        state_after(st, steps.take(i)).comparisons <= state_after(st, steps.take(j)).comparisons,
        state_after(st, steps.take(i)).calls <= state_after(st, steps.take(j)).calls,
        state_after(st, steps.take(i)).return_emitted ==> state_after(
            st,
            steps.take(j),
        ).return_emitted,
    decreases j - i,
{
    if i < j {
        lemma_state_grows(st, steps, i, j - 1);
        lemma_state_after_take(st, steps, j - 1);
    }
}

/// How many of `steps` are comparisons.
pub open spec fn comparisons_in(steps: Seq<Step>) -> nat
    decreases steps.len(),
{
    if steps.len() == 0 {
        0
    } else if is_compare(steps, steps.len() - 1) {
        comparisons_in(steps.drop_last()) + 1
    } else {
        comparisons_in(steps.drop_last())
    }
}

/// How many of `steps` are calls.
pub open spec fn calls_in(steps: Seq<Step>) -> nat
    decreases steps.len(),
{
    if steps.len() == 0 {
        0
    } else if is_call(steps, steps.len() - 1) {
        calls_in(steps.drop_last()) + 1
    } else {
        calls_in(steps.drop_last())
    }
}

/// The counters count: each has grown by the number of comparisons, or of
/// calls, among the steps.
pub proof fn lemma_counters_count(st: GenState, steps: Seq<Step>)
    ensures
        state_after(st, steps).comparisons == st.comparisons + comparisons_in(steps),
        state_after(st, steps).calls == st.calls + calls_in(steps),
    decreases steps.len(),
{
    if steps.len() > 0 {
        lemma_counters_count(st, steps.drop_last());
    }
}

/// One more step: the listing grows by the code of that step, and so does
/// its text.  Nothing that stands in the listing is touched again.
pub proof fn lemma_program_code_take(st: GenState, steps: Seq<Step>, i: int)
    requires
        0 <= i < steps.len(),
    ensures
        program_code(st, steps.take(i + 1)) == program_code(st, steps.take(i)) + code_at(
            st,
            steps,
            i,
        ),
        render(program_code(st, steps.take(i + 1))) == render(program_code(st, steps.take(i)))
            + render(code_at(st, steps, i)),
{
    assert(steps.take(i + 1).drop_last() =~= steps.take(i));
    lemma_render_concat(program_code(st, steps.take(i)), code_at(st, steps, i));
}

/// The listing after some steps is the front part of the listing after
/// more steps.
pub proof fn lemma_program_grows(st: GenState, steps: Seq<Step>, i: int, j: int)
    requires
        0 <= i <= j <= steps.len(),
    ensures
        program_code(st, steps.take(i)).len() <= program_code(st, steps.take(j)).len(),
        program_code(st, steps.take(j)).subrange(0, program_code(st, steps.take(i)).len() as int)
            == program_code(st, steps.take(i)),
    decreases j - i,
{
    let shorter = program_code(st, steps.take(i));
    if i < j {
        lemma_program_grows(st, steps, i, j - 1);
        lemma_program_code_take(st, steps, j - 1);
        let before = program_code(st, steps.take(j - 1));
        let longer = program_code(st, steps.take(j));
        assert(longer.subrange(0, shorter.len() as int) =~= before.subrange(
            0,
            shorter.len() as int,
        ));
    } else {
        assert(shorter.subrange(0, shorter.len() as int) =~= shorter);
    }
}

/// The code of each step stands in the listing of the program, where the
/// listing of the steps before it ends.
pub proof fn lemma_step_is_placed(st: GenState, steps: Seq<Step>, i: int)
    requires
        0 <= i < steps.len(),
    ensures
        placed(
            program_code(st, steps),
            program_code(st, steps.take(i)).len() as int,
            code_at(st, steps, i),
        ),
{
    let whole = program_code(st, steps);
    let before = program_code(st, steps.take(i));
    let upto = program_code(st, steps.take(i + 1));
    let at = before.len() as int;
    assert(steps.take(steps.len() as int) =~= steps);
    lemma_program_code_take(st, steps, i);
    lemma_program_grows(st, steps, i + 1, steps.len() as int);
    assert forall|j: int| at <= j < at + code_at(st, steps, i).len() implies #[trigger] whole[j]
        == code_at(st, steps, i)[j - at] by {
        assert(whole.subrange(0, upto.len() as int)[j] == whole[j]);
        assert(upto[j] == code_at(st, steps, i)[j - at]);
    }
}

/// Two texts with a common front part are equal only where the rest is.
pub proof fn lemma_same_prefix(prefix: Seq<char>, a: Seq<char>, b: Seq<char>)
    requires
        prefix + a == prefix + b,
    ensures
        a == b,
{
    assert((prefix + a).len() == prefix.len() + a.len());
    assert((prefix + b).len() == prefix.len() + b.len());
    assert forall|i: int| 0 <= i < a.len() implies a[i] == b[i] by {
        assert((prefix + a)[prefix.len() + i] == a[i]);
        assert((prefix + b)[prefix.len() + i] == b[i]);
    }
    assert(a =~= b);
}

/// Comparisons with different numbers end at different labels.
pub proof fn lemma_end_comp_labels_differ(a: nat, b: nat)
    requires
        a != b,
    ensures
        end_comp_label(a) != end_comp_label(b),
{
    if end_comp_label(a) == end_comp_label(b) {
        lemma_same_prefix("$$END_COMP"@, decimal_text(a), decimal_text(b));
        lemma_decimal_text_injective(a, b);
    }
}

/// Any two comparisons of one program end at different labels.
pub proof fn lemma_comparisons_have_their_own_labels(
    st: GenState,
    steps: Seq<Step>,
    i: int,
    j: int,
)
    requires
        0 <= i < j < steps.len(),
        is_compare(steps, i),
        is_compare(steps, j),
    ensures
        end_comp_label(state_after(st, steps.take(i)).comparisons) != end_comp_label(
            state_after(st, steps.take(j)).comparisons,
        ),
        code_at(st, steps, i) != code_at(st, steps, j),
{
    lemma_state_after_take(st, steps, i);
    lemma_state_grows(st, steps, i + 1, j);
    let a = state_after(st, steps.take(i)).comparisons;
    let b = state_after(st, steps.take(j)).comparisons;
    lemma_end_comp_labels_differ(a, b);
    assert(code_at(st, steps, i)[5] == Instr::At(end_comp_label(a)));
    assert(code_at(st, steps, j)[5] == Instr::At(end_comp_label(b)));
}

/// No step before position `i` is a return.
pub open spec fn no_return_before(steps: Seq<Step>, i: int) -> bool {
    forall|k: int| 0 <= k < i ==> #[trigger] steps[k] != Step::Command(Command::Return)
}

/// The return routine has been generated exactly when a return was seen.
pub proof fn lemma_return_emitted(st: GenState, steps: Seq<Step>, i: int)
    requires
        0 <= i <= steps.len(),
        !st.return_emitted,
    ensures
        state_after(st, steps.take(i)).return_emitted <==> !no_return_before(steps, i),
    decreases i,
{
    if i == 0 {
        assert(steps.take(0) =~= Seq::<Step>::empty());
    } else {
        lemma_return_emitted(st, steps, i - 1);
        lemma_state_after_take(st, steps, i - 1);
        if no_return_before(steps, i - 1) && !is_return(steps, i - 1) {
            assert(no_return_before(steps, i));
        }
    }
}

/// The first return of a program is the return routine; every later one is
/// a jump to the routine and nothing else.  So a program with any number of
/// returns holds the routine once.
pub proof fn lemma_return_routine_once(st: GenState, steps: Seq<Step>, i: int)
    requires
        0 <= i < steps.len(),
        is_return(steps, i),
        !st.return_emitted,
    ensures
        code_at(st, steps, i) == if no_return_before(steps, i) {
            write_return_code()
        } else {
            return_func_code()
        },
{
    lemma_return_emitted(st, steps, i);
}

/// A return that comes after another is a jump to the routine, whatever
/// the state the program started in.
pub proof fn lemma_later_returns_jump(st: GenState, steps: Seq<Step>, i: int, j: int)
    requires
        0 <= i < j < steps.len(),
        is_return(steps, i),
        is_return(steps, j),
    ensures
        code_at(st, steps, j) == return_func_code(),
{
    lemma_state_after_take(st, steps, i);
    lemma_state_grows(st, steps, i + 1, j);
}

/// A label of one name stands for different places in different functions.
pub proof fn lemma_labels_of_functions_differ(first: Seq<char>, second: Seq<char>, name: Seq<char>)
    requires
        first != second,
    ensures
        qualified_label(first, name) != qualified_label(second, name),
{
    let a = qualified_label(first, name);
    let b = qualified_label(second, name);
    reveal_strlit("$");
    if a == b {
        assert(a.len() == first.len() + 1 + name.len());
        assert(b.len() == second.len() + 1 + name.len());
        assert forall|i: int| 0 <= i < first.len() implies first[i] == second[i] by {
            assert(a[i] == first[i]);
            assert(b[i] == second[i]);
        }
        assert(first =~= second);
    }
}

/// `label name` in two states with different functions marks two different
/// places.
pub proof fn lemma_label_commands_differ(first: GenState, second: GenState, name: Seq<char>)
    requires
        first.function != second.function,
    ensures
        command_code(first, Command::Label(name)) != command_code(second, Command::Label(name)),
{
    lemma_labels_of_functions_differ(first.function, second.function, name);
    assert(command_code(first, Command::Label(name))[0] == Instr::Label(
        qualified_label(first.function, name),
    ));
    assert(command_code(second, Command::Label(name))[0] == Instr::Label(
        qualified_label(second.function, name),
    ));
}

/// Calls with different numbers come back to different labels, whatever the
/// files they stand in.
pub proof fn lemma_return_labels_differ(
    first_file: Seq<char>,
    first: nat,
    second_file: Seq<char>,
    second: nat,
)
    requires
        first != second,
    ensures
        return_label(first_file, first) != return_label(second_file, second),
{
    let a = return_label(first_file, first);
    let b = return_label(second_file, second);
    let da = decimal_text(first);
    let db = decimal_text(second);
    reveal_strlit("$ret$");
    lemma_decimal_text_is_numeral(first);
    lemma_decimal_text_is_numeral(second);
    lemma_decimal_text_injective(first, second);
    if a == b {
        let n = a.len() as int;
        assert(n == first_file.len() + 5 + da.len());
        assert(n == second_file.len() + 5 + db.len());
        assert(a[n - da.len() - 1] == '$');
        assert(b[n - db.len() - 1] == '$');
        if da.len() < db.len() {
            assert(b[n - da.len() - 1] == db[db.len() - da.len() - 1]);
            assert(is_digit(db[db.len() - da.len() - 1]));
        } else if db.len() < da.len() {
            assert(a[n - db.len() - 1] == da[da.len() - db.len() - 1]);
            assert(is_digit(da[da.len() - db.len() - 1]));
        } else {
            assert forall|i: int| 0 <= i < da.len() implies da[i] == db[i] by {
                assert(a[n - da.len() + i] == da[i]);
                assert(b[n - db.len() + i] == db[i]);
            }
            assert(da =~= db);
        }
    }
}

/// Any two calls of one program come back to different labels.
pub proof fn lemma_calls_have_their_own_labels(
    st: GenState,
    steps: Seq<Step>,
    i: int,
    j: int,
)
    requires
        0 <= i < j < steps.len(),
        is_call(steps, i),
        is_call(steps, j),
    ensures
        return_label(
            state_after(st, steps.take(i)).file,
            state_after(st, steps.take(i)).calls,
        ) != return_label(
            state_after(st, steps.take(j)).file,
            state_after(st, steps.take(j)).calls,
        ),
{
    lemma_state_after_take(st, steps, i);
    lemma_state_grows(st, steps, i + 1, j);
    lemma_return_labels_differ(
        state_after(st, steps.take(i)).file,
        state_after(st, steps.take(i)).calls,
        state_after(st, steps.take(j)).file,
        state_after(st, steps.take(j)).calls,
    );
}

/// The name of the function that begins at step `i`, if one does.
pub open spec fn function_at(steps: Seq<Step>, i: int) -> Option<Seq<char>> {
    match steps[i] {
        Step::Command(Command::Function(name, _)) => Some(name),
        _ => None,
    }
}

/// The label that step `i` sets, with the function it stands in, if it
/// sets one.
pub open spec fn label_at(st: GenState, steps: Seq<Step>, i: int) -> Option<
    (Seq<char>, Seq<char>),
> {
    match steps[i] {
        Step::Command(Command::Label(name)) => Some(
            (state_after(st, steps.take(i)).function, name),
        ),
        _ => None,
    }
}

/// No two functions of the program have the same name.
pub open spec fn functions_differ(steps: Seq<Step>) -> bool {
    forall|i: int, j: int|
        0 <= i < j < steps.len() && #[trigger] function_at(steps, i) is Some
            ==> #[trigger] function_at(steps, j) != function_at(steps, i)
}

/// No two labels in one function have the same name.
pub open spec fn labels_differ(st: GenState, steps: Seq<Step>) -> bool {
    forall|i: int, j: int|
        0 <= i < j < steps.len() && #[trigger] label_at(st, steps, i) is Some
            ==> #[trigger] label_at(st, steps, j) != label_at(st, steps, i)
}

/// A program with plain names.  No name of a file, a function or a label
/// holds `$`, and no function is named by a numeral or like one of the
/// machine's own symbols; the program starts in front of the first
/// function of the file `root` or inside a function; the bootstrap code
/// stands in front or nowhere; no two functions have the same name, and
/// no two labels in one function.
pub open spec fn plain_program(st: GenState, root: Seq<char>, steps: Seq<Step>) -> bool {
    &&& state_plain(st, root)
    &&& forall|k: int| 0 <= k < steps.len() ==> step_names_plain(#[trigger] steps[k])
    &&& forall|k: int| 0 < k < steps.len() ==> !(#[trigger] steps[k] is Bootstrap)
    &&& functions_differ(steps)
    &&& labels_differ(st, steps)
}

/// `name` is a label of one of `steps`.
pub open spec fn defines(st: GenState, steps: Seq<Step>, name: Seq<char>) -> bool
    decreases steps.len(),
{
    if steps.len() == 0 {
        false
    } else {
        defines(st, steps.drop_last(), name) || is_label_of(
            state_after(st, steps.drop_last()),
            steps.last(),
            name,
        )
    }
}

/// The names stay plain from step to step.
pub proof fn lemma_states_plain(st: GenState, root: Seq<char>, steps: Seq<Step>, k: int)
    requires
        state_plain(st, root),
        forall|i: int| 0 <= i < steps.len() ==> step_names_plain(#[trigger] steps[i]),
        0 <= k <= steps.len(),
    ensures
        state_plain(state_after(st, steps.take(k)), root),
    decreases k,
{
    if k == 0 {
        assert(steps.take(0) =~= Seq::<Step>::empty());
    } else {
        lemma_states_plain(st, root, steps, k - 1);
        lemma_state_after_take(st, steps, k - 1);
        assert(step_names_plain(steps[k - 1]));
    }
}

/// Any two steps of a plain program are apart.
pub proof fn lemma_steps_apart(st: GenState, root: Seq<char>, steps: Seq<Step>, j: int, k: int)
    requires
        plain_program(st, root, steps),
        0 <= j < k < steps.len(),
    ensures
        steps_apart(
            state_after(st, steps.take(j)),
            steps[j],
            state_after(st, steps.take(k)),
            steps[k],
        ),
{
    lemma_state_after_take(st, steps, j);
    lemma_state_grows(st, steps, j + 1, k);
    assert(function_at(steps, j) is Some ==> function_at(steps, k) != function_at(steps, j));
    assert(label_at(st, steps, j) is Some ==> label_at(st, steps, k) != label_at(st, steps, j));
}

/// A label of a step is no label of the steps before it.
pub proof fn lemma_label_is_fresh(
    st: GenState,
    root: Seq<char>,
    steps: Seq<Step>,
    m: int,
    k: int,
    name: Seq<char>,
)
    requires
        plain_program(st, root, steps),
        0 <= m <= k < steps.len(),
        is_label_of(state_after(st, steps.take(k)), steps[k], name),
    ensures
        !defines(st, steps.take(m), name),
    decreases m,
{
    if m > 0 {
        lemma_label_is_fresh(st, root, steps, m - 1, k, name);
        assert(steps.take(m).drop_last() =~= steps.take(m - 1));
        let earlier = state_after(st, steps.take(m - 1));
        if is_label_of(earlier, steps[m - 1], name) {
            lemma_states_plain(st, root, steps, m - 1);
            lemma_states_plain(st, root, steps, k);
            lemma_steps_apart(st, root, steps, m - 1, k);
            lemma_labels_of_steps_differ(
                earlier,
                steps[m - 1],
                name,
                state_after(st, steps.take(k)),
                steps[k],
                name,
                root,
            );
        }
    }
}

/// Every label line of a program holds a label of one of its steps.
pub proof fn lemma_labels_are_defined(st: GenState, steps: Seq<Step>)
    ensures
        forall|i: int|
            0 <= i < program_code(st, steps).len() ==> (#[trigger] program_code(
                st,
                steps,
            )[i] matches Instr::Label(name) ==> defines(st, steps, name)),
    decreases steps.len(),
{
    if steps.len() > 0 {
        let before = program_code(st, steps.drop_last());
        let last = step_code(state_after(st, steps.drop_last()), steps.last());
        lemma_labels_are_defined(st, steps.drop_last());
        lemma_step_labels(state_after(st, steps.drop_last()), steps.last());
        assert forall|i: int| 0 <= i < program_code(st, steps).len() implies (
        #[trigger] program_code(st, steps)[i] matches Instr::Label(name) ==> defines(
            st,
            steps,
            name,
        )) by {
            if i < before.len() {
                assert(program_code(st, steps)[i] == before[i]);
            } else {
                assert(program_code(st, steps)[i] == last[i - before.len()]);
            }
        }
    }
}

/// The shorter program of a plain program is plain.
pub proof fn lemma_plain_program_drop_last(st: GenState, root: Seq<char>, steps: Seq<Step>)
    requires
        plain_program(st, root, steps),
        steps.len() > 0,
    ensures
        plain_program(st, root, steps.drop_last()),
{
    let shorter = steps.drop_last();
    assert forall|k: int| 0 <= k < shorter.len() implies step_names_plain(
        #[trigger] shorter[k],
    ) by {
        assert(shorter[k] == steps[k]);
    }
    assert forall|k: int| 0 < k < shorter.len() implies !(#[trigger] shorter[k] is Bootstrap) by {
        assert(shorter[k] == steps[k]);
    }
    assert forall|i: int, j: int|
        0 <= i < j < shorter.len() && #[trigger] function_at(shorter, i) is Some implies
        #[trigger] function_at(shorter, j) != function_at(shorter, i) by {
        assert(function_at(shorter, i) == function_at(steps, i));
        assert(function_at(shorter, j) == function_at(steps, j));
    }
    assert forall|i: int, j: int|
        0 <= i < j < shorter.len() && #[trigger] label_at(st, shorter, i) is Some implies
        #[trigger] label_at(st, shorter, j) != label_at(st, shorter, i) by {
        assert(shorter.take(i) =~= steps.take(i));
        assert(shorter.take(j) =~= steps.take(j));
        assert(label_at(st, shorter, i) == label_at(st, steps, i));
        assert(label_at(st, shorter, j) == label_at(st, steps, j));
    }
}

/// Every label of a program with plain names is its own.
///
/// In the listing of such a program no label stands on two lines, and none
/// is a numeral or one of the machine's own symbols: neither the names of
/// the functions, nor the labels of the program, nor the labels that the
/// generator makes up for loops, comparisons, calls, the return routine
/// and the bootstrap code.
pub proof fn lemma_labels_are_distinct(st: GenState, root: Seq<char>, steps: Seq<Step>)
    requires
        plain_program(st, root, steps),
    ensures
        labels_are_distinct(program_code(st, steps)),
    decreases steps.len(),
{
    let code = program_code(st, steps);
    if steps.len() > 0 {
        let shorter = steps.drop_last();
        let n = shorter.len() as int;
        let before = program_code(st, shorter);
        let state = state_after(st, shorter);
        let last = step_code(state, steps.last());
        assert(steps.take(n) =~= shorter);
        lemma_plain_program_drop_last(st, root, steps);
        lemma_labels_are_distinct(st, root, shorter);
        lemma_labels_are_defined(st, shorter);
        lemma_step_labels(state, steps.last());
        lemma_states_plain(st, root, steps, n);
        assert forall|i: int, j: int| 0 <= i < code.len() && 0 <= j < code.len() implies (
        #[trigger] code[i] matches Instr::Label(name) ==> !is_numeral(name) && !is_register(name)
            && (#[trigger] code[j] == code[i] ==> i == j)) by {
            if let Instr::Label(name) = code[i] {
                if i < before.len() {
                    assert(code[i] == before[i]);
                    if j < before.len() {
                        assert(code[j] == before[j]);
                    } else {
                        assert(code[j] == last[j - before.len()]);
                        if code[j] == code[i] {
                            lemma_label_is_fresh(st, root, steps, n, n, name);
                        }
                    }
                } else {
                    assert(code[i] == last[i - before.len()]);
                    lemma_label_is_symbol(state, root, steps.last(), name);
                    if j < before.len() {
                        assert(code[j] == before[j]);
                        if code[j] == code[i] {
                            lemma_label_is_fresh(st, root, steps, n, n, name);
                        }
                    } else {
                        assert(code[j] == last[j - before.len()]);
                    }
                }
            }
        }
    }
}

/// A program with plain names whose listing fits the program memory has
/// symbols: every label stands for its line.
pub proof fn lemma_plain_program_is_assembled(st: GenState, root: Seq<char>, steps: Seq<Step>)
    requires
        plain_program(st, root, steps),
        program_code(st, steps).len() <= 32768,
    ensures
        assembled(program_code(st, steps), symbols_of(program_code(st, steps))),
{
    lemma_labels_are_distinct(st, root, steps);
    lemma_symbols_exist(program_code(st, steps));
}

} // verus!
