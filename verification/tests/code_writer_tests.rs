use vm_translator::assembly::{Comp, Dest};
use vm_translator::code_writer::{
    arithmetic_one_arg, arithmetic_two_args, call_func, comparison, def_label, func, goto, if_goto,
    pop_segment, pop_value, push_segment, push_value, return_func, write_return, CodeWriter,
};
use vm_translator::parser::parse;
use vm_translator::{Comparison, MemSegment, VmCommand};

/// The lines of `text` without their indentation.
fn lines(text: &str) -> Vec<&str> {
    text.lines().map(|l| l.trim()).collect()
}

fn code_of(writer: &mut CodeWriter, command: VmCommand) -> String {
    writer.generate_code(command, false);
    writer.flush()
}

#[test]
fn instructions_are_indented_and_labels_are_not() {
    assert_eq!(arithmetic_one_arg(Comp::NegM), "    @SP\n    A=M-1\n    M=-M\n");
    assert_eq!(def_label("Foo$BAR".to_string()), "(Foo$BAR)\n");
    assert_eq!(goto("Foo$BAR".to_string()), "    @Foo$BAR\n    0;JMP\n");
}

#[test]
fn unary_code_works_on_the_top_in_place() {
    assert_eq!(lines(&arithmetic_one_arg(Comp::NegM)), ["@SP", "A=M-1", "M=-M"]);
    assert_eq!(lines(&arithmetic_one_arg(Comp::NotM)), ["@SP", "A=M-1", "M=!M"]);
}

#[test]
fn binary_code_pops_one_operand() {
    assert_eq!(
        lines(&arithmetic_two_args(Dest::M, Comp::DPlusM)),
        ["@SP", "AM=M-1", "D=M", "A=A-1", "M=D+M"]
    );
    assert_eq!(
        lines(&arithmetic_two_args(Dest::MD, Comp::MMinusD)),
        ["@SP", "AM=M-1", "D=M", "A=A-1", "MD=M-D"]
    );
}

#[test]
fn arithmetic_commands_use_their_operations() {
    let mut w = CodeWriter::new("F", false);
    assert_eq!(code_of(&mut w, VmCommand::Add), arithmetic_two_args(Dest::M, Comp::DPlusM));
    assert_eq!(code_of(&mut w, VmCommand::Sub), arithmetic_two_args(Dest::M, Comp::MMinusD));
    assert_eq!(code_of(&mut w, VmCommand::And), arithmetic_two_args(Dest::M, Comp::DAndM));
    assert_eq!(code_of(&mut w, VmCommand::Or), arithmetic_two_args(Dest::M, Comp::DOrM));
    assert_eq!(code_of(&mut w, VmCommand::Neg), arithmetic_one_arg(Comp::NegM));
    assert_eq!(code_of(&mut w, VmCommand::Not), arithmetic_one_arg(Comp::NotM));
}

#[test]
fn comparison_jumps_over_the_increment_when_it_fails() {
    assert_eq!(
        lines(&comparison(Comparison::Eq, 0)),
        [
            "@SP",
            "AM=M-1",
            "D=M",
            "A=A-1",
            "MD=M-D",
            "@$$END_COMP0",
            "D;JNE",
            "D=D+1",
            "($$END_COMP0)",
            "@SP",
            "A=M-1",
            "M=M-D"
        ]
    );
    assert_eq!(lines(&comparison(Comparison::GT, 12))[5..9], ["@$$END_COMP12", "D;JLE", "D=D+1", "($$END_COMP12)"]);
    assert_eq!(lines(&comparison(Comparison::LT, 65536))[5..9], ["@$$END_COMP65536", "D;JGE", "D=D+1", "($$END_COMP65536)"]);
}

#[test]
fn push_segment_reads_through_the_base() {
    assert_eq!(
        lines(&push_segment("LCL", 3)),
        ["@3", "D=A", "@LCL", "A=D+M", "D=M", "@SP", "M=M+1", "A=M-1", "M=D"]
    );
}

#[test]
fn pop_segment_computes_the_address_first() {
    assert_eq!(
        lines(&pop_segment("THAT", 65535)),
        ["@65535", "D=A", "@THAT", "D=D+M", "@SP", "AM=M-1", "D=D+M", "A=D-M", "M=D-A"]
    );
}

#[test]
fn push_value_takes_the_address_or_the_cell() {
    assert_eq!(lines(&push_value("17", true)), ["@17", "D=A", "@SP", "M=M+1", "A=M-1", "M=D"]);
    assert_eq!(lines(&push_value("THIS", false)), ["@THIS", "D=M", "@SP", "M=M+1", "A=M-1", "M=D"]);
}

#[test]
fn pop_value_stores_into_the_cell() {
    assert_eq!(lines(&pop_value("Foo.3")), ["@SP", "AM=M-1", "D=M", "@Foo.3", "M=D"]);
}

#[test]
fn if_goto_jumps_on_a_value_other_than_zero() {
    assert_eq!(lines(&if_goto("f$L".to_string())), ["@SP", "AM=M-1", "D=M", "@f$L", "D;JNE"]);
}

#[test]
fn func_marks_the_entry_and_pushes_zeros_in_a_loop() {
    assert_eq!(
        lines(&func("Main.run", 2)),
        [
            "(Main.run)",
            "@2",
            "D=A",
            "(Main.run$$LocalLoop)",
            "@Main.run$$LocalLoopEnd",
            "D;JEQ",
            "@SP",
            "M=M+1",
            "A=M-1",
            "M=0",
            "D=D-1",
            "@Main.run$$LocalLoop",
            "0;JMP",
            "(Main.run$$LocalLoopEnd)"
        ]
    );
}

#[test]
fn call_saves_five_words_and_sets_arg_and_lcl() {
    let text = call_func("Math.max", 2, "Main$ret$7".to_string());
    let mut expected = String::new();
    expected.push_str(&push_value("Main$ret$7", true));
    expected.push_str(&push_value("LCL", false));
    expected.push_str(&push_value("ARG", false));
    expected.push_str(&push_value("THIS", false));
    expected.push_str(&push_value("THAT", false));
    assert!(text.starts_with(&expected));
    assert_eq!(
        lines(&text[expected.len()..]),
        [
            "@2",
            "D=A",
            "@5",
            "D=D+A",
            "@SP",
            "D=M-D",
            "@ARG",
            "M=D",
            "@SP",
            "D=M",
            "@LCL",
            "M=D",
            "@Math.max",
            "0;JMP",
            "(Main$ret$7)"
        ]
    );
}

#[test]
fn return_routine_reads_the_frame_through_copies() {
    assert_eq!(
        lines(&write_return()),
        [
            "($$RETURN)",
            "@5",
            "D=A",
            "@LCL",
            "A=M-D",
            "D=M",
            "@R14",
            "M=D",
            "@SP",
            "A=M-1",
            "D=M",
            "@ARG",
            "A=M",
            "M=D",
            "D=A+1",
            "@SP",
            "M=D",
            "@LCL",
            "D=M-1",
            "@R13",
            "AM=D",
            "D=M",
            "@THAT",
            "M=D",
            "@R13",
            "AM=M-1",
            "D=M",
            "@THIS",
            "M=D",
            "@R13",
            "AM=M-1",
            "D=M",
            "@ARG",
            "M=D",
            "@R13",
            "AM=M-1",
            "D=M",
            "@LCL",
            "M=D",
            "@R14",
            "A=M",
            "0;JMP"
        ]
    );
    assert_eq!(lines(&return_func()), ["@$$RETURN", "0;JMP"]);
}

#[test]
fn push_and_pop_choose_the_code_by_segment() {
    let mut w = CodeWriter::new("Prog", false);
    w.set_file_name("Foo");
    assert_eq!(code_of(&mut w, VmCommand::Push(MemSegment::Argument, 1)), push_segment("ARG", 1));
    assert_eq!(code_of(&mut w, VmCommand::Push(MemSegment::Local, 2)), push_segment("LCL", 2));
    assert_eq!(code_of(&mut w, VmCommand::Push(MemSegment::This, 3)), push_segment("THIS", 3));
    assert_eq!(code_of(&mut w, VmCommand::Push(MemSegment::That, 4)), push_segment("THAT", 4));
    assert_eq!(code_of(&mut w, VmCommand::Push(MemSegment::Static, 5)), push_value("Foo.5", false));
    assert_eq!(code_of(&mut w, VmCommand::Push(MemSegment::Pointer, 0)), push_value("THIS", false));
    assert_eq!(code_of(&mut w, VmCommand::Push(MemSegment::Pointer, 1)), push_value("THAT", false));
    assert_eq!(code_of(&mut w, VmCommand::Push(MemSegment::Temp, 6)), push_value("11", false));
    assert_eq!(code_of(&mut w, VmCommand::Push(MemSegment::Constant, 7)), push_value("7", true));
    assert_eq!(code_of(&mut w, VmCommand::Pop(MemSegment::Argument, 1)), pop_segment("ARG", 1));
    assert_eq!(code_of(&mut w, VmCommand::Pop(MemSegment::Local, 2)), pop_segment("LCL", 2));
    assert_eq!(code_of(&mut w, VmCommand::Pop(MemSegment::This, 3)), pop_segment("THIS", 3));
    assert_eq!(code_of(&mut w, VmCommand::Pop(MemSegment::That, 4)), pop_segment("THAT", 4));
    assert_eq!(code_of(&mut w, VmCommand::Pop(MemSegment::Static, 5)), pop_value("Foo.5"));
    assert_eq!(code_of(&mut w, VmCommand::Pop(MemSegment::Pointer, 0)), pop_value("THIS"));
    assert_eq!(code_of(&mut w, VmCommand::Pop(MemSegment::Pointer, 1)), pop_value("THAT"));
    assert_eq!(code_of(&mut w, VmCommand::Pop(MemSegment::Temp, 6)), pop_value("11"));
}

#[test]
fn pointer_offsets_other_than_zero_mean_that() {
    let mut w = CodeWriter::new("Prog", false);
    assert_eq!(code_of(&mut w, VmCommand::Push(MemSegment::Pointer, 2)), push_value("THAT", false));
    assert_eq!(code_of(&mut w, VmCommand::Pop(MemSegment::Pointer, 65535)), pop_value("THAT"));
}

#[test]
fn temp_address_does_not_overflow() {
    let mut w = CodeWriter::new("Prog", false);
    assert_eq!(code_of(&mut w, VmCommand::Push(MemSegment::Temp, 65535)), push_value("65540", false));
    assert_eq!(code_of(&mut w, VmCommand::Pop(MemSegment::Temp, 65531)), pop_value("65536"));
}

#[test]
fn static_cells_are_named_after_the_current_file() {
    let mut w = CodeWriter::new("Prog", false);
    assert_eq!(code_of(&mut w, VmCommand::Push(MemSegment::Static, 3)), push_value("Prog.3", false));
    w.set_file_name("Other");
    assert_eq!(code_of(&mut w, VmCommand::Pop(MemSegment::Static, 3)), pop_value("Other.3"));
}

#[test]
fn labels_are_qualified_by_the_current_function() {
    let mut w = CodeWriter::new("Prog", false);
    assert_eq!(code_of(&mut w, VmCommand::Label("LOOP")), "($Prog$$LOOP)\n");
    w.generate_code(VmCommand::Function("Main.one", 0), false);
    w.flush();
    assert_eq!(code_of(&mut w, VmCommand::Label("LOOP")), "(Main.one$LOOP)\n");
    assert_eq!(code_of(&mut w, VmCommand::Goto("LOOP")), goto("Main.one$LOOP".to_string()));
    assert_eq!(code_of(&mut w, VmCommand::IfGoto("LOOP")), if_goto("Main.one$LOOP".to_string()));
    w.generate_code(VmCommand::Function("Main.two", 0), false);
    w.flush();
    assert_eq!(code_of(&mut w, VmCommand::Label("LOOP")), "(Main.two$LOOP)\n");
}

#[test]
fn same_label_name_in_two_functions_gives_two_labels() {
    let mut w = CodeWriter::new("Prog", false);
    w.generate_code(VmCommand::Function("A", 0), false);
    w.flush();
    let first = code_of(&mut w, VmCommand::Label("X"));
    w.generate_code(VmCommand::Function("B", 0), false);
    w.flush();
    let second = code_of(&mut w, VmCommand::Label("X"));
    assert_eq!(first, "(A$X)\n");
    assert_eq!(second, "(B$X)\n");
    assert_ne!(first, second);
}

#[test]
fn every_comparison_has_its_own_label() {
    let mut w = CodeWriter::new("Prog", false);
    let mut labels: Vec<String> = Vec::new();
    for i in 0..30 {
        let kind = [Comparison::Eq, Comparison::GT, Comparison::LT][i % 3];
        let text = code_of(&mut w, VmCommand::Compare(kind));
        assert_eq!(text, comparison(kind, i));
        let label = lines(&text)[8].to_string();
        assert_eq!(label, format!("($$END_COMP{})", i));
        assert!(!labels.contains(&label));
        labels.push(label);
        // Commands in between do not move the counter.
        w.generate_code(VmCommand::Add, false);
        w.generate_code(VmCommand::Call("f", 0), false);
        w.set_file_name("Another");
        w.flush();
    }
    assert_eq!(labels.len(), 30);
}

#[test]
fn every_call_has_its_own_return_label() {
    let mut w = CodeWriter::new("Prog", false);
    assert_eq!(code_of(&mut w, VmCommand::Call("f", 1)), call_func("f", 1, "Prog$ret$0".to_string()));
    assert_eq!(code_of(&mut w, VmCommand::Call("f", 1)), call_func("f", 1, "Prog$ret$1".to_string()));
    w.set_file_name("Lib");
    assert_eq!(code_of(&mut w, VmCommand::Call("g", 0)), call_func("g", 0, "Lib$ret$2".to_string()));
    w.generate_code(VmCommand::Function("h", 0), false);
    w.generate_code(VmCommand::Compare(Comparison::Eq), false);
    w.flush();
    assert_eq!(code_of(&mut w, VmCommand::Call("g", 0)), call_func("g", 0, "Lib$ret$3".to_string()));
}

#[test]
fn return_routine_is_written_once() {
    let mut w = CodeWriter::new("Prog", false);
    assert_eq!(code_of(&mut w, VmCommand::Return), write_return());
    for _ in 0..4 {
        w.generate_code(VmCommand::Function("f", 0), false);
        w.flush();
        assert_eq!(code_of(&mut w, VmCommand::Return), return_func());
    }
    let mut w = CodeWriter::new("Prog", false);
    for _ in 0..5 {
        w.generate_code(VmCommand::Return, false);
    }
    let text = w.flush();
    assert_eq!(text.matches("($$RETURN)").count(), 1);
    assert_eq!(text.matches("@$$RETURN").count(), 4);
    assert_eq!(text.matches("@R14").count(), 2);
}

#[test]
fn function_command_writes_the_entry_code() {
    let mut w = CodeWriter::new("Prog", false);
    assert_eq!(code_of(&mut w, VmCommand::Function("Main.main", 3)), func("Main.main", 3));
    assert_eq!(code_of(&mut w, VmCommand::Function("Main.none", 0)), func("Main.none", 0));
}

#[test]
fn function_then_return_is_entry_code_and_routine() {
    let mut w = CodeWriter::new("Prog", false);
    w.generate_code(parse("function Foo 2").unwrap(), false);
    w.generate_code(parse("return").unwrap(), false);
    let mut expected = func("Foo", 2);
    expected.push_str(&write_return());
    assert_eq!(w.flush(), expected);
}

#[test]
fn comment_repeats_the_command_on_a_line_of_its_own() {
    let mut w = CodeWriter::new("Prog", false);
    w.generate_code(parse("push constant 7").unwrap(), true);
    let mut expected = String::from("// push constant 7\n");
    expected.push_str(&push_value("7", true));
    assert_eq!(w.flush(), expected);
    w.generate_code(parse("  if-goto   LOOP ").unwrap(), true);
    assert!(w.flush().starts_with("// if-goto LOOP\n    @SP\n"));
    w.generate_code(VmCommand::Add, false);
    assert!(w.flush().starts_with("    @SP\n"));
}

#[test]
fn comment_adds_one_line() {
    let mut w = CodeWriter::new("Prog", false);
    w.comment("first file");
    w.generate_code(VmCommand::Neg, false);
    w.comment("");
    let mut expected = String::from("// first file\n");
    expected.push_str(&arithmetic_one_arg(Comp::NegM));
    expected.push_str("// \n");
    assert_eq!(w.flush(), expected);
}

#[test]
fn flush_hands_out_each_text_once() {
    let mut w = CodeWriter::new("Prog", false);
    assert_eq!(w.flush(), "");
    w.generate_code(VmCommand::Add, false);
    w.generate_code(VmCommand::Sub, false);
    let mut expected = arithmetic_two_args(Dest::M, Comp::DPlusM);
    expected.push_str(&arithmetic_two_args(Dest::M, Comp::MMinusD));
    assert_eq!(w.flush(), expected);
    assert_eq!(w.flush(), "");
    w.generate_code(VmCommand::Not, false);
    assert_eq!(w.flush(), arithmetic_one_arg(Comp::NotM));
}

#[test]
fn bootstrap_comes_first() {
    let mut w = CodeWriter::new("Prog", true);
    let mut expected = String::from("// bootstrap code\n    @256\n    D=A\n    @SP\n    M=D\n// call sys_init\n");
    expected.push_str(&call_func("Sys.init", 0, "$$BOOTSTRAP".to_string()));
    assert_eq!(w.flush(), expected);
    // The bootstrap call does not count as a call of the program.
    assert_eq!(code_of(&mut w, VmCommand::Call("f", 0)), call_func("f", 0, "Prog$ret$0".to_string()));
    let mut plain = CodeWriter::new("Prog", false);
    assert_eq!(plain.flush(), "");
}

#[test]
fn writers_do_not_share_state() {
    let mut first = CodeWriter::new("A", false);
    let mut second = CodeWriter::new("B", false);
    first.generate_code(VmCommand::Compare(Comparison::Eq), false);
    first.generate_code(VmCommand::Return, false);
    first.flush();
    assert_eq!(code_of(&mut second, VmCommand::Compare(Comparison::Eq)), comparison(Comparison::Eq, 0));
    assert_eq!(code_of(&mut second, VmCommand::Return), write_return());
    assert_eq!(code_of(&mut first, VmCommand::Compare(Comparison::Eq)), comparison(Comparison::Eq, 1));
}

#[test]
fn generated_labels_hold_two_dollars() {
    let mut w = CodeWriter::new("Prog", true);
    let mut text = w.flush();
    for line in ["function Main.run 1", "label A", "eq", "call Main.run 0", "return", "return"] {
        w.generate_code(parse(line).unwrap(), false);
    }
    text.push_str(&w.flush());
    let labels: Vec<&str> =
        text.lines().filter(|l| l.starts_with('(')).map(|l| &l[1..l.len() - 1]).collect();
    assert_eq!(
        labels,
        [
            "$$BOOTSTRAP",
            "Main.run",
            "Main.run$$LocalLoop",
            "Main.run$$LocalLoopEnd",
            "Main.run$A",
            "$$END_COMP0",
            "Prog$ret$0",
            "$$RETURN"
        ]
    );
    for label in labels {
        let dollars = label.matches('$').count();
        let from_the_program = label == "Main.run" || label == "Main.run$A";
        assert_eq!(dollars >= 2, !from_the_program, "{}", label);
    }
}

#[test]
fn labels_in_front_of_the_first_function_are_qualified_by_the_file() {
    let mut w = CodeWriter::new("Prog", false);
    w.generate_code(VmCommand::Label("ret"), false);
    w.generate_code(VmCommand::Label("0"), false);
    w.generate_code(VmCommand::Call("f", 0), false);
    let text = w.flush();
    let labels: Vec<&str> = text.lines().filter(|l| l.starts_with('(')).collect();
    assert_eq!(labels, ["($Prog$$ret)", "($Prog$$0)", "(Prog$ret$0)"]);
}
