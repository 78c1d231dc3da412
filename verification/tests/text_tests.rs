use vm_translator::assembly::{Comp, Dest, Emitter, Jump};
use vm_translator::decimal::decimal;
use vm_translator::{Comparison, MemSegment, VmCommand};

#[test]
fn decimal_has_no_leading_zero() {
    assert_eq!(decimal(0), "0");
    assert_eq!(decimal(7), "7");
    assert_eq!(decimal(10), "10");
    assert_eq!(decimal(15), "15");
    assert_eq!(decimal(65535), "65535");
    assert_eq!(decimal(65540), "65540");
    assert_eq!(decimal(1000000), "1000000");
    assert_eq!(decimal(u64::MAX), "18446744073709551615");
}

#[test]
fn decimal_agrees_with_the_standard_library() {
    for n in 0..3000u64 {
        assert_eq!(decimal(n), n.to_string());
        assert_eq!(decimal(n * 7919 + 13), (n * 7919 + 13).to_string());
    }
}

#[test]
fn different_numbers_have_different_texts() {
    let texts: Vec<String> = (0..500u64).map(decimal).collect();
    for i in 0..texts.len() {
        for j in 0..i {
            assert_ne!(texts[i], texts[j]);
        }
    }
}

#[test]
fn comparison_to_string_is_its_keyword() {
    assert_eq!(Comparison::Eq.to_string(), "eq");
    assert_eq!(Comparison::GT.to_string(), "gt");
    assert_eq!(Comparison::LT.to_string(), "lt");
}

#[test]
fn segment_to_string_is_its_keyword() {
    assert_eq!(MemSegment::Local.to_string(), "local");
    assert_eq!(MemSegment::Argument.to_string(), "argument");
    assert_eq!(MemSegment::This.to_string(), "this");
    assert_eq!(MemSegment::That.to_string(), "that");
    assert_eq!(MemSegment::Constant.to_string(), "constant");
    assert_eq!(MemSegment::Static.to_string(), "static");
    assert_eq!(MemSegment::Pointer.to_string(), "pointer");
    assert_eq!(MemSegment::Temp.to_string(), "temp");
}

#[test]
fn command_to_string_is_its_source_line() {
    assert_eq!(VmCommand::Add.to_string(), "add");
    assert_eq!(VmCommand::Sub.to_string(), "sub");
    assert_eq!(VmCommand::Neg.to_string(), "neg");
    assert_eq!(VmCommand::Compare(Comparison::GT).to_string(), "gt");
    assert_eq!(VmCommand::And.to_string(), "and");
    assert_eq!(VmCommand::Or.to_string(), "or");
    assert_eq!(VmCommand::Not.to_string(), "not");
    assert_eq!(VmCommand::Push(MemSegment::Constant, 7).to_string(), "push constant 7");
    assert_eq!(VmCommand::Pop(MemSegment::Local, 65535).to_string(), "pop local 65535");
    assert_eq!(VmCommand::Label("LOOP").to_string(), "label LOOP");
    assert_eq!(VmCommand::Goto("END").to_string(), "goto END");
    assert_eq!(VmCommand::IfGoto("LOOP").to_string(), "if-goto LOOP");
    assert_eq!(VmCommand::Function("Main.main", 2).to_string(), "function Main.main 2");
    assert_eq!(VmCommand::Call("Math.max", 0).to_string(), "call Math.max 0");
    assert_eq!(VmCommand::Return.to_string(), "return");
}

#[test]
fn parts_of_an_instruction_have_their_mnemonics() {
    assert_eq!(Dest::Null.as_str(), "");
    assert_eq!(Dest::M.as_str(), "M=");
    assert_eq!(Dest::D.as_str(), "D=");
    assert_eq!(Dest::MD.as_str(), "MD=");
    assert_eq!(Dest::A.as_str(), "A=");
    assert_eq!(Dest::AM.as_str(), "AM=");
    assert_eq!(Dest::AD.as_str(), "AD=");
    assert_eq!(Dest::AMD.as_str(), "AMD=");
    assert_eq!(Jump::Null.as_str(), "");
    assert_eq!(Jump::JGT.as_str(), ";JGT");
    assert_eq!(Jump::JEQ.as_str(), ";JEQ");
    assert_eq!(Jump::JGE.as_str(), ";JGE");
    assert_eq!(Jump::JLT.as_str(), ";JLT");
    assert_eq!(Jump::JNE.as_str(), ";JNE");
    assert_eq!(Jump::JLE.as_str(), ";JLE");
    assert_eq!(Jump::JMP.as_str(), ";JMP");
    let comps = [
        (Comp::Zero, "0"),
        (Comp::One, "1"),
        (Comp::MinusOne, "-1"),
        (Comp::D, "D"),
        (Comp::A, "A"),
        (Comp::M, "M"),
        (Comp::NotD, "!D"),
        (Comp::NotA, "!A"),
        (Comp::NotM, "!M"),
        (Comp::NegD, "-D"),
        (Comp::NegA, "-A"),
        (Comp::NegM, "-M"),
        (Comp::DPlusOne, "D+1"),
        (Comp::APlusOne, "A+1"),
        (Comp::MPlusOne, "M+1"),
        (Comp::DMinusOne, "D-1"),
        (Comp::AMinusOne, "A-1"),
        (Comp::MMinusOne, "M-1"),
        (Comp::DPlusA, "D+A"),
        (Comp::DPlusM, "D+M"),
        (Comp::DMinusA, "D-A"),
        (Comp::DMinusM, "D-M"),
        (Comp::AMinusD, "A-D"),
        (Comp::MMinusD, "M-D"),
        (Comp::DAndA, "D&A"),
        (Comp::DAndM, "D&M"),
        (Comp::DOrA, "D|A"),
        (Comp::DOrM, "D|M"),
    ];
    for (comp, text) in comps {
        assert_eq!(comp.as_str(), text);
    }
}

#[test]
fn emitter_writes_one_line_per_call() {
    let mut e = Emitter::new();
    e.comment("a loop");
    e.label("LOOP");
    e.at("17");
    e.assign(Dest::D, Comp::A);
    e.compute(Dest::AMD, Comp::DMinusOne, Jump::JGT);
    e.at("LOOP");
    e.branch(Comp::Zero, Jump::JMP);
    assert_eq!(
        e.finish(),
        "// a loop\n(LOOP)\n    @17\n    D=A\n    AMD=D-1;JGT\n    @LOOP\n    0;JMP\n"
    );
    assert_eq!(Emitter::new().finish(), "");
}
