use vm_translator::parser::{is_blank, parse, strip_comment, ParseError};
use vm_translator::{Comparison, MemSegment, VmCommand};

#[test]
fn parses_arithmetic_commands() {
    assert_eq!(parse("add"), Ok(VmCommand::Add));
    assert_eq!(parse("sub"), Ok(VmCommand::Sub));
    assert_eq!(parse("neg"), Ok(VmCommand::Neg));
    assert_eq!(parse("and"), Ok(VmCommand::And));
    assert_eq!(parse("or"), Ok(VmCommand::Or));
    assert_eq!(parse("not"), Ok(VmCommand::Not));
}

#[test]
fn parses_comparisons_and_return() {
    assert_eq!(parse("eq"), Ok(VmCommand::Compare(Comparison::Eq)));
    assert_eq!(parse("gt"), Ok(VmCommand::Compare(Comparison::GT)));
    assert_eq!(parse("lt"), Ok(VmCommand::Compare(Comparison::LT)));
    assert_eq!(parse("return"), Ok(VmCommand::Return));
}

#[test]
fn parses_branching_commands() {
    assert_eq!(parse("label LOOP"), Ok(VmCommand::Label("LOOP")));
    assert_eq!(parse("goto END"), Ok(VmCommand::Goto("END")));
    assert_eq!(parse("if-goto LOOP_START"), Ok(VmCommand::IfGoto("LOOP_START")));
}

#[test]
fn parses_push_of_every_segment() {
    assert_eq!(parse("push local 0"), Ok(VmCommand::Push(MemSegment::Local, 0)));
    assert_eq!(parse("push argument 1"), Ok(VmCommand::Push(MemSegment::Argument, 1)));
    assert_eq!(parse("push this 2"), Ok(VmCommand::Push(MemSegment::This, 2)));
    assert_eq!(parse("push that 3"), Ok(VmCommand::Push(MemSegment::That, 3)));
    assert_eq!(parse("push constant 17"), Ok(VmCommand::Push(MemSegment::Constant, 17)));
    assert_eq!(parse("push static 4"), Ok(VmCommand::Push(MemSegment::Static, 4)));
    assert_eq!(parse("push pointer 1"), Ok(VmCommand::Push(MemSegment::Pointer, 1)));
    assert_eq!(parse("push temp 6"), Ok(VmCommand::Push(MemSegment::Temp, 6)));
}

#[test]
fn parses_pop_of_every_segment_but_constant() {
    assert_eq!(parse("pop local 0"), Ok(VmCommand::Pop(MemSegment::Local, 0)));
    assert_eq!(parse("pop argument 1"), Ok(VmCommand::Pop(MemSegment::Argument, 1)));
    assert_eq!(parse("pop this 2"), Ok(VmCommand::Pop(MemSegment::This, 2)));
    assert_eq!(parse("pop that 3"), Ok(VmCommand::Pop(MemSegment::That, 3)));
    assert_eq!(parse("pop static 4"), Ok(VmCommand::Pop(MemSegment::Static, 4)));
    assert_eq!(parse("pop pointer 0"), Ok(VmCommand::Pop(MemSegment::Pointer, 0)));
    assert_eq!(parse("pop temp 7"), Ok(VmCommand::Pop(MemSegment::Temp, 7)));
    assert_eq!(parse("pop constant 5"), Err(ParseError::UnknownCommand));
}

#[test]
fn parses_function_and_call() {
    assert_eq!(parse("function Main.fibonacci 0"), Ok(VmCommand::Function("Main.fibonacci", 0)));
    assert_eq!(parse("call Sys.init 0"), Ok(VmCommand::Call("Sys.init", 0)));
    assert_eq!(parse("call Math.multiply 2"), Ok(VmCommand::Call("Math.multiply", 2)));
}

#[test]
fn splits_at_any_white_space() {
    assert_eq!(parse("  push   constant\t7  "), Ok(VmCommand::Push(MemSegment::Constant, 7)));
    assert_eq!(parse("label\u{a0}X"), Ok(VmCommand::Label("X")));
    assert_eq!(parse("goto\u{3000}caf\u{e9}"), Ok(VmCommand::Goto("caf\u{e9}")));
    assert_eq!(parse("\u{2003}add\u{2028}"), Ok(VmCommand::Add));
    assert_eq!(parse("\u{85}not\u{1680}"), Ok(VmCommand::Not));
}

#[test]
fn operand_covers_all_sixteen_bits() {
    assert_eq!(parse("push constant 65535"), Ok(VmCommand::Push(MemSegment::Constant, 65535)));
    assert_eq!(parse("push constant 32768"), Ok(VmCommand::Push(MemSegment::Constant, 32768)));
    assert_eq!(parse("push constant +12"), Ok(VmCommand::Push(MemSegment::Constant, 12)));
    assert_eq!(parse("push constant 0007"), Ok(VmCommand::Push(MemSegment::Constant, 7)));
    assert_eq!(
        parse("push constant 000000000000000000000000065535"),
        Ok(VmCommand::Push(MemSegment::Constant, 65535))
    );
}

// Offsets and counts are never negative, but a negative literal is taken
// for the bit pattern that it has as a 16-bit number.
#[test]
fn negative_operand_is_read_as_twos_complement() {
    assert_eq!(parse("push constant -1"), Ok(VmCommand::Push(MemSegment::Constant, 65535)));
    assert_eq!(parse("push constant -32768"), Ok(VmCommand::Push(MemSegment::Constant, 32768)));
    assert_eq!(parse("pop local -2"), Ok(VmCommand::Pop(MemSegment::Local, 65534)));
    assert_eq!(parse("function f -0"), Ok(VmCommand::Function("f", 0)));
    assert_eq!(parse("call f -3"), Ok(VmCommand::Call("f", 65533)));
}

#[test]
fn rejects_operands_that_are_no_sixteen_bit_numbers() {
    assert_eq!(parse("push constant 65536"), Err(ParseError::InvalidOperand));
    assert_eq!(parse("push constant -32769"), Err(ParseError::InvalidOperand));
    assert_eq!(parse("push constant x"), Err(ParseError::InvalidOperand));
    assert_eq!(parse("push constant 1x"), Err(ParseError::InvalidOperand));
    assert_eq!(parse("push constant +"), Err(ParseError::InvalidOperand));
    assert_eq!(parse("push constant -"), Err(ParseError::InvalidOperand));
    assert_eq!(parse("push constant +-1"), Err(ParseError::InvalidOperand));
    assert_eq!(parse("push constant 99999999999999999999"), Err(ParseError::InvalidOperand));
    assert_eq!(parse("push constant \u{661}"), Err(ParseError::InvalidOperand));
}

#[test]
fn operand_is_checked_before_the_keywords() {
    assert_eq!(parse("foo bar baz"), Err(ParseError::InvalidOperand));
    assert_eq!(parse("pop constant x"), Err(ParseError::InvalidOperand));
    assert_eq!(parse("foo bar 3"), Err(ParseError::UnknownCommand));
}

#[test]
fn rejects_unknown_words() {
    assert_eq!(parse("mul"), Err(ParseError::UnknownCommand));
    assert_eq!(parse("ADD"), Err(ParseError::UnknownCommand));
    assert_eq!(parse("jump X"), Err(ParseError::UnknownCommand));
    assert_eq!(parse("push heap 3"), Err(ParseError::UnknownCommand));
    assert_eq!(parse("label X 3"), Err(ParseError::UnknownCommand));
    assert_eq!(parse("return 1"), Err(ParseError::UnknownCommand));
}

#[test]
fn rejects_wrong_word_counts() {
    assert_eq!(parse(""), Err(ParseError::MalformedCommand));
    assert_eq!(parse("   "), Err(ParseError::MalformedCommand));
    assert_eq!(parse("push constant 1 2"), Err(ParseError::MalformedCommand));
    assert_eq!(parse("a b c d e"), Err(ParseError::MalformedCommand));
}

#[test]
fn errors_say_what_is_wrong() {
    assert_eq!(ParseError::UnknownCommand.message(), "no such command");
    assert_eq!(ParseError::MalformedCommand.message(), "not a valid VM command");
    assert_eq!(ParseError::InvalidOperand.message(), "operand is not a valid 16 bit integer");
}

#[test]
fn comment_starts_at_the_first_two_slashes() {
    assert_eq!(strip_comment("push constant 7 // seven"), "push constant 7 ");
    assert_eq!(strip_comment("// only a comment"), "");
    assert_eq!(strip_comment("add//x//y"), "add");
    assert_eq!(strip_comment("add"), "add");
    assert_eq!(strip_comment("a / b"), "a / b");
    assert_eq!(strip_comment("a /"), "a /");
    assert_eq!(strip_comment("/"), "/");
    assert_eq!(strip_comment("//"), "");
    assert_eq!(strip_comment("a ///"), "a ");
    assert_eq!(strip_comment(""), "");
    assert_eq!(strip_comment("caf\u{e9} // \u{e9}"), "caf\u{e9} ");
}

#[test]
fn blank_lines_hold_only_white_space() {
    assert!(is_blank(""));
    assert!(is_blank("   "));
    assert!(is_blank(" \t\r\n\u{a0}\u{2003}\u{3000}"));
    assert!(!is_blank(" a "));
    assert!(!is_blank("/"));
    assert!(!is_blank("\u{200b}"));
}

#[test]
fn source_lines_are_read_without_their_comments() {
    let line = "   push local 2   // the counter";
    let code = strip_comment(line);
    assert!(!is_blank(code));
    assert_eq!(parse(code), Ok(VmCommand::Push(MemSegment::Local, 2)));
    assert!(is_blank(strip_comment("   // nothing here")));
}

#[test]
fn white_space_is_what_the_standard_library_says() {
    for code in 0..=0x10ffffu32 {
        if let Some(c) = char::from_u32(code) {
            let mut text = String::new();
            text.push(c);
            assert_eq!(is_blank(&text), c.is_whitespace(), "U+{:04X}", code);
        }
    }
}

#[test]
fn words_are_what_the_standard_library_splits() {
    let lines = [
        "push constant 7",
        "  push\tconstant\u{a0}7\r\n",
        "label\u{2003}\u{2003}X",
        "\u{3000}goto\u{1680}Y\u{2029}",
        "a\u{200b}b c",
        "function\u{85}f\u{202f}3",
    ];
    for line in lines {
        let words: Vec<&str> = line.split_whitespace().collect();
        let joined = words.join(" ");
        assert_eq!(parse(line), parse(&joined));
    }
    assert_eq!(parse("  push\tconstant\u{a0}7\r\n"), Ok(VmCommand::Push(MemSegment::Constant, 7)));
    assert_eq!(parse("label a\u{200b}b"), Ok(VmCommand::Label("a\u{200b}b")));
}

fn expected_operand(word: &str) -> Option<u16> {
    match (word.parse::<u16>(), word.parse::<i16>()) {
        (Ok(x), _) => Some(x),
        (Err(_), Ok(y)) => Some(y as u16),
        _ => None,
    }
}

#[test]
fn operands_are_what_the_standard_library_parses() {
    let mut words: Vec<String> = Vec::new();
    for n in -40000i32..70000 {
        if n % 7 == 0 || n.abs() < 300 || (n.abs() - 32768).abs() < 300 || (n - 65536).abs() < 300 {
            words.push(format!("{}", n));
            words.push(format!("+{}", n));
            words.push(format!("000{}", n));
            words.push(format!("{}0", n));
        }
    }
    for extra in ["+", "-", "--1", "++1", "+-1", "-+1", "1-", "1+", "0x10", "1e3", "1_000", "١٢", "１２", "1.0", "-0", "+0", "00", "-00000", "+00065535", "-0032768"] {
        words.push(extra.to_string());
    }
    for word in &words {
        let line = format!("call f {}", word);
        let expected = match expected_operand(word) {
            Some(n) => Ok(VmCommand::Call("f", n)),
            None => Err(ParseError::InvalidOperand),
        };
        assert_eq!(parse(&line), expected, "{}", word);
    }
}

#[test]
fn comments_are_cut_where_the_standard_library_finds_them() {
    let lines = [
        "push constant 7 // seven",
        "// x",
        "a/b//c",
        "a / / b",
        "",
        "/",
        "//",
        "///",
        "caf\u{e9}//\u{e9}",
        "\u{1f600}/\u{1f600}//\u{1f600}",
        "no comment here",
    ];
    for line in lines {
        let expected = line.find("//").map(|i| &line[..i]).unwrap_or(line);
        assert_eq!(strip_comment(line), expected);
        assert_eq!(is_blank(strip_comment(line)), expected.trim().is_empty());
    }
}
