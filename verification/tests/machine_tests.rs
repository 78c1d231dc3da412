//! Runs generated programs on a small model of the target machine: a
//! two-pass assembler and the processor's fetch-and-execute step.

use std::collections::HashMap;

use vm_translator::code_writer::CodeWriter;
use vm_translator::parser::parse;

enum Op {
    Load(u16),
    Compute { dest: String, comp: String, jump: String },
}

struct Cpu {
    rom: Vec<Op>,
    labels: HashMap<String, u16>,
    pc: usize,
    a: u16,
    d: u16,
    ram: Vec<u16>,
}

fn predefined() -> HashMap<String, u16> {
    let mut table: HashMap<String, u16> = HashMap::new();
    table.insert("SP".to_string(), 0);
    table.insert("LCL".to_string(), 1);
    table.insert("ARG".to_string(), 2);
    table.insert("THIS".to_string(), 3);
    table.insert("THAT".to_string(), 4);
    for i in 0..16u16 {
        table.insert(format!("R{}", i), i);
    }
    table.insert("SCREEN".to_string(), 16384);
    table.insert("KBD".to_string(), 24576);
    table
}

fn assemble(text: &str) -> Cpu {
    let mut table = predefined();
    let mut labels: HashMap<String, u16> = HashMap::new();
    let mut count: u16 = 0;
    for raw in text.lines() {
        let line = raw.trim();
        if line.is_empty() || line.starts_with("//") {
            continue;
        }
        if line.starts_with('(') {
            let name = line[1..line.len() - 1].to_string();
            assert!(!table.contains_key(&name), "label {} is defined twice", name);
            table.insert(name.clone(), count);
            labels.insert(name, count);
        } else {
            count += 1;
        }
    }
    let mut rom: Vec<Op> = Vec::new();
    let mut next_variable: u16 = 16;
    for raw in text.lines() {
        let line = raw.trim();
        if line.is_empty() || line.starts_with("//") || line.starts_with('(') {
            continue;
        }
        if let Some(operand) = line.strip_prefix('@') {
            let value = if operand.starts_with(|c: char| c.is_ascii_digit()) {
                let n: u16 = operand.parse().unwrap();
                assert!(n < 32768);
                n
            } else if let Some(v) = table.get(operand) {
                *v
            } else {
                let v = next_variable;
                table.insert(operand.to_string(), v);
                next_variable += 1;
                v
            };
            rom.push(Op::Load(value));
        } else {
            let (dest, rest) = match line.split_once('=') {
                Some((d, r)) => (d.to_string(), r),
                None => (String::new(), line),
            };
            let (comp, jump) = match rest.split_once(';') {
                Some((c, j)) => (c.to_string(), j.to_string()),
                None => (rest.to_string(), String::new()),
            };
            rom.push(Op::Compute { dest, comp, jump });
        }
    }
    Cpu { rom, labels, pc: 0, a: 0, d: 0, ram: vec![0; 32768] }
}

fn alu(comp: &str, a: u16, d: u16, m: u16) -> u16 {
    match comp {
        "0" => 0,
        "1" => 1,
        "-1" => 0xffff,
        "D" => d,
        "A" => a,
        "M" => m,
        "!D" => !d,
        "!A" => !a,
        "!M" => !m,
        "-D" => d.wrapping_neg(),
        "-A" => a.wrapping_neg(),
        "-M" => m.wrapping_neg(),
        "D+1" => d.wrapping_add(1),
        "A+1" => a.wrapping_add(1),
        "M+1" => m.wrapping_add(1),
        "D-1" => d.wrapping_sub(1),
        "A-1" => a.wrapping_sub(1),
        "M-1" => m.wrapping_sub(1),
        "D+A" => d.wrapping_add(a),
        "D+M" => d.wrapping_add(m),
        "D-A" => d.wrapping_sub(a),
        "D-M" => d.wrapping_sub(m),
        "A-D" => a.wrapping_sub(d),
        "M-D" => m.wrapping_sub(d),
        "D&A" => d & a,
        "D&M" => d & m,
        "D|A" => d | a,
        "D|M" => d | m,
        _ => panic!("no such computation: {}", comp),
    }
}

impl Cpu {
    fn step(&mut self) {
        match &self.rom[self.pc] {
            Op::Load(v) => {
                self.a = *v;
                self.pc += 1;
            }
            Op::Compute { dest, comp, jump } => {
                let address = (self.a & 0x7fff) as usize;
                let v = alu(comp, self.a, self.d, self.ram[address]);
                let signed = v as i16;
                let taken = match jump.as_str() {
                    "" => false,
                    "JGT" => signed > 0,
                    "JEQ" => signed == 0,
                    "JGE" => signed >= 0,
                    "JLT" => signed < 0,
                    "JNE" => signed != 0,
                    "JLE" => signed <= 0,
                    "JMP" => true,
                    _ => panic!("no such jump: {}", jump),
                };
                let target = self.a as usize;
                if dest.contains('M') {
                    self.ram[address] = v;
                }
                if dest.contains('A') {
                    self.a = v;
                }
                if dest.contains('D') {
                    self.d = v;
                }
                self.pc = if taken { target } else { self.pc + 1 };
            }
        }
    }

    /// Runs until the program counter leaves the program.
    fn run_to_end(&mut self) {
        let mut steps = 0;
        while self.pc < self.rom.len() {
            self.step();
            steps += 1;
            assert!(steps < 1_000_000, "the program does not end");
        }
    }

    /// Runs until the program counter reaches the label.
    fn run_to(&mut self, label: &str) {
        let target = self.labels[label] as usize;
        let mut steps = 0;
        while self.pc != target {
            self.step();
            steps += 1;
            assert!(steps < 1_000_000, "the program does not reach {}", label);
        }
    }

    fn top(&self) -> u16 {
        self.ram[self.ram[0] as usize - 1]
    }
}

fn generate(file: &str, bootstrap: bool, lines: &[&str]) -> String {
    let mut writer = CodeWriter::new(file, bootstrap);
    for line in lines {
        writer.generate_code(parse(line).unwrap(), true);
    }
    writer.flush()
}

/// A machine with the stack at 256 and the four segments at 300, 400, 3000
/// and 3010.
fn machine(file: &str, lines: &[&str]) -> Cpu {
    let mut cpu = assemble(&generate(file, false, lines));
    cpu.ram[0] = 256;
    cpu.ram[1] = 300;
    cpu.ram[2] = 400;
    cpu.ram[3] = 3000;
    cpu.ram[4] = 3010;
    cpu
}

fn result_of(lines: &[&str]) -> u16 {
    let mut cpu = machine("Test", lines);
    cpu.run_to_end();
    assert_eq!(cpu.ram[0], 257);
    cpu.top()
}

#[test]
fn seven_plus_eight_is_fifteen() {
    let mut cpu = machine("Test", &["push constant 7", "push constant 8", "add"]);
    cpu.run_to_end();
    assert_eq!(cpu.ram[0], 257);
    assert_eq!(cpu.ram[256], 15);
    assert_eq!(cpu.top(), 15);
}

#[test]
fn add_sub_and_neg_wrap_around() {
    for (a, b) in [(0u16, 0u16), (7, 8), (8, 7), (32767, 1), (32767, 32767), (0, 32767), (123, 4567)] {
        let push_a = format!("push constant {}", a);
        let push_b = format!("push constant {}", b);
        assert_eq!(result_of(&[&push_a, &push_b, "add"]), a.wrapping_add(b));
        assert_eq!(result_of(&[&push_a, &push_b, "sub"]), a.wrapping_sub(b));
        assert_eq!(result_of(&[&push_a, "neg"]), a.wrapping_neg());
    }
    assert_eq!(result_of(&["push constant 0", "push constant 1", "sub"]), 65535);
    assert_eq!(result_of(&["push constant 1", "neg"]), 65535);
}

#[test]
fn and_or_and_not_work_bit_by_bit() {
    assert_eq!(result_of(&["push constant 12", "push constant 10", "and"]), 8);
    assert_eq!(result_of(&["push constant 12", "push constant 10", "or"]), 14);
    assert_eq!(result_of(&["push constant 0", "not"]), 65535);
    assert_eq!(result_of(&["push constant 21845", "not"]), 43690);
}

#[test]
fn comparisons_leave_all_ones_or_zero() {
    let values = [0u16, 1, 7, 8, 100, 32766, 32767];
    for a in values {
        for b in values {
            let push_a = format!("push constant {}", a);
            let push_b = format!("push constant {}", b);
            let truth = |holds: bool| if holds { 65535u16 } else { 0 };
            assert_eq!(result_of(&[&push_a, &push_b, "eq"]), truth(a == b));
            assert_eq!(result_of(&[&push_a, &push_b, "gt"]), truth(a > b));
            assert_eq!(result_of(&[&push_a, &push_b, "lt"]), truth(a < b));
        }
    }
}

#[test]
fn comparisons_of_negative_numbers_are_signed() {
    assert_eq!(result_of(&["push constant 1", "neg", "push constant 1", "lt"]), 65535);
    assert_eq!(result_of(&["push constant 1", "neg", "push constant 1", "gt"]), 0);
    assert_eq!(result_of(&["push constant 2", "neg", "push constant 2", "neg", "eq"]), 65535);
}

#[test]
fn several_comparisons_in_one_program_do_not_disturb_each_other() {
    let mut cpu = machine(
        "Test",
        &[
            "push constant 3",
            "push constant 3",
            "eq",
            "push constant 4",
            "push constant 5",
            "gt",
            "push constant 4",
            "push constant 5",
            "lt",
        ],
    );
    cpu.run_to_end();
    assert_eq!(cpu.ram[0], 259);
    assert_eq!(&cpu.ram[256..259], &[65535, 0, 65535]);
}

#[test]
fn push_then_pop_of_an_indirect_segment_changes_nothing() {
    for (segment, base) in [("local", 300usize), ("argument", 400), ("this", 3000), ("that", 3010)] {
        for n in [0usize, 1, 5] {
            let push = format!("push {} {}", segment, n);
            let pop = format!("pop {} {}", segment, n);
            let mut cpu = machine("Test", &[&push, &pop]);
            for i in 0..8 {
                cpu.ram[base + i] = 1000 + i as u16;
            }
            let before = cpu.ram.clone();
            cpu.run_to_end();
            assert_eq!(cpu.ram[0], 256);
            assert_eq!(cpu.ram[base + n], 1000 + n as u16);
            for address in 0..32768 {
                if address != 256 {
                    assert_eq!(cpu.ram[address], before[address]);
                }
            }
            assert_eq!(cpu.ram[256], 1000 + n as u16);
        }
    }
}

#[test]
fn pop_stores_at_the_address_computed_before_the_pop() {
    let mut cpu = machine("Test", &["push constant 99", "pop local 3", "push local 3", "pop that 2"]);
    cpu.run_to_end();
    assert_eq!(cpu.ram[0], 256);
    assert_eq!(cpu.ram[303], 99);
    assert_eq!(cpu.ram[3012], 99);
}

#[test]
fn fixed_segments_sit_at_their_addresses() {
    let mut cpu = machine(
        "Test",
        &[
            "push constant 11",
            "pop temp 0",
            "push constant 12",
            "pop temp 7",
            "push constant 3030",
            "pop pointer 0",
            "push constant 3040",
            "pop pointer 1",
            "push constant 13",
            "pop static 4",
            "push constant 14",
            "pop static 0",
            "push temp 7",
            "push pointer 0",
            "push pointer 1",
            "push static 4",
            "push static 0",
        ],
    );
    cpu.run_to_end();
    assert_eq!(cpu.ram[5], 11);
    assert_eq!(cpu.ram[12], 12);
    assert_eq!(cpu.ram[3], 3030);
    assert_eq!(cpu.ram[4], 3040);
    assert_eq!(cpu.ram[16], 13);
    assert_eq!(cpu.ram[17], 14);
    assert_eq!(cpu.ram[0], 261);
    assert_eq!(&cpu.ram[256..261], &[12, 3030, 3040, 13, 14]);
}

#[test]
fn each_file_has_its_own_static_cells() {
    let mut writer = CodeWriter::new("Program", false);
    writer.set_file_name("One");
    writer.generate_code(parse("push constant 1").unwrap(), false);
    writer.generate_code(parse("pop static 0").unwrap(), false);
    writer.set_file_name("Two");
    writer.generate_code(parse("push constant 2").unwrap(), false);
    writer.generate_code(parse("pop static 0").unwrap(), false);
    writer.set_file_name("One");
    writer.generate_code(parse("push static 0").unwrap(), false);
    let mut cpu = assemble(&writer.flush());
    cpu.ram[0] = 256;
    cpu.run_to_end();
    assert_eq!(cpu.ram[16], 1);
    assert_eq!(cpu.ram[17], 2);
    assert_eq!(cpu.top(), 1);
}

#[test]
fn goto_and_if_goto_jump_within_the_function() {
    // Counts down from 5 and adds up the numbers on the way.
    let mut cpu = machine(
        "Test",
        &[
            "function Main.sum 2",
            "push constant 5",
            "pop local 0",
            "label LOOP",
            "push local 0",
            "push local 1",
            "add",
            "pop local 1",
            "push local 0",
            "push constant 1",
            "sub",
            "pop local 0",
            "push local 0",
            "if-goto LOOP",
            "goto DONE",
            "push constant 999",
            "pop local 1",
            "label DONE",
            "push local 1",
        ],
    );
    cpu.ram[1] = 256;
    cpu.run_to_end();
    assert_eq!(cpu.top(), 15);
    assert_eq!(cpu.ram[0], 259);
}

#[test]
fn function_clears_the_cells_above_the_stack_pointer() {
    for n in [0usize, 1, 2, 7] {
        let line = format!("function Foo {}", n);
        // `LCL` is 300 and not the stack pointer: no call came before.
        let mut cpu = machine("Test", &[&line]);
        for address in 250..320 {
            cpu.ram[address] = 5555;
        }
        let before = cpu.ram.clone();
        cpu.run_to_end();
        assert_eq!(cpu.ram[0] as usize, 256 + n);
        for address in 1..32768 {
            let cleared = 256 <= address && address < 256 + n;
            assert_eq!(cpu.ram[address], if cleared { 0 } else { before[address] });
        }
    }
}

#[test]
fn labels_named_like_the_loop_of_the_entry_code_are_labels_of_their_own() {
    let text = generate(
        "T",
        false,
        &[
            "function Foo 1",
            "label LocalLoop",
            "label LocalLoopEnd",
            "label END_COMP0",
            "push constant 1",
            "push constant 1",
            "eq",
            "call Foo 0",
            "label RETURN",
            "return",
            "function T.ret 0",
            "label 0",
        ],
    );
    // The assembler refuses a label that is defined twice.
    let cpu = assemble(&text);
    assert_eq!(cpu.labels.len(), 14);
    for label in ["Foo$LocalLoop", "Foo$$LocalLoop", "Foo$END_COMP0", "$$END_COMP0", "T$ret$0", "T.ret$0"] {
        assert!(cpu.labels.contains_key(label), "{}", label);
    }
}

#[test]
fn call_points_arg_at_the_pushed_values_whatever_their_number() {
    for k in 0..5usize {
        let mut lines: Vec<String> = Vec::new();
        for i in 0..k {
            lines.push(format!("push constant {}", 70 + i));
        }
        lines.push(format!("call Callee {}", k));
        lines.push("label AFTER".to_string());
        lines.push("goto AFTER".to_string());
        lines.push("function Callee 3".to_string());
        lines.push("label ENTERED".to_string());
        let refs: Vec<&str> = lines.iter().map(|l| l.as_str()).collect();
        let mut cpu = machine("Test", &refs);
        cpu.run_to("Callee$ENTERED");
        let sp_at_call = 256 + k;
        assert_eq!(cpu.ram[2] as usize, 256);
        for i in 0..k {
            assert_eq!(cpu.ram[cpu.ram[2] as usize + i] as usize, 70 + i);
        }
        assert_eq!(cpu.ram[sp_at_call], cpu.labels["Test$ret$0"]);
        assert_eq!(&cpu.ram[sp_at_call + 1..sp_at_call + 5], &[300, 400, 3000, 3010]);
        assert_eq!(cpu.ram[1] as usize, sp_at_call + 5);
        assert_eq!(&cpu.ram[sp_at_call + 5..sp_at_call + 8], &[0, 0, 0]);
        assert_eq!(cpu.ram[0] as usize, sp_at_call + 8);
        assert_eq!(cpu.ram[3], 3000);
        assert_eq!(cpu.ram[4], 3010);
    }
}

#[test]
fn return_gives_the_caller_its_segments_back() {
    let mut cpu = machine(
        "Test",
        &[
            "push constant 1",
            "push constant 2",
            "push constant 3",
            "call Callee 2",
            "label AFTER",
            "goto AFTER",
            "function Callee 1",
            "push constant 5000",
            "pop pointer 0",
            "push constant 5010",
            "pop pointer 1",
            "push argument 0",
            "push argument 1",
            "add",
            "return",
        ],
    );
    cpu.run_to("$Test$$AFTER");
    assert_eq!(&cpu.ram[0..5], &[258, 300, 400, 3000, 3010]);
    assert_eq!(&cpu.ram[256..258], &[1, 5]);
}

#[test]
fn return_without_arguments_keeps_the_return_address() {
    let mut cpu = machine(
        "Test",
        &[
            "call Callee 0",
            "label AFTER",
            "goto AFTER",
            "function Callee 0",
            "push constant 42",
            "return",
        ],
    );
    cpu.run_to("$Test$$AFTER");
    assert_eq!(&cpu.ram[0..5], &[257, 300, 400, 3000, 3010]);
    assert_eq!(cpu.ram[256], 42);
}

#[test]
fn recursion_restores_every_frame() {
    // sum(n) is 0 for n = 0 and sum(n - 1) + 4 * n otherwise, where the four
    // terms n are read after the inner call came back: from `local 0`,
    // `argument 0`, `pointer 0` and `pointer 1`.
    let lines = [
        "function Sys.init 0",
        "push constant 4000",
        "pop pointer 0",
        "push constant 4001",
        "pop pointer 1",
        "push constant 6",
        "call Main.sum 1",
        "label HALT",
        "goto HALT",
        "function Main.sum 1",
        "push argument 0",
        "push constant 0",
        "eq",
        "if-goto BASE",
        "push argument 0",
        "pop local 0",
        "push argument 0",
        "pop pointer 0",
        "push argument 0",
        "pop pointer 1",
        "push argument 0",
        "push constant 1",
        "sub",
        "call Main.sum 1",
        "push local 0",
        "add",
        "push argument 0",
        "add",
        "push pointer 0",
        "add",
        "push pointer 1",
        "add",
        "return",
        "label BASE",
        "push constant 0",
        "return",
    ];
    let mut cpu = assemble(&generate("Main", true, &lines));
    cpu.run_to("Sys.init$HALT");
    assert_eq!(cpu.top(), 4 * (1 + 2 + 3 + 4 + 5 + 6));
    // The stack of `Sys.init`: the frame of the bootstrap call, then the
    // one value that the call left.
    assert_eq!(cpu.ram[0], 256 + 5 + 1);
    assert_eq!(cpu.ram[1], 261);
    assert_eq!(cpu.ram[2], 256);
    assert_eq!(cpu.ram[3], 4000);
    assert_eq!(cpu.ram[4], 4001);
}

#[test]
fn deep_recursion_comes_back() {
    let lines = [
        "function Sys.init 0",
        "push constant 300",
        "call Main.count 1",
        "label HALT",
        "goto HALT",
        "function Main.count 0",
        "push argument 0",
        "if-goto MORE",
        "push constant 0",
        "return",
        "label MORE",
        "push argument 0",
        "push constant 1",
        "sub",
        "call Main.count 1",
        "push constant 1",
        "add",
        "return",
    ];
    let mut cpu = assemble(&generate("Main", true, &lines));
    cpu.run_to("Sys.init$HALT");
    assert_eq!(cpu.top(), 300);
    assert_eq!(&cpu.ram[0..3], &[262, 261, 256]);
}

#[test]
fn function_and_return_without_a_call_refer_to_no_return_label() {
    let text = generate("Test", false, &["function Foo 2", "return"]);
    assert!(!text.contains("$ret$"));
    let cpu = assemble(&text);
    let mut defined: Vec<&String> = cpu.labels.keys().collect();
    defined.sort();
    assert_eq!(defined, ["$$RETURN", "Foo", "Foo$$LocalLoop", "Foo$$LocalLoopEnd"]);
    for raw in text.lines() {
        if let Some(operand) = raw.trim().strip_prefix('@') {
            let known = operand.starts_with(|c: char| c.is_ascii_digit())
                || predefined().contains_key(operand)
                || cpu.labels.contains_key(operand);
            assert!(known, "{} is not defined", operand);
        }
    }
}

#[test]
fn bootstrap_sets_the_stack_and_calls_sys_init() {
    let lines = ["function Sys.init 0", "label HERE", "goto HERE"];
    let mut cpu = assemble(&generate("Program", true, &lines));
    cpu.run_to("Sys.init$HERE");
    assert_eq!(&cpu.ram[0..3], &[261, 261, 256]);
    assert_eq!(cpu.ram[256], cpu.labels["$$BOOTSTRAP"]);
}

#[test]
fn countdown_returns_zero_from_any_depth() {
    let lines = [
        "function Sys.init 0",
        "push constant 1111",
        "push constant 0",
        "call Main.countdown 1",
        "label HALT",
        "goto HALT",
        "function Main.countdown 0",
        "push argument 0",
        "if-goto MORE",
        "push constant 0",
        "return",
        "label MORE",
        "push argument 0",
        "push constant 1",
        "sub",
        "call Main.countdown 1",
        "return",
    ];
    for n in [0u16, 1, 2, 3, 10, 100, 1000] {
        let mut lines = lines;
        let push = format!("push constant {}", n);
        lines[2] = &push;
        let mut cpu = assemble(&generate("Main", true, &lines));
        cpu.ram[3] = 3000;
        cpu.ram[4] = 3010;
        cpu.run_to("Sys.init$HALT");
        // The frame of `Sys.init` starts at 256; its stack holds 1111 and
        // the zero that came back in place of the argument.
        assert_eq!(&cpu.ram[0..5], &[263, 261, 256, 3000, 3010]);
        assert_eq!(&cpu.ram[261..263], &[1111, 0]);
    }
}
