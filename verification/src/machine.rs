//! What a listing does when the target machine runs it.
//!
//! The machine has two 16-bit registers, `A` and `D`, and a memory of 32768
//! 16-bit cells.  `M` is the cell that `A` addresses.  A listing is run line
//! by line; a label or a comment line does nothing, and the address of a
//! label is the position of its line in the listing.

use vstd::prelude::*;

use crate::assembly::{Comp, Instr, Jump};
use crate::decimal::{is_numeral, numeral_value};

verus! {

/// The state of the machine.
pub struct Machine {
    /// The position in the listing of the line to run next.
    pub pc: int,
    pub a: u16,
    pub d: u16,
    /// The memory, by address.
    pub ram: Map<int, u16>,
}

impl Machine {
    /// The stack pointer: the address just above the top of the stack.  It is
    /// kept in cell 0.
    pub open spec fn sp(self) -> u16 {
        self.ram[0]
    }

    /// The base of the `local` segment, kept in cell 1.
    pub open spec fn lcl(self) -> u16 {
        self.ram[1]
    }

    /// The base of the `argument` segment, kept in cell 2.
    pub open spec fn arg(self) -> u16 {
        self.ram[2]
    }

    /// The base of the `this` segment, kept in cell 3.
    pub open spec fn this(self) -> u16 {
        self.ram[3]
    }

    /// The base of the `that` segment, kept in cell 4.
    pub open spec fn that(self) -> u16 {
        self.ram[4]
    }
}

/// What symbols stand for: a memory address for a variable, a position in
/// the listing for a label.
pub type Symbols = Map<Seq<char>, int>;

/// `x` as a 16-bit word.
pub open spec fn wrap(x: int) -> u16 {
    (x % 65536) as u16
}

/// The word `x` read as a signed number.
pub open spec fn signed(x: u16) -> int {
    if x < 32768 {
        x as int
    } else {
        x - 65536
    }
}

/// The address of the cell that the word `x` addresses: its lower fifteen
/// bits.
pub open spec fn cell(x: u16) -> int {
    x as int % 32768
}

/// The value of a computation.
pub open spec fn alu(comp: Comp, a: u16, d: u16, m: u16) -> u16 {
    match comp {
        Comp::Zero => 0,
        Comp::One => 1,
        Comp::MinusOne => 65535,
        Comp::D => d,
        Comp::A => a,
        Comp::M => m,
        Comp::NotD => !d,
        Comp::NotA => !a,
        Comp::NotM => !m,
        Comp::NegD => wrap(-d),
        Comp::NegA => wrap(-a),
        Comp::NegM => wrap(-m),
        Comp::DPlusOne => wrap(d + 1),
        Comp::APlusOne => wrap(a + 1),
        Comp::MPlusOne => wrap(m + 1),
        Comp::DMinusOne => wrap(d - 1),
        Comp::AMinusOne => wrap(a - 1),
        Comp::MMinusOne => wrap(m - 1),
        Comp::DPlusA => wrap(d + a),
        Comp::DPlusM => wrap(d + m),
        Comp::DMinusA => wrap(d - a),
        Comp::DMinusM => wrap(d - m),
        Comp::AMinusD => wrap(a - d),
        Comp::MMinusD => wrap(m - d),
        Comp::DAndA => d & a,
        Comp::DAndM => d & m,
        Comp::DOrA => d | a,
        Comp::DOrM => d | m,
    }
}

/// Whether a jump is taken on the computed value `v`.
pub open spec fn jumps(jump: Jump, v: u16) -> bool {
    match jump {
        Jump::Null => false,
        Jump::JGT => signed(v) > 0,
        Jump::JEQ => v == 0,
        Jump::JGE => signed(v) >= 0,
        Jump::JLT => signed(v) < 0,
        Jump::JNE => v != 0,
        Jump::JLE => signed(v) <= 0,
        Jump::JMP => true,
    }
}

/// What `@operand` loads: the number, where the operand is a numeral, and
/// what the symbol stands for, where it is not.
pub open spec fn operand_address(symbols: Symbols, operand: Seq<char>) -> int {
    if is_numeral(operand) {
        numeral_value(operand) as int
    } else {
        symbols[operand]
    }
}

/// `@operand` can be encoded: what it loads has fifteen bits.
pub open spec fn loadable(symbols: Symbols, operand: Seq<char>) -> bool {
    0 <= operand_address(symbols, operand) < 32768
}

/// The state after the line at `s.pc` has run.
///
/// A compute instruction reads `A`, `D` and `M` as they are before it, stores
/// the value in each register that its destination names, and jumps to the
/// address that `A` held before it where its condition holds of the value.
/// Nothing is said of a program counter outside the listing, nor of an
/// `@operand` that cannot be encoded.
pub open spec fn step(code: Seq<Instr>, symbols: Symbols, s: Machine) -> Machine {
    match code[s.pc] {
        Instr::At(operand) => Machine {
            pc: s.pc + 1,
            a: operand_address(symbols, operand) as u16,
            ..s
        },
        Instr::Compute(dest, comp, jump) => {
            let v = alu(comp, s.a, s.d, s.ram[cell(s.a)]);
            Machine {
                pc: if jumps(jump, v) {
                    s.a as int
                } else {
                    s.pc + 1
                },
                a: if dest.writes_a() {
                    v
                } else {
                    s.a
                },
                d: if dest.writes_d() {
                    v
                } else {
                    s.d
                },
                ram: if dest.writes_m() {
                    s.ram.insert(cell(s.a), v)
                } else {
                    s.ram
                },
            }
        },
        Instr::Label(_) => Machine { pc: s.pc + 1, ..s },
        Instr::Comment(_) => Machine { pc: s.pc + 1, ..s },
    }
}

/// The state after `n` lines have run.
pub open spec fn run(code: Seq<Instr>, symbols: Symbols, s: Machine, n: nat) -> Machine
    decreases n,
{
    if n == 0 {
        s
    } else {
        run(code, symbols, step(code, symbols, s), (n - 1) as nat)
    }
}

/// The lines of `fragment` stand in `code` from position `at` on.
pub open spec fn placed(code: Seq<Instr>, at: int, fragment: Seq<Instr>) -> bool {
    &&& 0 <= at
    &&& at + fragment.len() <= code.len()
    &&& forall|j: int| at <= j < at + fragment.len() ==> #[trigger] code[j] == fragment[j - at]
}

/// The symbols that the machine defines stand for their addresses.
pub open spec fn registers_resolve(symbols: Symbols) -> bool {
    &&& symbols["SP"@] == 0
    &&& symbols["LCL"@] == 1
    &&& symbols["ARG"@] == 2
    &&& symbols["THIS"@] == 3
    &&& symbols["THAT"@] == 4
    &&& symbols["R13"@] == 13
    &&& symbols["R14"@] == 14
}

/// Running `m + n` lines is running `m` lines and `n` more.
pub proof fn lemma_run_split(code: Seq<Instr>, symbols: Symbols, s: Machine, m: nat, n: nat)
    ensures
        run(code, symbols, s, m + n) == run(code, symbols, run(code, symbols, s, m), n),
    decreases m,
{
    if m > 0 {
        lemma_run_split(code, symbols, step(code, symbols, s), (m - 1) as nat, n);
    }
}

/// Where two fragments stand end to end, each of them stands.
pub proof fn lemma_placed_concat(
    code: Seq<Instr>,
    at: int,
    first: Seq<Instr>,
    second: Seq<Instr>,
)
    requires
        placed(code, at, first + second),
    ensures
        placed(code, at, first),
        placed(code, at + first.len(), second),
{
    assert forall|j: int| at <= j < at + first.len() implies #[trigger] code[j] == first[j
        - at] by {
        assert((first + second)[j - at] == first[j - at]);
    }
    assert forall|j: int|
        at + first.len() <= j < at + first.len() + second.len() implies #[trigger] code[j]
        == second[j - (at + first.len())] by {
        assert((first + second)[j - at] == second[j - at - first.len()]);
    }
}

/// What the machine's own symbols load.
pub proof fn lemma_register_addresses(symbols: Symbols)
    requires
        registers_resolve(symbols),
    ensures
        operand_address(symbols, "SP"@) == 0,
        operand_address(symbols, "LCL"@) == 1,
        operand_address(symbols, "ARG"@) == 2,
        operand_address(symbols, "THIS"@) == 3,
        operand_address(symbols, "THAT"@) == 4,
        operand_address(symbols, "R13"@) == 13,
        operand_address(symbols, "R14"@) == 14,
{
    reveal_strlit("SP");
    reveal_strlit("LCL");
    reveal_strlit("ARG");
    reveal_strlit("THIS");
    reveal_strlit("THAT");
    reveal_strlit("R13");
    reveal_strlit("R14");
    assert(!is_numeral("SP"@)) by {
        assert("SP"@[0] == 'S');
    }
    assert(!is_numeral("LCL"@)) by {
        assert("LCL"@[0] == 'L');
    }
    assert(!is_numeral("ARG"@)) by {
        assert("ARG"@[0] == 'A');
    }
    assert(!is_numeral("THIS"@)) by {
        assert("THIS"@[0] == 'T');
    }
    assert(!is_numeral("THAT"@)) by {
        assert("THAT"@[0] == 'T');
    }
    assert(!is_numeral("R13"@)) by {
        assert("R13"@[0] == 'R');
    }
    assert(!is_numeral("R14"@)) by {
        assert("R14"@[0] == 'R');
    }
}

/// The address of the topmost cell of the stack.
pub open spec fn top_cell(s: Machine) -> int {
    cell(wrap(s.sp() - 1))
}

/// The stack lies above the machine's sixteen registers, holds at least
/// `depth` cells there, and has room for `room` more.
pub open spec fn stack_ok(s: Machine, depth: nat, room: nat) -> bool {
    16 + depth <= s.sp() && s.sp() + room <= 32768
}

/// The word that stands for a truth value: all bits set for true, none for
/// false.
pub open spec fn truth_word(b: bool) -> u16 {
    if b {
        65535
    } else {
        0
    }
}

/// The symbols are those of the listing: the machine's own symbols stand
/// for their addresses, every label stands for the position of its line,
/// and the listing fits the program memory.
pub open spec fn assembled(code: Seq<Instr>, symbols: Symbols) -> bool {
    &&& registers_resolve(symbols)
    &&& code.len() <= 32768
    &&& forall|i: int|
        0 <= i < code.len() ==> (#[trigger] code[i] matches Instr::Label(name)
            ==> operand_address(symbols, name) == i)
}

/// What a label of an assembled listing loads.
pub proof fn lemma_label_address(code: Seq<Instr>, symbols: Symbols, i: int, name: Seq<char>)
    requires
        assembled(code, symbols),
        0 <= i < code.len(),
        code[i] == Instr::Label(name),
    ensures
        operand_address(symbols, name) == i,
        loadable(symbols, name),
{
}

/// `name` is one of the machine's own symbols: `SP`, `LCL`, `ARG`, `THIS`,
/// `THAT`, `R0` to `R15`, `SCREEN` and `KBD`.
pub open spec fn is_register(name: Seq<char>) -> bool {
    ||| name == "SP"@
    ||| name == "LCL"@
    ||| name == "ARG"@
    ||| name == "THIS"@
    ||| name == "THAT"@
    ||| name == "R13"@
    ||| name == "R14"@
    ||| name == "R0"@
    ||| name == "R1"@
    ||| name == "R2"@
    ||| name == "R3"@
    ||| name == "R4"@
    ||| name == "R5"@
    ||| name == "R6"@
    ||| name == "R7"@
    ||| name == "R8"@
    ||| name == "R9"@
    ||| name == "R10"@
    ||| name == "R11"@
    ||| name == "R12"@
    ||| name == "R15"@
    ||| name == "SCREEN"@
    ||| name == "KBD"@
}

/// The address of one of the machine's own symbols.
pub open spec fn register_address(name: Seq<char>) -> int
    recommends
        is_register(name),
{
    if name == "SP"@ {
        0
    } else if name == "LCL"@ {
        1
    } else if name == "ARG"@ {
        2
    } else if name == "THIS"@ {
        3
    } else if name == "THAT"@ {
        4
    } else if name == "R13"@ {
        13
    } else if name == "R14"@ {
        14
    } else if name == "R0"@ {
        0
    } else if name == "R1"@ {
        1
    } else if name == "R2"@ {
        2
    } else if name == "R3"@ {
        3
    } else if name == "R4"@ {
        4
    } else if name == "R5"@ {
        5
    } else if name == "R6"@ {
        6
    } else if name == "R7"@ {
        7
    } else if name == "R8"@ {
        8
    } else if name == "R9"@ {
        9
    } else if name == "R10"@ {
        10
    } else if name == "R11"@ {
        11
    } else if name == "R12"@ {
        12
    } else if name == "R15"@ {
        15
    } else if name == "SCREEN"@ {
        16384
    } else {
        24576
    }
}

/// The labels of a listing can be told apart: no label stands on two
/// lines, and none is a numeral or one of the machine's own symbols.
pub open spec fn labels_are_distinct(code: Seq<Instr>) -> bool {
    forall|i: int, j: int|
        0 <= i < code.len() && 0 <= j < code.len() ==> (#[trigger] code[i] matches Instr::Label(
            name,
        ) ==> !is_numeral(name) && !is_register(name) && (#[trigger] code[j] == code[i] ==> i
            == j))
}

/// The position of the line that holds the label `name`.
pub open spec fn label_position(code: Seq<Instr>, name: Seq<char>) -> int {
    choose|i: int| 0 <= i < code.len() && code[i] == Instr::Label(name)
}

/// The symbols of a listing, as far as they stand for the machine's own
/// cells and for labels.
pub open spec fn symbols_of(code: Seq<Instr>) -> Symbols {
    Map::new(
        |name: Seq<char>| true,
        |name: Seq<char>|
            if is_register(name) {
                register_address(name)
            } else {
                label_position(code, name)
            },
    )
}

/// A listing that fits the program memory and whose labels can be told
/// apart has symbols.
pub proof fn lemma_symbols_exist(code: Seq<Instr>)
    requires
        code.len() <= 32768,
        labels_are_distinct(code),
    ensures
        assembled(code, symbols_of(code)),
{
    let symbols = symbols_of(code);
    reveal_strlit("SP");
    reveal_strlit("LCL");
    reveal_strlit("ARG");
    reveal_strlit("THIS");
    reveal_strlit("THAT");
    reveal_strlit("R13");
    reveal_strlit("R14");
    assert("LCL"@[0] != "SP"@[0]);
    assert("ARG"@[0] != "LCL"@[0]);
    assert("THIS"@[0] != "ARG"@[0]);
    assert("THAT"@[2] != "THIS"@[2]);
    assert("R13"@[0] != "THIS"@[0]);
    assert("R14"@[2] != "R13"@[2]);
    assert(registers_resolve(symbols));
    assert forall|i: int| 0 <= i < code.len() implies (#[trigger] code[i] matches Instr::Label(
        name,
    ) ==> operand_address(symbols, name) == i) by {
        if let Instr::Label(name) = code[i] {
            let j = label_position(code, name);
            assert(0 <= j < code.len() && code[j] == code[i]);
        }
    }
}

} // verus!
