//! The target assembly language: its instructions and their text.
//!
//! A listing is a sequence of [`Instr`].  `render` gives the text of a
//! listing, one line per entry, and [`Emitter`] builds that text while it
//! records which listing the text stands for.

use vstd::prelude::*;
use vstd::string::*;

verus! {

/// The registers that a compute instruction stores its result in.
#[derive(Clone, Copy, Debug, PartialEq, Eq, Structural)]
pub enum Dest {
    Null,
    M,
    D,
    MD,
    A,
    AM,
    AD,
    AMD,
}

/// What a compute instruction computes, over the registers `A` and `D` and
/// the memory cell `M` that `A` addresses.
#[derive(Clone, Copy, Debug, PartialEq, Eq, Structural)]
pub enum Comp {
    Zero,
    One,
    MinusOne,
    D,
    A,
    M,
    NotD,
    NotA,
    NotM,
    NegD,
    NegA,
    NegM,
    DPlusOne,
    APlusOne,
    MPlusOne,
    DMinusOne,
    AMinusOne,
    MMinusOne,
    DPlusA,
    DPlusM,
    DMinusA,
    DMinusM,
    AMinusD,
    MMinusD,
    DAndA,
    DAndM,
    DOrA,
    DOrM,
}

/// The condition, on the computed value read as a signed number, under which
/// a compute instruction jumps to the address held in `A`.
#[derive(Clone, Copy, Debug, PartialEq, Eq, Structural)]
pub enum Jump {
    Null,
    JGT,
    JEQ,
    JGE,
    JLT,
    JNE,
    JLE,
    JMP,
}

/// One line of a listing.
pub enum Instr {
    /// `@operand`: load a constant or the address of a symbol into `A`.
    At(Seq<char>),
    /// `dest=comp;jump`.
    Compute(Dest, Comp, Jump),
    /// `(name)`: marks the place in the listing that `name` stands for.
    Label(Seq<char>),
    /// `// text`.
    Comment(Seq<char>),
}

/// `dest=comp`, without a jump.
pub open spec fn assign(dest: Dest, comp: Comp) -> Instr {
    Instr::Compute(dest, comp, Jump::Null)
}

/// `comp;jump`, storing nothing.
pub open spec fn branch(comp: Comp, jump: Jump) -> Instr {
    Instr::Compute(Dest::Null, comp, jump)
}

impl Dest {
    pub open spec fn writes_a(self) -> bool {
        self == Dest::A || self == Dest::AM || self == Dest::AD || self == Dest::AMD
    }

    pub open spec fn writes_d(self) -> bool {
        self == Dest::D || self == Dest::MD || self == Dest::AD || self == Dest::AMD
    }

    pub open spec fn writes_m(self) -> bool {
        self == Dest::M || self == Dest::MD || self == Dest::AM || self == Dest::AMD
    }

    /// The destination part of an instruction's text, `=` included.
    pub open spec fn text(self) -> Seq<char> {
        match self {
            Dest::Null => ""@,
            Dest::M => "M="@,
            Dest::D => "D="@,
            Dest::MD => "MD="@,
            Dest::A => "A="@,
            Dest::AM => "AM="@,
            Dest::AD => "AD="@,
            Dest::AMD => "AMD="@,
        }
    }

    pub fn as_str(self) -> (s: &'static str)
        ensures
            s@ == self.text(),
    {
        match self {
            Dest::Null => "",
            Dest::M => "M=",
            Dest::D => "D=",
            Dest::MD => "MD=",
            Dest::A => "A=",
            Dest::AM => "AM=",
            Dest::AD => "AD=",
            Dest::AMD => "AMD=",
        }
    }
}

impl Comp {
    /// The computation part of an instruction's text.
    pub open spec fn text(self) -> Seq<char> {
        match self {
            Comp::Zero => "0"@,
            Comp::One => "1"@,
            Comp::MinusOne => "-1"@,
            Comp::D => "D"@,
            Comp::A => "A"@,
            Comp::M => "M"@,
            Comp::NotD => "!D"@,
            Comp::NotA => "!A"@,
            Comp::NotM => "!M"@,
            Comp::NegD => "-D"@,
            Comp::NegA => "-A"@,
            Comp::NegM => "-M"@,
            Comp::DPlusOne => "D+1"@,
            Comp::APlusOne => "A+1"@,
            Comp::MPlusOne => "M+1"@,
            Comp::DMinusOne => "D-1"@,
            Comp::AMinusOne => "A-1"@,
            Comp::MMinusOne => "M-1"@,
            Comp::DPlusA => "D+A"@,
            Comp::DPlusM => "D+M"@,
            Comp::DMinusA => "D-A"@,
            Comp::DMinusM => "D-M"@,
            Comp::AMinusD => "A-D"@,
            Comp::MMinusD => "M-D"@,
            Comp::DAndA => "D&A"@,
            Comp::DAndM => "D&M"@,
            Comp::DOrA => "D|A"@,
            Comp::DOrM => "D|M"@,
        }
    }

    pub fn as_str(self) -> (s: &'static str)
        ensures
            s@ == self.text(),
    {
        match self {
            Comp::Zero => "0",
            Comp::One => "1",
            Comp::MinusOne => "-1",
            Comp::D => "D",
            Comp::A => "A",
            Comp::M => "M",
            Comp::NotD => "!D",
            Comp::NotA => "!A",
            Comp::NotM => "!M",
            Comp::NegD => "-D",
            Comp::NegA => "-A",
            Comp::NegM => "-M",
            Comp::DPlusOne => "D+1",
            Comp::APlusOne => "A+1",
            Comp::MPlusOne => "M+1",
            Comp::DMinusOne => "D-1",
            Comp::AMinusOne => "A-1",
            Comp::MMinusOne => "M-1",
            Comp::DPlusA => "D+A",
            Comp::DPlusM => "D+M",
            Comp::DMinusA => "D-A",
            Comp::DMinusM => "D-M",
            Comp::AMinusD => "A-D",
            Comp::MMinusD => "M-D",
            Comp::DAndA => "D&A",
            Comp::DAndM => "D&M",
            Comp::DOrA => "D|A",
            Comp::DOrM => "D|M",
        }
    }
}

impl Jump {
    /// The jump part of an instruction's text, `;` included.
    pub open spec fn text(self) -> Seq<char> {
        match self {
            Jump::Null => ""@,
            Jump::JGT => ";JGT"@,
            Jump::JEQ => ";JEQ"@,
            Jump::JGE => ";JGE"@,
            Jump::JLT => ";JLT"@,
            Jump::JNE => ";JNE"@,
            Jump::JLE => ";JLE"@,
            Jump::JMP => ";JMP"@,
        }
    }

    pub fn as_str(self) -> (s: &'static str)
        ensures
            s@ == self.text(),
    {
        match self {
            Jump::Null => "",
            Jump::JGT => ";JGT",
            Jump::JEQ => ";JEQ",
            Jump::JGE => ";JGE",
            Jump::JLT => ";JLT",
            Jump::JNE => ";JNE",
            Jump::JLE => ";JLE",
            Jump::JMP => ";JMP",
        }
    }
}

/// The text of one line, with its line break.  Instructions are indented,
/// labels and comments are not.
pub open spec fn line_text(line: Instr) -> Seq<char> {
    match line {
        Instr::At(operand) => "    @"@ + operand + "\n"@,
        Instr::Compute(dest, comp, jump) => "    "@ + dest.text() + comp.text() + jump.text()
            + "\n"@,
        Instr::Label(name) => "("@ + name + ")\n"@,
        Instr::Comment(text) => "// "@ + text + "\n"@,
    }
}

/// The text of a listing: the text of its lines, in order.
pub open spec fn render(code: Seq<Instr>) -> Seq<char>
    decreases code.len(),
{
    if code.len() == 0 {
        Seq::empty()
    } else {
        render(code.drop_last()) + line_text(code.last())
    }
}

/// The text of a listing with one more line.
pub proof fn lemma_render_push(code: Seq<Instr>, line: Instr)
    ensures
        render(code.push(line)) == render(code) + line_text(line),
{
    assert(code.push(line).drop_last() =~= code);
}

/// The text of two listings laid end to end.
pub proof fn lemma_render_concat(first: Seq<Instr>, second: Seq<Instr>)
    ensures
        render(first + second) == render(first) + render(second),
    decreases second.len(),
{
    if second.len() == 0 {
        assert(first + second =~= first);
        assert(render(first) + render(second) =~= render(first));
    } else {
        lemma_render_concat(first, second.drop_last());
        assert((first + second).drop_last() =~= first + second.drop_last());
        assert(render(first + second) =~= render(first) + render(second));
    }
}

/// Builds the text of a listing line by line.
pub struct Emitter {
    text: String,
    lines: Ghost<Seq<Instr>>,
}

impl Emitter {
    /// The text built so far is the text of the recorded listing.
    pub closed spec fn wf(&self) -> bool {
        self.text@ == render(self.lines@)
    }

    /// The listing recorded so far.
    pub closed spec fn code(&self) -> Seq<Instr> {
        self.lines@
    }

    pub fn new() -> (e: Self)
        ensures
            e.wf(),
            e.code() == Seq::<Instr>::empty(),
    {
        Emitter { text: String::new(), lines: Ghost(Seq::empty()) }
    }

    /// Goes on from a text that is known to stand for `code`.
    pub fn resume(text: String, Ghost(code): Ghost<Seq<Instr>>) -> (e: Self)
        requires
            text@ == render(code),
        ensures
            e.wf(),
            e.code() == code,
    {
        Emitter { text, lines: Ghost(code) }
    }

    /// Appends a text that is known to stand for `code`.
    pub fn extend(&mut self, text: &str, Ghost(code): Ghost<Seq<Instr>>)
        requires
            old(self).wf(),
            text@ == render(code),
        ensures
            final(self).wf(),
            final(self).code() == old(self).code() + code,
    {
        self.text.append(text);
        proof {
            lemma_render_concat(self.lines@, code);
            self.lines@ = self.lines@ + code;
        }
    }

    /// Appends `@operand`.
    pub fn at(&mut self, operand: &str)
        requires
            old(self).wf(),
        ensures
            final(self).wf(),
            final(self).code() == old(self).code().push(Instr::At(operand@)),
    {
        self.text.append("    @");
        self.text.append(operand);
        self.text.append("\n");
        proof {
            let line = Instr::At(operand@);
            lemma_render_push(self.lines@, line);
            assert(self.text@ =~= old(self).text@ + line_text(line));
            self.lines@ = self.lines@.push(line);
        }
    }

    /// Appends `dest=comp;jump`.
    pub fn compute(&mut self, dest: Dest, comp: Comp, jump: Jump)
        requires
            old(self).wf(),
        ensures
            final(self).wf(),
            final(self).code() == old(self).code().push(Instr::Compute(dest, comp, jump)),
    {
        self.text.append("    ");
        self.text.append(dest.as_str());
        self.text.append(comp.as_str());
        self.text.append(jump.as_str());
        self.text.append("\n");
        proof {
            let line = Instr::Compute(dest, comp, jump);
            lemma_render_push(self.lines@, line);
            assert(self.text@ =~= old(self).text@ + line_text(line));
            self.lines@ = self.lines@.push(line);
        }
    }

    /// Appends `dest=comp`.
    pub fn assign(&mut self, dest: Dest, comp: Comp)
        requires
            old(self).wf(),
        ensures
            final(self).wf(),
            final(self).code() == old(self).code().push(assign(dest, comp)),
    {
        self.compute(dest, comp, Jump::Null);
    }

    /// Appends `comp;jump`.
    pub fn branch(&mut self, comp: Comp, jump: Jump)
        requires
            old(self).wf(),
        ensures
            final(self).wf(),
            final(self).code() == old(self).code().push(branch(comp, jump)),
    {
        self.compute(Dest::Null, comp, jump);
    }

    /// Appends `(name)`.
    pub fn label(&mut self, name: &str)
        requires
            old(self).wf(),
        ensures
            final(self).wf(),
            final(self).code() == old(self).code().push(Instr::Label(name@)),
    {
        self.text.append("(");
        self.text.append(name);
        self.text.append(")\n");
        proof {
            let line = Instr::Label(name@);
            lemma_render_push(self.lines@, line);
            assert(self.text@ =~= old(self).text@ + line_text(line));
            self.lines@ = self.lines@.push(line);
        }
    }

    /// Appends `// text`.
    pub fn comment(&mut self, text: &str)
        requires
            old(self).wf(),
        ensures
            final(self).wf(),
            final(self).code() == old(self).code().push(Instr::Comment(text@)),
    {
        self.text.append("// ");
        self.text.append(text);
        self.text.append("\n");
        proof {
            let line = Instr::Comment(text@);
            lemma_render_push(self.lines@, line);
            assert(self.text@ =~= old(self).text@ + line_text(line));
            self.lines@ = self.lines@.push(line);
        }
    }

    /// The text of the recorded listing.
    pub fn finish(self) -> (text: String)
        requires
            self.wf(),
        ensures
            text@ == render(self.code()),
    {
        self.text
    }
}

} // verus!
