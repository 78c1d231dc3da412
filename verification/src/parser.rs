//! Reads one line of source text into a command.

use vstd::prelude::*;
use vstd::string::*;

use crate::decimal::{
    all_digits, decimal_text, digit_value, is_digit, is_numeral, lemma_decimal_round_trip,
    lemma_decimal_text_is_numeral, numeral_value,
};
use crate::{Command, Comparison, MemSegment, VmCommand};

verus! {

/// Why a line is no command.
#[derive(Clone, Copy, Debug, PartialEq, Eq, Structural)]
pub enum ParseError {
    /// The words are as many as some command has, but they are not those of
    /// any command.
    UnknownCommand,
    /// No command has this many words.
    MalformedCommand,
    /// The third word is no 16-bit number.
    InvalidOperand,
}

impl ParseError {
    /// What is wrong, in words.
    pub open spec fn text(self) -> Seq<char> {
        match self {
            ParseError::UnknownCommand => "no such command"@,
            ParseError::MalformedCommand => "not a valid VM command"@,
            ParseError::InvalidOperand => "operand is not a valid 16 bit integer"@,
        }
    }

    pub fn message(self) -> (s: &'static str)
        ensures
            s@ == self.text(),
    {
        match self {
            ParseError::UnknownCommand => "no such command",
            ParseError::MalformedCommand => "not a valid VM command",
            ParseError::InvalidOperand => "operand is not a valid 16 bit integer",
        }
    }
}

/// The characters that separate words: those with the Unicode property
/// `White_Space`.
pub open spec fn is_space(c: char) -> bool {
    ||| ('\u{9}' <= c && c <= '\u{d}')
    ||| c == ' '
    ||| c == '\u{85}'
    ||| c == '\u{a0}'
    ||| c == '\u{1680}'
    ||| ('\u{2000}' <= c && c <= '\u{200a}')
    ||| c == '\u{2028}'
    ||| c == '\u{2029}'
    ||| c == '\u{202f}'
    ||| c == '\u{205f}'
    ||| c == '\u{3000}'
}

/// How many characters from position `i` on are no spaces, up to the first
/// space or the end of `s`.
pub open spec fn word_len(s: Seq<char>, i: int) -> nat
    decreases s.len() - i,
{
    if 0 <= i < s.len() && !is_space(s[i]) {
        1 + word_len(s, i + 1)
    } else {
        0
    }
}

/// A word reaches no further than the end of the line.
pub proof fn lemma_word_len_bound(s: Seq<char>, i: int)
    requires
        0 <= i <= s.len(),
    ensures
        i + word_len(s, i) <= s.len(),
        i + word_len(s, i) < s.len() ==> is_space(s[i + word_len(s, i)]),
        forall|k: int| i <= k < i + word_len(s, i) ==> !is_space(#[trigger] s[k]),
    decreases s.len() - i,
{
    if i < s.len() && !is_space(s[i]) {
        lemma_word_len_bound(s, i + 1);
    }
}

/// The words of `s` that start at position `i` or later, where `i` is not
/// inside a word.
pub open spec fn words_from(s: Seq<char>, i: int) -> Seq<Seq<char>>
    decreases s.len() - i,
{
    if i < 0 || i >= s.len() {
        Seq::empty()
    } else if is_space(s[i]) {
        words_from(s, i + 1)
    } else {
        proof {
            lemma_word_len_bound(s, i);
        }
        Seq::empty().push(s.subrange(i, i + word_len(s, i))) + words_from(s, i + word_len(s, i))
    }
}

/// The words of `s`: its longest runs of characters that are no spaces.
pub open spec fn words(s: Seq<char>) -> Seq<Seq<char>> {
    words_from(s, 0)
}

/// The number that an operand denotes, where it denotes one.
///
/// An operand is a numeral up to 65535, with or without `+` in front, or
/// `-` and a numeral up to 32768, which stands for the 16-bit two's
/// complement of that number.
pub open spec fn operand_value(word: Seq<char>) -> Option<u16> {
    if word.len() > 0 && word[0] == '-' {
        let digits = word.subrange(1, word.len() as int);
        if is_numeral(digits) && numeral_value(digits) <= 32768 {
            Some(((65536 - numeral_value(digits)) % 65536) as u16)
        } else {
            None
        }
    } else {
        let digits = if word.len() > 0 && word[0] == '+' {
            word.subrange(1, word.len() as int)
        } else {
            word
        };
        if is_numeral(digits) && numeral_value(digits) <= 65535 {
            Some(numeral_value(digits) as u16)
        } else {
            None
        }
    }
}

/// The segment that a word names, where it names one.
pub open spec fn segment_named(word: Seq<char>) -> Option<MemSegment> {
    if word == "local"@ {
        Some(MemSegment::Local)
    } else if word == "argument"@ {
        Some(MemSegment::Argument)
    } else if word == "this"@ {
        Some(MemSegment::This)
    } else if word == "that"@ {
        Some(MemSegment::That)
    } else if word == "constant"@ {
        Some(MemSegment::Constant)
    } else if word == "static"@ {
        Some(MemSegment::Static)
    } else if word == "pointer"@ {
        Some(MemSegment::Pointer)
    } else if word == "temp"@ {
        Some(MemSegment::Temp)
    } else {
        None
    }
}

/// The command of a line of one word.
pub open spec fn parse_one(word: Seq<char>) -> Result<Command, ParseError> {
    if word == "add"@ {
        Ok(Command::Add)
    } else if word == "sub"@ {
        Ok(Command::Sub)
    } else if word == "neg"@ {
        Ok(Command::Neg)
    } else if word == "eq"@ {
        Ok(Command::Compare(Comparison::Eq))
    } else if word == "gt"@ {
        Ok(Command::Compare(Comparison::GT))
    } else if word == "lt"@ {
        Ok(Command::Compare(Comparison::LT))
    } else if word == "and"@ {
        Ok(Command::And)
    } else if word == "or"@ {
        Ok(Command::Or)
    } else if word == "not"@ {
        Ok(Command::Not)
    } else if word == "return"@ {
        Ok(Command::Return)
    } else {
        Err(ParseError::UnknownCommand)
    }
}

/// The command of a line of two words.
pub open spec fn parse_two(keyword: Seq<char>, name: Seq<char>) -> Result<Command, ParseError> {
    if keyword == "label"@ {
        Ok(Command::Label(name))
    } else if keyword == "goto"@ {
        Ok(Command::Goto(name))
    } else if keyword == "if-goto"@ {
        Ok(Command::IfGoto(name))
    } else {
        Err(ParseError::UnknownCommand)
    }
}

/// The command of a line of three words.  The number is read first: a line
/// whose third word is no operand is refused for that, whatever the first
/// two are.
pub open spec fn parse_three(keyword: Seq<char>, name: Seq<char>, operand: Seq<char>) -> Result<
    Command,
    ParseError,
> {
    match operand_value(operand) {
        None => Err(ParseError::InvalidOperand),
        Some(n) => {
            if keyword == "push"@ {
                match segment_named(name) {
                    Some(segment) => Ok(Command::Push(segment, n)),
                    None => Err(ParseError::UnknownCommand),
                }
            } else if keyword == "pop"@ {
                match segment_named(name) {
                    Some(segment) => if segment == MemSegment::Constant {
                        Err(ParseError::UnknownCommand)
                    } else {
                        Ok(Command::Pop(segment, n))
                    },
                    None => Err(ParseError::UnknownCommand),
                }
            } else if keyword == "function"@ {
                Ok(Command::Function(name, n))
            } else if keyword == "call"@ {
                Ok(Command::Call(name, n))
            } else {
                Err(ParseError::UnknownCommand)
            }
        },
    }
}

/// The command that a line denotes, or why it denotes none.
pub open spec fn parse_line(line: Seq<char>) -> Result<Command, ParseError> {
    let w = words(line);
    if w.len() == 1 {
        parse_one(w[0])
    } else if w.len() == 2 {
        parse_two(w[0], w[1])
    } else if w.len() == 3 {
        parse_three(w[0], w[1], w[2])
    } else {
        Err(ParseError::MalformedCommand)
    }
}

fn is_space_char(c: char) -> (b: bool)
    ensures
        b == is_space(c),
{
    ('\u{9}' <= c && c <= '\u{d}') || c == ' ' || c == '\u{85}' || c == '\u{a0}' || c
        == '\u{1680}' || ('\u{2000}' <= c && c <= '\u{200a}') || c == '\u{2028}' || c
        == '\u{2029}' || c == '\u{202f}' || c == '\u{205f}' || c == '\u{3000}'
}

/// The characters of `s`.
fn to_chars(s: &str) -> (chars: Vec<char>)
    ensures
        chars@ == s@,
{
    let mut chars: Vec<char> = Vec::new();
    for c in iter: s.chars()
        invariant
            iter.seq() == s@,
            chars@ == iter.seq().take(iter.index() as int),
    {
        chars.push(c);
        assert(chars@ =~= iter.seq().take(iter.index() + 1));
    }
    assert(chars@ =~= s@);
    chars
}

/// The parts of `s` between the given bounds.
pub open spec fn span_words(s: Seq<char>, spans: Seq<(usize, usize)>) -> Seq<Seq<char>> {
    Seq::new(spans.len(), |k: int| s.subrange(spans[k].0 as int, spans[k].1 as int))
}

/// The bounds of the words of `chars`, in order.
fn split(chars: &Vec<char>) -> (spans: Vec<(usize, usize)>)
    ensures
        span_words(chars@, spans@) == words(chars@),
        forall|k: int|
            0 <= k < spans@.len() ==> (#[trigger] spans@[k]).0 < spans@[k].1 <= chars@.len(),
{
    let n: usize = chars.len();
    let mut spans: Vec<(usize, usize)> = Vec::new();
    let mut i: usize = 0;
    assert(span_words(chars@, spans@) + words_from(chars@, 0) =~= words(chars@));
    while i < n
        invariant
            i <= n,
            n == chars@.len(),
            words(chars@) == span_words(chars@, spans@) + words_from(chars@, i as int),
            forall|k: int|
                0 <= k < spans@.len() ==> (#[trigger] spans@[k]).0 < spans@[k].1 <= chars@.len(),
        decreases n - i,
    {
        if is_space_char(chars[i]) {
            i = i + 1;
        } else {
            let start: usize = i;
            let mut j: usize = i + 1;
            while j < n && !is_space_char(chars[j])
                invariant
                    start < j <= n,
                    n == chars@.len(),
                    word_len(chars@, start as int) == (j - start) + word_len(chars@, j as int),
                decreases n - j,
            {
                j = j + 1;
            }
            proof {
                let s = chars@;
                let before = span_words(s, spans@);
                let word = s.subrange(start as int, j as int);
                assert(word_len(s, start as int) == j - start);
                assert(span_words(s, spans@.push((start, j))) =~= before.push(word));
                assert(before.push(word) + words_from(s, j as int) =~= before + (
                Seq::empty().push(word) + words_from(s, j as int)));
            }
            spans.push((start, j));
            i = j;
        }
    }
    assert(span_words(chars@, spans@) + words_from(chars@, n as int) =~= span_words(
        chars@,
        spans@,
    ));
    spans
}

/// Whether the characters of `chars` from `start` to `end` spell
/// `keyword`.
fn spells(chars: &Vec<char>, start: usize, end: usize, keyword: &str) -> (b: bool)
    requires
        start <= end <= chars@.len(),
    ensures
        b == (chars@.subrange(start as int, end as int) == keyword@),
{
    let n: usize = keyword.unicode_len();
    if end - start != n {
        return false;
    }
    let mut k: usize = 0;
    while k < n
        invariant
            k <= n,
            n == keyword@.len(),
            n == end - start,
            end <= chars@.len(),
            forall|m: int| 0 <= m < k ==> chars@[start + m] == keyword@[m],
        decreases n - k,
    {
        if chars[start + k] != keyword.get_char(k) {
            assert(chars@.subrange(start as int, end as int)[k as int] != keyword@[k as int]);
            return false;
        }
        k = k + 1;
    }
    assert(chars@.subrange(start as int, end as int) =~= keyword@);
    true
}

/// A run of digits denotes at least what any of its prefixes denotes.
proof fn lemma_numeral_prefix(s: Seq<char>, k: int)
    requires
        0 <= k <= s.len(),
    ensures
        numeral_value(s.subrange(0, k)) <= numeral_value(s),
    decreases s.len(),
{
    if k == s.len() {
        assert(s.subrange(0, k) =~= s);
    } else {
        lemma_numeral_prefix(s.drop_last(), k);
        assert(s.drop_last().subrange(0, k) =~= s.subrange(0, k));
    }
}

/// The number that the characters from `start` to `end` denote, where they
/// are a numeral of a number up to `limit`.
fn parse_digits(chars: &Vec<char>, start: usize, end: usize, limit: u32) -> (r: Option<u32>)
    requires
        start <= end <= chars@.len(),
        limit <= 65536,
    ensures
        r == {
            let digits = chars@.subrange(start as int, end as int);
            if is_numeral(digits) && numeral_value(digits) <= limit {
                Some(numeral_value(digits) as u32)
            } else {
                None
            }
        },
{
    let ghost digits = chars@.subrange(start as int, end as int);
    if start == end {
        return None;
    }
    let mut acc: u32 = 0;
    let mut k: usize = start;
    assert(digits.subrange(0, 0) =~= Seq::<char>::empty());
    while k < end
        invariant
            start <= k <= end <= chars@.len(),
            limit <= 65536,
            digits == chars@.subrange(start as int, end as int),
            all_digits(digits.subrange(0, k - start)),
            acc == numeral_value(digits.subrange(0, k - start)),
            acc <= limit,
        decreases end - k,
    {
        let c: char = chars[k];
        if !('0' <= c && c <= '9') {
            assert(!is_digit(digits[k - start]));
            return None;
        }
        let d: u32 = c as u32 - '0' as u32;
        proof {
            let longer = digits.subrange(0, k - start + 1);
            assert(longer.drop_last() =~= digits.subrange(0, k - start));
            assert(longer.last() == c);
            assert(d == digit_value(c));
            lemma_numeral_prefix(digits, k - start + 1);
        }
        acc = acc * 10 + d;
        if acc > limit {
            return None;
        }
        k = k + 1;
    }
    assert(digits.subrange(0, k - start) =~= digits);
    Some(acc)
}

/// The number that the word from `start` to `end` denotes as an operand.
fn parse_operand(chars: &Vec<char>, start: usize, end: usize) -> (r: Option<u16>)
    requires
        start < end <= chars@.len(),
    ensures
        r == operand_value(chars@.subrange(start as int, end as int)),
{
    let ghost word = chars@.subrange(start as int, end as int);
    let first: char = chars[start];
    assert(word[0] == first);
    if first == '-' {
        assert(word.subrange(1, word.len() as int) =~= chars@.subrange(start + 1, end as int));
        match parse_digits(chars, start + 1, end, 32768) {
            Some(v) => Some(((65536 - v) % 65536) as u16),
            None => None,
        }
    } else {
        let from: usize = if first == '+' {
            start + 1
        } else {
            start
        };
        assert(first == '+' ==> word.subrange(1, word.len() as int) =~= chars@.subrange(
            start + 1,
            end as int,
        ));
        match parse_digits(chars, from, end, 65535) {
            Some(v) => Some(v as u16),
            None => None,
        }
    }
}

/// The segment that the word from `start` to `end` names.
fn segment_at(chars: &Vec<char>, start: usize, end: usize) -> (r: Option<MemSegment>)
    requires
        start <= end <= chars@.len(),
    ensures
        r == segment_named(chars@.subrange(start as int, end as int)),
{
    if spells(chars, start, end, "local") {
        Some(MemSegment::Local)
    } else if spells(chars, start, end, "argument") {
        Some(MemSegment::Argument)
    } else if spells(chars, start, end, "this") {
        Some(MemSegment::This)
    } else if spells(chars, start, end, "that") {
        Some(MemSegment::That)
    } else if spells(chars, start, end, "constant") {
        Some(MemSegment::Constant)
    } else if spells(chars, start, end, "static") {
        Some(MemSegment::Static)
    } else if spells(chars, start, end, "pointer") {
        Some(MemSegment::Pointer)
    } else if spells(chars, start, end, "temp") {
        Some(MemSegment::Temp)
    } else {
        None
    }
}

/// No line denotes `pop constant`.
pub proof fn lemma_parsed_is_well_formed(line: Seq<char>)
    ensures
        parse_line(line) matches Ok(command) ==> command.well_formed(),
{
}

/// Reads one line.
///
/// The line is split at white space.  One word is an arithmetic command, a
/// comparison or `return`; two words are `label`, `goto` or `if-goto` and a
/// name; three words are `push` or `pop`, a segment and an offset, or
/// `function` or `call`, a name and a count.
pub fn parse<'a>(cmd: &'a str) -> (r: Result<VmCommand<'a>, ParseError>)
    ensures
        match r {
            Ok(command) => parse_line(cmd@) == Ok::<Command, ParseError>(command@)
                && command@.well_formed(),
            Err(e) => parse_line(cmd@) == Err::<Command, ParseError>(e),
        },
{
    let chars = to_chars(cmd);
    let spans = split(&chars);
    let ghost w = words(cmd@);
    assert(forall|k: int|
        0 <= k < spans@.len() ==> #[trigger] w[k] == cmd@.subrange(
            spans@[k].0 as int,
            spans@[k].1 as int,
        ));
    if spans.len() == 1 {
        let (a, b) = spans[0];
        if spells(&chars, a, b, "add") {
            Ok(VmCommand::Add)
        } else if spells(&chars, a, b, "sub") {
            Ok(VmCommand::Sub)
        } else if spells(&chars, a, b, "neg") {
            Ok(VmCommand::Neg)
        } else if spells(&chars, a, b, "eq") {
            Ok(VmCommand::Compare(Comparison::Eq))
        } else if spells(&chars, a, b, "gt") {
            Ok(VmCommand::Compare(Comparison::GT))
        } else if spells(&chars, a, b, "lt") {
            Ok(VmCommand::Compare(Comparison::LT))
        } else if spells(&chars, a, b, "and") {
            Ok(VmCommand::And)
        } else if spells(&chars, a, b, "or") {
            Ok(VmCommand::Or)
        } else if spells(&chars, a, b, "not") {
            Ok(VmCommand::Not)
        } else if spells(&chars, a, b, "return") {
            Ok(VmCommand::Return)
        } else {
            Err(ParseError::UnknownCommand)
        }
    } else if spans.len() == 2 {
        let (a, b) = spans[0];
        let (c, d) = spans[1];
        let name = cmd.substring_char(c, d);
        if spells(&chars, a, b, "label") {
            Ok(VmCommand::Label(name))
        } else if spells(&chars, a, b, "goto") {
            Ok(VmCommand::Goto(name))
        } else if spells(&chars, a, b, "if-goto") {
            Ok(VmCommand::IfGoto(name))
        } else {
            Err(ParseError::UnknownCommand)
        }
    } else if spans.len() == 3 {
        let (a, b) = spans[0];
        let (c, d) = spans[1];
        let (e, f) = spans[2];
        match parse_operand(&chars, e, f) {
            None => Err(ParseError::InvalidOperand),
            Some(n) => {
                if spells(&chars, a, b, "push") {
                    match segment_at(&chars, c, d) {
                        Some(segment) => Ok(VmCommand::Push(segment, n)),
                        None => Err(ParseError::UnknownCommand),
                    }
                } else if spells(&chars, a, b, "pop") {
                    match segment_at(&chars, c, d) {
                        Some(MemSegment::Constant) => Err(ParseError::UnknownCommand),
                        Some(segment) => Ok(VmCommand::Pop(segment, n)),
                        None => Err(ParseError::UnknownCommand),
                    }
                } else if spells(&chars, a, b, "function") {
                    Ok(VmCommand::Function(cmd.substring_char(c, d), n))
                } else if spells(&chars, a, b, "call") {
                    Ok(VmCommand::Call(cmd.substring_char(c, d), n))
                } else {
                    Err(ParseError::UnknownCommand)
                }
            },
        }
    } else {
        Err(ParseError::MalformedCommand)
    }
}

/// A comment starts at position `i` of `s`: two slashes stand there.
pub open spec fn is_comment_start(s: Seq<char>, i: int) -> bool {
    0 <= i && i + 1 < s.len() && s[i] == '/' && s[i + 1] == '/'
}

/// The part of a source line in front of its comment: the line up to the
/// first `//`, or the whole line where there is none.
pub fn strip_comment<'a>(line: &'a str) -> (code: &'a str)
    ensures
        code@.len() <= line@.len(),
        code@ == line@.subrange(0, code@.len() as int),
        code@.len() == line@.len() || is_comment_start(line@, code@.len() as int),
        forall|i: int| 0 <= i < code@.len() ==> !is_comment_start(line@, i),
{
    let chars = to_chars(line);
    let n: usize = chars.len();
    let mut k: usize = 0;
    while k < n && !(k + 1 < n && chars[k] == '/' && chars[k + 1] == '/')
        invariant
            k <= n,
            n == line@.len(),
            chars@ == line@,
            forall|i: int| 0 <= i < k ==> !is_comment_start(line@, i),
        decreases n - k,
    {
        k = k + 1;
    }
    line.substring_char(0, k)
}

/// Whether a line holds nothing but white space.
pub fn is_blank(line: &str) -> (b: bool)
    ensures
        b == (forall|i: int| 0 <= i < line@.len() ==> is_space(#[trigger] line@[i])),
{
    let chars = to_chars(line);
    let n: usize = chars.len();
    let mut k: usize = 0;
    while k < n
        invariant
            k <= n,
            n == line@.len(),
            chars@ == line@,
            forall|i: int| 0 <= i < k ==> is_space(#[trigger] line@[i]),
        decreases n - k,
    {
        if !is_space_char(chars[k]) {
            return false;
        }
        k = k + 1;
    }
    true
}

/// A line of white space has no words.
pub proof fn lemma_blank_has_no_words(s: Seq<char>, i: int)
    requires
        0 <= i,
        forall|k: int| 0 <= k < s.len() ==> is_space(#[trigger] s[k]),
    ensures
        words_from(s, i) == Seq::<Seq<char>>::empty(),
    decreases s.len() - i,
{
    if i < s.len() {
        lemma_blank_has_no_words(s, i + 1);
    }
}

/// A word: one character or more, none of them a space.
pub open spec fn is_word(w: Seq<char>) -> bool {
    w.len() > 0 && forall|i: int| 0 <= i < w.len() ==> !is_space(#[trigger] w[i])
}

/// The names in a command are words.
pub open spec fn names_are_words(command: Command) -> bool {
    match command {
        Command::Label(name) => is_word(name),
        Command::Goto(name) => is_word(name),
        Command::IfGoto(name) => is_word(name),
        Command::Function(name, _) => is_word(name),
        Command::Call(name, _) => is_word(name),
        _ => true,
    }
}

/// Behind a prefix, a word is as long as it is without the prefix.
proof fn lemma_word_len_shift(prefix: Seq<char>, rest: Seq<char>, i: int)
    requires
        0 <= i <= rest.len(),
    ensures
        word_len(prefix + rest, prefix.len() + i) == word_len(rest, i),
    decreases rest.len() - i,
{
    if i < rest.len() {
        assert((prefix + rest)[prefix.len() + i] == rest[i]);
        if !is_space(rest[i]) {
            lemma_word_len_shift(prefix, rest, i + 1);
        }
    }
}

/// Behind a prefix, the words are what they are without the prefix.
proof fn lemma_words_from_shift(prefix: Seq<char>, rest: Seq<char>, i: int)
    requires
        0 <= i <= rest.len(),
    ensures
        words_from(prefix + rest, prefix.len() + i) == words_from(rest, i),
    decreases rest.len() - i,
{
    let s = prefix + rest;
    let p = prefix.len() as int;
    if i < rest.len() {
        assert(s[p + i] == rest[i]);
        if is_space(rest[i]) {
            lemma_words_from_shift(prefix, rest, i + 1);
        } else {
            lemma_word_len_shift(prefix, rest, i);
            lemma_word_len_bound(rest, i);
            let len = word_len(rest, i) as int;
            assert(s.subrange(p + i, p + i + len) =~= rest.subrange(i, i + len));
            lemma_words_from_shift(prefix, rest, i + len);
        }
    }
}

/// A word in front of a space or of the end reaches up to there.
proof fn lemma_word_len_of_word(w: Seq<char>, rest: Seq<char>, i: int)
    requires
        is_word(w),
        0 <= i <= w.len(),
        rest.len() == 0 || is_space(rest[0]),
    ensures
        word_len(w + rest, i) == w.len() - i,
    decreases w.len() - i,
{
    let s = w + rest;
    if i < w.len() {
        assert(s[i] == w[i]);
        lemma_word_len_of_word(w, rest, i + 1);
    } else if rest.len() > 0 {
        assert(s[i] == rest[0]);
    }
}

/// The words of a word and more text behind it.
proof fn lemma_words_of_word(w: Seq<char>, rest: Seq<char>)
    requires
        is_word(w),
        rest.len() == 0 || is_space(rest[0]),
    ensures
        words(w + rest) == Seq::empty().push(w) + words(rest),
{
    let s = w + rest;
    assert(s[0] == w[0]);
    lemma_word_len_of_word(w, rest, 0);
    assert(s.subrange(0, w.len() as int) =~= w);
    lemma_words_from_shift(w, rest, 0);
}

/// A blank in front of a text adds no word.
proof fn lemma_words_behind_blank(rest: Seq<char>)
    ensures
        words(" "@ + rest) == words(rest),
{
    reveal_strlit(" ");
    let s = " "@ + rest;
    assert(s[0] == ' ');
    lemma_words_from_shift(" "@, rest, 0);
}

/// The words of one, two or three words with one blank between them.
pub proof fn lemma_words_of_line(a: Seq<char>, b: Seq<char>, c: Seq<char>)
    requires
        is_word(a),
        is_word(b),
        is_word(c),
    ensures
        words(a) == Seq::empty().push(a),
        words(a + " "@ + b) == Seq::empty().push(a).push(b),
        words(a + " "@ + b + " "@ + c) == Seq::empty().push(a).push(b).push(c),
{
    reveal_strlit(" ");
    let none = Seq::<char>::empty();
    assert(words(none) =~= Seq::<Seq<char>>::empty());
    // One word.
    lemma_words_of_word(a, none);
    assert(a + none =~= a);
    assert(words(a) =~= Seq::empty().push(a));
    lemma_words_of_word(b, none);
    assert(b + none =~= b);
    lemma_words_of_word(c, none);
    assert(c + none =~= c);
    // Two words.
    lemma_words_behind_blank(b);
    lemma_words_of_word(a, " "@ + b);
    assert(a + (" "@ + b) =~= a + " "@ + b);
    assert(words(a + " "@ + b) =~= Seq::empty().push(a).push(b));
    // Three words.
    lemma_words_behind_blank(c);
    lemma_words_of_word(b, " "@ + c);
    lemma_words_behind_blank(b + (" "@ + c));
    lemma_words_of_word(a, " "@ + (b + (" "@ + c)));
    assert(a + (" "@ + (b + (" "@ + c))) =~= a + " "@ + b + " "@ + c);
    assert(words(a + " "@ + b + " "@ + c) =~= Seq::empty().push(a).push(b).push(c));
}

/// The text of a 16-bit number is a word and an operand with that value.
pub proof fn lemma_operand_of_decimal(n: u16)
    ensures
        is_word(decimal_text(n as nat)),
        operand_value(decimal_text(n as nat)) == Some(n),
{
    lemma_decimal_text_is_numeral(n as nat);
    lemma_decimal_round_trip(n as nat);
    let d = decimal_text(n as nat);
    assert(is_digit(d[0]));
    assert forall|i: int| 0 <= i < d.len() implies !is_space(#[trigger] d[i]) by {
        assert(is_digit(d[i]));
    }
}

/// The keywords are words, and no two of them are the same.
proof fn lemma_keywords()
    ensures
        is_word("add"@),
        is_word("sub"@),
        is_word("neg"@),
        is_word("eq"@),
        is_word("gt"@),
        is_word("lt"@),
        is_word("and"@),
        is_word("or"@),
        is_word("not"@),
        is_word("return"@),
        is_word("label"@),
        is_word("goto"@),
        is_word("if-goto"@),
        is_word("push"@),
        is_word("pop"@),
        is_word("function"@),
        is_word("call"@),
        parse_one("add"@) == Ok::<Command, ParseError>(Command::Add),
        parse_one("sub"@) == Ok::<Command, ParseError>(Command::Sub),
        parse_one("neg"@) == Ok::<Command, ParseError>(Command::Neg),
        parse_one("eq"@) == Ok::<Command, ParseError>(Command::Compare(Comparison::Eq)),
        parse_one("gt"@) == Ok::<Command, ParseError>(Command::Compare(Comparison::GT)),
        parse_one("lt"@) == Ok::<Command, ParseError>(Command::Compare(Comparison::LT)),
        parse_one("and"@) == Ok::<Command, ParseError>(Command::And),
        parse_one("or"@) == Ok::<Command, ParseError>(Command::Or),
        parse_one("not"@) == Ok::<Command, ParseError>(Command::Not),
        parse_one("return"@) == Ok::<Command, ParseError>(Command::Return),
        "goto"@ != "label"@,
        "if-goto"@ != "label"@,
        "if-goto"@ != "goto"@,
        "pop"@ != "push"@,
        "function"@ != "push"@,
        "function"@ != "pop"@,
        "call"@ != "push"@,
        "call"@ != "pop"@,
        "call"@ != "function"@,
{
    reveal_strlit("add");
    reveal_strlit("sub");
    reveal_strlit("neg");
    reveal_strlit("eq");
    reveal_strlit("gt");
    reveal_strlit("lt");
    reveal_strlit("and");
    reveal_strlit("or");
    reveal_strlit("not");
    reveal_strlit("return");
    reveal_strlit("label");
    reveal_strlit("goto");
    reveal_strlit("if-goto");
    reveal_strlit("push");
    reveal_strlit("pop");
    reveal_strlit("function");
    reveal_strlit("call");
    assert("sub"@[0] != "add"@[0]);
    assert("neg"@[0] != "add"@[0] && "neg"@[0] != "sub"@[0]);
    assert("and"@[1] != "add"@[1] && "and"@[0] != "sub"@[0] && "and"@[0] != "neg"@[0]);
    assert("not"@[0] != "add"@[0] && "not"@[0] != "sub"@[0] && "not"@[1] != "neg"@[1] && "not"@[0]
        != "and"@[0]);
    assert("gt"@[0] != "eq"@[0]);
    assert("lt"@[0] != "eq"@[0] && "lt"@[0] != "gt"@[0]);
    assert("or"@[0] != "eq"@[0] && "or"@[0] != "gt"@[0] && "or"@[0] != "lt"@[0]);
    assert("call"@[0] != "push"@[0]);
}

/// The keyword of a segment is a word that names the segment.
proof fn lemma_segment_keyword(segment: MemSegment)
    ensures
        is_word(segment.text()),
        segment_named(segment.text()) == Some(segment),
{
    reveal_strlit("local");
    reveal_strlit("argument");
    reveal_strlit("this");
    reveal_strlit("that");
    reveal_strlit("constant");
    reveal_strlit("static");
    reveal_strlit("pointer");
    reveal_strlit("temp");
    assert("that"@[2] != "this"@[2]);
    assert("temp"@[1] != "this"@[1] && "temp"@[1] != "that"@[1]);
    assert("static"@[0] != "local"@[0]);
    assert("pointer"@[0] != "local"@[0]);
    assert("constant"@[0] != "argument"@[0]);
}

/// Parsing reads back what `to_string` writes: the text of a command whose
/// names are words denotes that command.
pub proof fn lemma_parse_reads_text(command: Command)
    requires
        command.well_formed(),
        names_are_words(command),
    ensures
        parse_line(command.text()) == Ok::<Command, ParseError>(command),
{
    lemma_keywords();
    reveal_strlit(" ");
    reveal_strlit("push");
    reveal_strlit("push ");
    reveal_strlit("pop");
    reveal_strlit("pop ");
    reveal_strlit("label");
    reveal_strlit("label ");
    reveal_strlit("goto");
    reveal_strlit("goto ");
    reveal_strlit("if-goto");
    reveal_strlit("if-goto ");
    reveal_strlit("function");
    reveal_strlit("function ");
    reveal_strlit("call");
    reveal_strlit("call ");
    let w = "add"@;
    match command {
        Command::Push(segment, n) => {
            lemma_segment_keyword(segment);
            lemma_operand_of_decimal(n);
            lemma_words_of_line("push"@, segment.text(), decimal_text(n as nat));
            assert(command.text() =~= "push"@ + " "@ + segment.text() + " "@ + decimal_text(
                n as nat,
            ));
        },
        Command::Pop(segment, n) => {
            lemma_segment_keyword(segment);
            lemma_operand_of_decimal(n);
            lemma_words_of_line("pop"@, segment.text(), decimal_text(n as nat));
            assert(command.text() =~= "pop"@ + " "@ + segment.text() + " "@ + decimal_text(
                n as nat,
            ));
        },
        Command::Label(name) => {
            lemma_words_of_line("label"@, name, w);
            assert(command.text() =~= "label"@ + " "@ + name);
        },
        Command::Goto(name) => {
            lemma_words_of_line("goto"@, name, w);
            assert(command.text() =~= "goto"@ + " "@ + name);
        },
        Command::IfGoto(name) => {
            lemma_words_of_line("if-goto"@, name, w);
            assert(command.text() =~= "if-goto"@ + " "@ + name);
        },
        Command::Function(name, n) => {
            lemma_operand_of_decimal(n);
            lemma_words_of_line("function"@, name, decimal_text(n as nat));
            assert(command.text() =~= "function"@ + " "@ + name + " "@ + decimal_text(n as nat));
        },
        Command::Call(name, n) => {
            lemma_operand_of_decimal(n);
            lemma_words_of_line("call"@, name, decimal_text(n as nat));
            assert(command.text() =~= "call"@ + " "@ + name + " "@ + decimal_text(n as nat));
        },
        _ => {
            lemma_words_of_line(command.text(), w, w);
        },
    }
}

} // verus!
