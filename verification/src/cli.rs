//! The command line of the tool that decodes packets and NBT: a group of flags,
//! with their arguments, at the front of the arguments joined by spaces.
use crate::nbt::NbtTagType;
use crate::types::{ident_continue, ident_start, str_eq};
use vstd::prelude::*;

verus! {

/// How much is logged.
#[derive(Debug, Clone, Copy, PartialEq, Eq, Structural)]
pub enum LogLevel {
    Error,
    Warn,
    Info,
    Debug,
    Trace,
}

/// The bytes a command works on: a file to read them from, or the bytes given inline.
#[derive(Debug, Clone)]
pub enum ByteInput {
    File(String),
    Data(Vec<u8>),
}

/// What the tool is asked to do.
#[derive(Debug, Clone)]
pub enum CliCommand {
    Decode(ByteInput),
    Help,
    VarInt(ByteInput),
    Decompress(ByteInput),
    Nbt(NbtTagType, ByteInput),
}

/// The parsed command line: the log level and the command.
#[derive(Debug, Clone)]
pub struct Cli {
    pub level: LogLevel,
    pub command: CliCommand,
}

/// One flag with its argument.
#[derive(Debug, Clone)]
pub enum Flag {
    Level(LogLevel),
    Help,
    Decode(ByteInput),
    VarInt(ByteInput),
    Decompress(ByteInput),
    Nbt(NbtTagType, ByteInput),
}

/// The name of a flag: one character after `-`, or a word after `--`.
#[derive(Debug, Clone)]
pub enum FlagName {
    Short(String),
    Long(String),
}

/// What was expected where parsing failed.
#[derive(Debug, Clone)]
pub enum Expectation {
    AnyOf(Vec<char>),
    AnyOfStr(Vec<&'static str>),
    EndOfInput,
    Digit(u32),
    ShortFlag,
}

/// What a run of text characters was expected to be.
#[derive(Debug, Clone, Copy, PartialEq, Eq, Structural)]
pub enum TextLabel {
    ExpectedIdent,
    ExpectedDigit(u32),
}

/// Errors of parsing a command line; spans are character positions, from and to.
#[derive(Debug)]
pub enum ParseError {
    Expected { expected: Expectation, found: char, at: (usize, usize), help: Option<&'static str> },
    UnexpectedEof {
        at: (usize, usize),
        last_data_at: Option<(usize, usize)>,
        expected: Option<Expectation>,
        help: Option<&'static str>,
    },
    ParseLevel { at: (usize, usize) },
    UnknownFlag { flag: String, at: (usize, usize) },
    ExpectedNumber { radix: u32, actual: String, at: (usize, usize), help: Option<&'static str> },
    Text { at: (usize, usize), label: TextLabel, last_token: Option<char> },
}

// The mathematical forms of the types above.

pub enum ByteInputV {
    File(Seq<char>),
    Data(Seq<u8>),
}

pub enum CommandV {
    Decode(ByteInputV),
    Help,
    VarInt(ByteInputV),
    Decompress(ByteInputV),
    Nbt(NbtTagType, ByteInputV),
}

pub struct CliV {
    pub level: LogLevel,
    pub command: CommandV,
}

pub enum FlagV {
    Level(LogLevel),
    Help,
    Decode(ByteInputV),
    VarInt(ByteInputV),
    Decompress(ByteInputV),
    Nbt(NbtTagType, ByteInputV),
}

pub enum FlagNameV {
    Short(Seq<char>),
    Long(Seq<char>),
}

pub enum ExpectationV {
    AnyOf(Seq<char>),
    AnyOfStr(Seq<Seq<char>>),
    EndOfInput,
    Digit(u32),
    ShortFlag,
}

pub enum ParseErrorV {
    Expected { expected: ExpectationV, found: char, at: (usize, usize), help: Option<Seq<char>> },
    UnexpectedEof {
        at: (usize, usize),
        last_data_at: Option<(usize, usize)>,
        expected: Option<ExpectationV>,
        help: Option<Seq<char>>,
    },
    ParseLevel { at: (usize, usize) },
    UnknownFlag { flag: Seq<char>, at: (usize, usize) },
    ExpectedNumber { radix: u32, actual: Seq<char>, at: (usize, usize), help: Option<Seq<char>> },
    Text { at: (usize, usize), label: TextLabel, last_token: Option<char> },
}

impl DeepView for ByteInput {
    type V = ByteInputV;

    open spec fn deep_view(&self) -> ByteInputV {
        match self {
            ByteInput::File(f) => ByteInputV::File(f@),
            ByteInput::Data(d) => ByteInputV::Data(d@),
        }
    }
}

impl DeepView for CliCommand {
    type V = CommandV;

    open spec fn deep_view(&self) -> CommandV {
        match self {
            CliCommand::Decode(i) => CommandV::Decode(i.deep_view()),
            CliCommand::Help => CommandV::Help,
            CliCommand::VarInt(i) => CommandV::VarInt(i.deep_view()),
            CliCommand::Decompress(i) => CommandV::Decompress(i.deep_view()),
            CliCommand::Nbt(t, i) => CommandV::Nbt(*t, i.deep_view()),
        }
    }
}

impl DeepView for Cli {
    type V = CliV;

    open spec fn deep_view(&self) -> CliV {
        CliV { level: self.level, command: self.command.deep_view() }
    }
}

impl DeepView for Flag {
    type V = FlagV;

    open spec fn deep_view(&self) -> FlagV {
        match self {
            Flag::Level(l) => FlagV::Level(*l),
            Flag::Help => FlagV::Help,
            Flag::Decode(i) => FlagV::Decode(i.deep_view()),
            Flag::VarInt(i) => FlagV::VarInt(i.deep_view()),
            Flag::Decompress(i) => FlagV::Decompress(i.deep_view()),
            Flag::Nbt(t, i) => FlagV::Nbt(*t, i.deep_view()),
        }
    }
}

impl DeepView for FlagName {
    type V = FlagNameV;

    open spec fn deep_view(&self) -> FlagNameV {
        match self {
            FlagName::Short(s) => FlagNameV::Short(s@),
            FlagName::Long(s) => FlagNameV::Long(s@),
        }
    }
}

/// The views of strings, in order.
pub open spec fn str_views(v: Seq<&'static str>) -> Seq<Seq<char>> {
    Seq::new(v.len(), |i: int| v[i]@)
}

impl DeepView for Expectation {
    type V = ExpectationV;

    open spec fn deep_view(&self) -> ExpectationV {
        match self {
            Expectation::AnyOf(c) => ExpectationV::AnyOf(c@),
            Expectation::AnyOfStr(s) => ExpectationV::AnyOfStr(str_views(s@)),
            Expectation::EndOfInput => ExpectationV::EndOfInput,
            Expectation::Digit(r) => ExpectationV::Digit(*r),
            Expectation::ShortFlag => ExpectationV::ShortFlag,
        }
    }
}

/// The view of an optional text.
pub open spec fn opt_str(h: Option<&'static str>) -> Option<Seq<char>> {
    match h {
        Some(t) => Some(t@),
        None => None,
    }
}

impl DeepView for ParseError {
    type V = ParseErrorV;

    open spec fn deep_view(&self) -> ParseErrorV {
        match self {
            ParseError::Expected { expected, found, at, help } => ParseErrorV::Expected {
                expected: expected.deep_view(),
                found: *found,
                at: *at,
                help: opt_str(*help),
            },
            ParseError::UnexpectedEof { at, last_data_at, expected, help } => ParseErrorV::UnexpectedEof {
                at: *at,
                last_data_at: *last_data_at,
                expected: match expected {
                    Some(e) => Some(e.deep_view()),
                    None => None,
                },
                help: opt_str(*help),
            },
            ParseError::ParseLevel { at } => ParseErrorV::ParseLevel { at: *at },
            ParseError::UnknownFlag { flag, at } => ParseErrorV::UnknownFlag { flag: flag@, at: *at },
            ParseError::ExpectedNumber { radix, actual, at, help } => ParseErrorV::ExpectedNumber {
                radix: *radix,
                actual: actual@,
                at: *at,
                help: opt_str(*help),
            },
            ParseError::Text { at, label, last_token } => ParseErrorV::Text {
                at: *at,
                label: *label,
                last_token: *last_token,
            },
        }
    }
}


/// `x - 1`, or 0 for 0.
pub open spec fn before(x: usize) -> usize {
    if x == 0 { 0 } else { (x - 1) as usize }
}

/// `a + b`, or `usize::MAX` where that is larger.
pub open spec fn sat_add(a: usize, b: usize) -> usize {
    if a + b <= usize::MAX { (a + b) as usize } else { usize::MAX }
}

/// The error of a failure labeled with what was expected: what was found there
/// when there was a character; otherwise the end of the input, with where the
/// last data was: from the character before the span's start, as many characters
/// as the span's end less one (the pair `(start - 1, end - 1)` read as start and
/// length).
pub open spec fn spec_from_label(
    at: (usize, usize),
    expected: ExpectationV,
    help: Option<Seq<char>>,
    last_token: Option<char>,
) -> ParseErrorV {
    match last_token {
        Some(found) => ParseErrorV::Expected { expected, found, at, help },
        None => ParseErrorV::UnexpectedEof {
            at,
            last_data_at: Some((before(at.0), sat_add(before(at.0), before(at.1)))),
            expected: Some(expected),
            help,
        },
    }
}

impl ParseError {
    /// The input ended where one of `expected` (if given) was required.
    pub fn unexpected_eof(at: (usize, usize), expected: Option<Vec<char>>) -> (r: ParseError)
        ensures
            r.deep_view() == (ParseErrorV::UnexpectedEof {
                at,
                last_data_at: None,
                expected: match expected {
                    Some(v) => Some(ExpectationV::AnyOf(v@)),
                    None => None,
                },
                help: None,
            }),
    {
        let expected = match expected {
            Some(v) => Some(Expectation::AnyOf(v)),
            None => None,
        };
        ParseError::UnexpectedEof { at, last_data_at: None, expected, help: None }
    }

    /// `found` was where one of `expected` was required.
    pub fn expected_token_found(at: (usize, usize), expected: Vec<char>, found: char) -> (r: ParseError)
        ensures
            r.deep_view() == (ParseErrorV::Expected { expected: ExpectationV::AnyOf(expected@), found, at, help: None }),
    {
        ParseError::Expected { expected: Expectation::AnyOf(expected), found, at, help: None }
    }

    /// `found` was where the input should have ended.
    pub fn expected_eof_found(at: (usize, usize), found: char) -> (r: ParseError)
        ensures
            r.deep_view() == (ParseErrorV::Expected { expected: ExpectationV::EndOfInput, found, at, help: None }),
    {
        ParseError::Expected { expected: Expectation::EndOfInput, found, at, help: None }
    }

    /// The error of a failure labeled with what was expected (see `spec_from_label`).
    pub fn from_label(
        at: (usize, usize),
        expected: Expectation,
        help: Option<&'static str>,
        last_token: Option<char>,
    ) -> (r: ParseError)
        ensures
            r.deep_view() == spec_from_label(at, expected.deep_view(), opt_str(help), last_token),
    {
        match last_token {
            Some(found) => ParseError::Expected { expected, found, at, help },
            None => {
                let start = if at.0 == 0 { 0 } else { at.0 - 1 };
                let len = if at.1 == 0 { 0 } else { at.1 - 1 };
                let end = if len <= usize::MAX - start { start + len } else { usize::MAX };
                ParseError::UnexpectedEof { at, last_data_at: Some((start, end)), expected: Some(expected), help }
            },
        }
    }
}

} // verus!

verus! {

/// A digit of the radix (2, 8, 10 or 16): `0`-`9` below the radix, and for 16
/// also `a`-`f` and `A`-`F`.
pub open spec fn is_digit_of(c: char, radix: u32) -> bool {
    if radix <= 10 {
        '0' <= c && (c as u32) < ('0' as u32) + radix
    } else {
        ('0' <= c && c <= '9') || ('a' <= c && c <= 'f') || ('A' <= c && c <= 'F')
    }
}

/// The value of a digit.
pub open spec fn digit_value(c: char) -> nat {
    if '0' <= c && c <= '9' {
        (c as u32 - '0' as u32) as nat
    } else if 'a' <= c && c <= 'f' {
        (c as u32 - 'a' as u32 + 10) as nat
    } else {
        (c as u32 - 'A' as u32 + 10) as nat
    }
}

/// Where the run of digits of `s` that starts at `i` ends.
pub open spec fn digits_end(s: Seq<char>, i: nat, radix: u32) -> nat
    decreases s.len() - i,
{
    if i < s.len() && is_digit_of(s[i as int], radix) {
        digits_end(s, i + 1, radix)
    } else {
        i
    }
}

/// How many digits of a radix make a byte: eight binary digits (inline binary data
/// is bytes of eight bits), and two digits of any other radix.
pub open spec fn group_width(radix: u32) -> nat {
    if radix == 2 {
        8
    } else {
        2
    }
}

/// The value of digits, the first the most significant.
pub open spec fn digits_value(d: Seq<char>, radix: u32) -> nat
    decreases d.len(),
{
    if d.len() == 0 {
        0
    } else {
        (digits_value(d.drop_last(), radix) * radix + digit_value(d.last())) as nat
    }
}

/// Digits taken a byte's worth at a time (`group_width`), each group the value of a
/// byte (a last group may be shorter); none when a group's value passes 255, which
/// no group of the four radixes reaches (`lemma_group_bytes_some`).
pub open spec fn group_bytes(d: Seq<char>, radix: u32) -> Option<Seq<u8>>
    decreases d.len(),
{
    if d.len() == 0 {
        Some(Seq::empty())
    } else {
        let w = if d.len() < group_width(radix) { d.len() } else { group_width(radix) };
        let v = digits_value(d.take(w as int), radix);
        if v > 255 {
            None
        } else {
            match group_bytes(d.skip(w as int), radix) {
                Some(b) => Some(seq![v as u8] + b),
                None => None,
            }
        }
    }
}

/// `a` in front of the bytes of `o`, if there are any.
pub open spec fn prepend(a: Seq<u8>, o: Option<Seq<u8>>) -> Option<Seq<u8>> {
    match o {
        Some(b) => Some(a + b),
        None => None,
    }
}

/// More digits have no smaller a value.
proof fn lemma_digits_value_grows(d: Seq<char>, k: int, radix: u32)
    requires
        0 <= k <= d.len(),
        radix >= 1,
    ensures
        digits_value(d.take(k), radix) <= digits_value(d, radix),
    decreases d.len(),
{
    if k < d.len() {
        let e = d.drop_last();
        lemma_digits_value_grows(e, k, radix);
        assert(e.take(k) =~= d.take(k));
        let a = digits_value(e, radix);
        let x = digit_value(d.last());
        assert(a <= a * radix + x) by (nonlinear_arith)
            requires
                radix >= 1,
        ;
    } else {
        assert(d.take(k) =~= d);
    }
}

/// A digit is worth less than its radix.
proof fn lemma_digit_below(c: char, radix: u32)
    requires
        radix == 2 || radix == 8 || radix == 10 || radix == 16,
        is_digit_of(c, radix),
    ensures
        digit_value(c) < radix,
{
    let n = c as u32;
    assert('0' as u32 == 48 && '9' as u32 == 57 && 'a' as u32 == 97 && 'f' as u32 == 102);
    assert('A' as u32 == 65 && 'F' as u32 == 70);
    if radix <= 10 {
        assert(n < 48 + radix);
        assert(c <= '9');
    }
}

/// Digits of a radix are worth less than the radix to the power of their count.
proof fn lemma_digits_value_below(d: Seq<char>, radix: u32)
    requires
        radix == 2 || radix == 8 || radix == 10 || radix == 16,
        forall|i: int| 0 <= i < d.len() ==> is_digit_of(#[trigger] d[i], radix),
    ensures
        digits_value(d, radix) < vstd::arithmetic::power::pow(radix as int, d.len()),
    decreases d.len(),
{
    vstd::arithmetic::power::lemma_pow0(radix as int);
    if d.len() > 0 {
        let e = d.drop_last();
        assert forall|i: int| 0 <= i < e.len() implies is_digit_of(#[trigger] e[i], radix) by {
            assert(e[i] == d[i]);
        }
        lemma_digits_value_below(e, radix);
        let p = vstd::arithmetic::power::pow(radix as int, e.len());
        vstd::arithmetic::power::lemma_pow_adds(radix as int, e.len(), 1);
        vstd::arithmetic::power::lemma_pow1(radix as int);
        let v = digits_value(e, radix);
        let x = digit_value(d.last());
        assert(is_digit_of(d[d.len() - 1], radix));
        lemma_digit_below(d.last(), radix);
        assert(v * radix + x < p * radix) by (nonlinear_arith)
            requires
                v < p,
                x < radix,
                radix >= 2,
        ;
    }
}

/// Every run of digits of the four radixes makes bytes: no group passes 255.
pub proof fn lemma_group_bytes_some(d: Seq<char>, radix: u32)
    requires
        radix == 2 || radix == 8 || radix == 10 || radix == 16,
        forall|i: int| 0 <= i < d.len() ==> is_digit_of(#[trigger] d[i], radix),
    ensures
        group_bytes(d, radix) is Some,
    decreases d.len(),
{
    if d.len() > 0 {
        let w = if d.len() < group_width(radix) { d.len() } else { group_width(radix) };
        let g = d.take(w as int);
        assert forall|i: int| 0 <= i < g.len() implies is_digit_of(#[trigger] g[i], radix) by {
            assert(g[i] == d[i]);
        }
        lemma_digits_value_below(g, radix);
        vstd::arithmetic::power::lemma_pow_increases((radix as int) as nat, w as nat, group_width(radix));
        assert(vstd::arithmetic::power::pow(radix as int, group_width(radix)) <= 256) by {
            reveal_with_fuel(vstd::arithmetic::power::pow, 9);
        }
        let r = d.skip(w as int);
        assert forall|i: int| 0 <= i < r.len() implies is_digit_of(#[trigger] r[i], radix) by {
            assert(r[i] == d[i + w]);
        }
        lemma_group_bytes_some(r, radix);
    }
}

/// Inline bytes at `p`: `0`, the letter of the radix, and at least one digit.
pub open spec fn spec_numbah(s: Seq<char>, p: nat, radix: u32, letter: char) -> Option<(Seq<u8>, nat)> {
    if p + 1 < s.len() && s[p as int] == '0' && s[(p + 1) as int] == letter {
        let e = digits_end(s, p + 2, radix);
        if e > p + 2 {
            match group_bytes(s.subrange((p + 2) as int, e as int), radix) {
                Some(b) => Some((b, e)),
                None => None,
            }
        } else {
            None
        }
    } else {
        None
    }
}

/// The bytes to work on, at `p`: inline in hexadecimal (`0x`), binary (`0b`), octal
/// (`0o`) or decimal (`0d`), or else the rest of the line as the path of a file.
pub open spec fn spec_byte_input(s: Seq<char>, p: nat) -> (ByteInputV, nat) {
    if let Some((b, e)) = spec_numbah(s, p, 16, 'x') {
        (ByteInputV::Data(b), e)
    } else if let Some((b, e)) = spec_numbah(s, p, 2, 'b') {
        (ByteInputV::Data(b), e)
    } else if let Some((b, e)) = spec_numbah(s, p, 8, 'o') {
        (ByteInputV::Data(b), e)
    } else if let Some((b, e)) = spec_numbah(s, p, 10, 'd') {
        (ByteInputV::Data(b), e)
    } else {
        (ByteInputV::File(s.skip(p as int)), s.len())
    }
}

/// One of the characters of `set` at `p`.
pub open spec fn spec_one_of(s: Seq<char>, p: nat, set: Seq<char>) -> Result<nat, ParseErrorV> {
    if p >= s.len() {
        Err(ParseErrorV::UnexpectedEof { at: (p as usize, p as usize), last_data_at: None, help: None, expected: Some(ExpectationV::AnyOf(set)) })
    } else if set.contains(s[p as int]) {
        Ok(p + 1)
    } else {
        Err(
            ParseErrorV::Expected {
                expected: ExpectationV::AnyOf(set),
                found: s[p as int],
                at: (p as usize, (p + 1) as usize),
                help: None,
            },
        )
    }
}

/// Where the run of characters other than space that starts at `i` ends.
pub open spec fn word_end(s: Seq<char>, i: nat) -> nat
    decreases s.len() - i,
{
    if i < s.len() && s[i as int] != ' ' {
        word_end(s, i + 1)
    } else {
        i
    }
}

/// An identifier at `p`: where it ends.
pub open spec fn spec_ident(s: Seq<char>, p: nat) -> Result<nat, ParseErrorV> {
    if p >= s.len() {
        Err(ParseErrorV::Text { at: (p as usize, p as usize), label: TextLabel::ExpectedIdent, last_token: None })
    } else if !ident_start(s[p as int]) {
        Err(
            ParseErrorV::Text {
                at: (p as usize, (p + 1) as usize),
                label: TextLabel::ExpectedIdent,
                last_token: Some(s[p as int]),
            },
        )
    } else {
        Ok(crate::types::ident_end(s, p + 1))
    }
}

/// The short flags of `s[from..to]`, one for each character.
pub open spec fn short_names(s: Seq<char>, from: nat, to: nat) -> Seq<FlagNameV>
    decreases to - from,
{
    if from >= to {
        Seq::empty()
    } else {
        seq![FlagNameV::Short(seq![s[from as int]])] + short_names(s, from + 1, to)
    }
}

/// The group of flags at the front of the line: `-` and single characters up to
/// a space, or `--` and a word; none on an empty line.
pub open spec fn spec_flag_list(s: Seq<char>) -> Result<(Seq<FlagNameV>, nat), ParseErrorV> {
    if s.len() == 0 {
        Ok((Seq::empty(), 0))
    } else if s[0] != '-' {
        Err(ParseErrorV::Expected { expected: ExpectationV::AnyOf(seq!['-']), found: s[0], at: (0, 1), help: None })
    } else if s.len() >= 2 && s[1] == '-' {
        match spec_ident(s, 2) {
            Err(e) => Err(e),
            Ok(e) => Ok((seq![FlagNameV::Long(s.subrange(2, e as int))], e)),
        }
    } else {
        let e = word_end(s, 1);
        Ok((short_names(s, 1, e), e))
    }
}

/// Whether `n` is the short flag `short` or the long flag `long`.
pub open spec fn is_flag(n: FlagNameV, short: Seq<char>, long: Seq<char>) -> bool {
    n == FlagNameV::Short(short) || n == FlagNameV::Long(long)
}

/// A level given as a number from 1 (error) to 5 (trace), or by name in any case.
pub open spec fn level_from_text(t: Seq<char>) -> Option<LogLevel> {
    if t.len() > 0 && forall|i: int| 0 <= i < t.len() ==> is_digit_of(#[trigger] t[i], 10) {
        let v = decimal(t);
        if v == 1 {
            Some(LogLevel::Error)
        } else if v == 2 {
            Some(LogLevel::Warn)
        } else if v == 3 {
            Some(LogLevel::Info)
        } else if v == 4 {
            Some(LogLevel::Debug)
        } else if v == 5 {
            Some(LogLevel::Trace)
        } else {
            None
        }
    } else {
        let l = ascii_lower(t);
        if l == "error"@ {
            Some(LogLevel::Error)
        } else if l == "warn"@ {
            Some(LogLevel::Warn)
        } else if l == "info"@ {
            Some(LogLevel::Info)
        } else if l == "debug"@ {
            Some(LogLevel::Debug)
        } else if l == "trace"@ {
            Some(LogLevel::Trace)
        } else {
            None
        }
    }
}

/// The value of decimal digits.
pub open spec fn decimal(t: Seq<char>) -> nat
    decreases t.len(),
{
    if t.len() == 0 {
        0
    } else {
        decimal(t.drop_last()) * 10 + digit_value(t.last())
    }
}

/// ASCII letters in lower case.
pub open spec fn ascii_lower(t: Seq<char>) -> Seq<char> {
    Seq::new(
        t.len(),
        |i: int|
            if 'A' <= t[i] && t[i] <= 'Z' {
                ((t[i] as u32) + 32) as char
            } else {
                t[i]
            },
    )
}

/// Parses a level with `tracing::Level::from_str`.
/// Trusted: claims what the source of `tracing-core` shows for text that is an
/// identifier or a run of decimal digits: a number from 1 to 5 (leading zeros
/// allowed) or a level name in any ASCII case; nothing else.
#[verifier::external_body]
fn parse_level(t: &str) -> (r: Option<LogLevel>)
    requires
        t@.len() > 0,
        (forall|i: int| 0 <= i < t@.len() ==> is_digit_of(#[trigger] t@[i], 10)) || (ident_start(t@[0])
            && forall|i: int| 0 <= i < t@.len() ==> ident_continue(#[trigger] t@[i])),
    ensures
        r == level_from_text(t@),
{
    match <tracing::Level as std::str::FromStr>::from_str(t) {
        Ok(tracing::Level::ERROR) => Some(LogLevel::Error),
        Ok(tracing::Level::WARN) => Some(LogLevel::Warn),
        Ok(tracing::Level::INFO) => Some(LogLevel::Info),
        Ok(tracing::Level::DEBUG) => Some(LogLevel::Debug),
        Ok(_) => Some(LogLevel::Trace),
        Err(_) => None,
    }
}

/// The text of a level at `p`: an identifier, or else a run of decimal digits.
pub open spec fn spec_level_text(s: Seq<char>, p: nat) -> Result<nat, ParseErrorV> {
    match spec_ident(s, p) {
        Ok(e) => Ok(e),
        Err(_) => {
            let e = digits_end(s, p, 10);
            if e > p {
                Ok(e)
            } else if p >= s.len() {
                Err(ParseErrorV::Text { at: (p as usize, p as usize), label: TextLabel::ExpectedDigit(10), last_token: None })
            } else {
                Err(
                    ParseErrorV::Text {
                        at: (p as usize, (p + 1) as usize),
                        label: TextLabel::ExpectedDigit(10),
                        last_token: Some(s[p as int]),
                    },
                )
            }
        },
    }
}

/// The separator between a flag and its argument: a space or `=`.
pub open spec fn separator() -> Seq<char> {
    seq![' ', '=']
}

/// One flag named `n`, with its argument read at `p`: the flag and where it ends.
pub open spec fn spec_flag(s: Seq<char>, p: nat, n: FlagNameV) -> Result<(FlagV, nat), ParseErrorV> {
    if is_flag(n, "l"@, "level"@) {
        match spec_one_of(s, p, separator()) {
            Err(e) => Err(e),
            Ok(q) => match spec_level_text(s, q) {
                Err(e) => Err(e),
                Ok(e) => match level_from_text(s.subrange(q as int, e as int)) {
                    Some(l) => Ok((FlagV::Level(l), e)),
                    None => Err(ParseErrorV::ParseLevel { at: (q as usize, e as usize) }),
                },
            },
        }
    } else if is_flag(n, "D"@, "debug"@) {
        Ok((FlagV::Level(LogLevel::Debug), p))
    } else if is_flag(n, "d"@, "decode"@) || n == FlagNameV::Long("deserialize"@) {
        match spec_one_of(s, p, separator()) {
            Err(e) => Err(e),
            Ok(q) => Ok((FlagV::Decode(spec_byte_input(s, q).0), spec_byte_input(s, q).1)),
        }
    } else if is_flag(n, "c"@, "decompress"@) {
        match spec_one_of(s, p, separator()) {
            Err(e) => Err(e),
            Ok(q) => Ok((FlagV::Decompress(spec_byte_input(s, q).0), spec_byte_input(s, q).1)),
        }
    } else if is_flag(n, "V"@, "varint"@) {
        match spec_one_of(s, p, separator()) {
            Err(e) => Err(e),
            Ok(q) => Ok((FlagV::VarInt(spec_byte_input(s, q).0), spec_byte_input(s, q).1)),
        }
    } else if is_flag(n, "h"@, "help"@) {
        Ok((FlagV::Help, p))
    } else if is_flag(n, "n"@, "nbt"@) {
        spec_nbt_flag(s, p)
    } else {
        Err(ParseErrorV::UnknownFlag {
            flag: match n {
                FlagNameV::Short(t) => t,
                FlagNameV::Long(t) => t,
            },
            at: (0, p as usize),
        })
    }
}

/// The argument of the NBT flag at `p`: a separator, the tag type (only
/// `compound`), a comma, blanks, and the bytes.
pub open spec fn spec_nbt_flag(s: Seq<char>, p: nat) -> Result<(FlagV, nat), ParseErrorV> {
        match spec_one_of(s, p, separator()) {
            Err(e) => Err(e),
            Ok(q) => match spec_ident(s, q) {
                Err(e) => Err(e),
                Ok(e) => if s.subrange(q as int, e as int) != "compound"@ {
                    Err(
                        ParseErrorV::Expected {
                            expected: ExpectationV::AnyOfStr(seq!["compound"@]),
                            found: s[q as int],
                            at: (q as usize, e as usize),
                            help: Some("an NBT tag type is: Compound"@),
                        },
                    )
                } else {
                    match spec_one_of(s, e, seq![',']) {
                        Err(err) => Err(err),
                        Ok(c) => {
                            let w = blank_end(s, c);
                            Ok((FlagV::Nbt(NbtTagType::Compound, spec_byte_input(s, w).0), spec_byte_input(s, w).1))
                        },
                    }
                },
            },
        }
}

/// Where the run of spaces and tabs that starts at `i` ends.
pub open spec fn blank_end(s: Seq<char>, i: nat) -> nat
    decreases s.len() - i,
{
    if i < s.len() && (s[i as int] == ' ' || s[i as int] == '\t') {
        blank_end(s, i + 1)
    } else {
        i
    }
}

/// The flags named by `names`, each reading its argument where the one before ended.
pub open spec fn spec_flags(s: Seq<char>, names: Seq<FlagNameV>, p: nat) -> Result<Seq<FlagV>, ParseErrorV>
    decreases names.len(),
{
    if names.len() == 0 {
        Ok(Seq::empty())
    } else {
        match spec_flag(s, p, names[0]) {
            Err(e) => Err(e),
            Ok((f, q)) => match spec_flags(s, names.drop_first(), q) {
                Err(e) => Err(e),
                Ok(fs) => Ok(seq![f] + fs),
            },
        }
    }
}

/// The command line after the flags, in order: a level flag sets the level, any
/// other sets the command.
pub open spec fn spec_apply(c: CliV, flags: Seq<FlagV>) -> CliV
    decreases flags.len(),
{
    if flags.len() == 0 {
        c
    } else {
        let next = match flags[0] {
            FlagV::Level(l) => CliV { level: l, ..c },
            FlagV::Help => CliV { command: CommandV::Help, ..c },
            FlagV::Decode(i) => CliV { command: CommandV::Decode(i), ..c },
            FlagV::VarInt(i) => CliV { command: CommandV::VarInt(i), ..c },
            FlagV::Decompress(i) => CliV { command: CommandV::Decompress(i), ..c },
            FlagV::Nbt(t, i) => CliV { command: CommandV::Nbt(t, i), ..c },
        };
        spec_apply(next, flags.drop_first())
    }
}

/// The command line: level `info` and the help, changed by the flags in order.
pub open spec fn spec_yay(s: Seq<char>) -> Result<CliV, ParseErrorV> {
    match spec_flag_list(s) {
        Err(e) => Err(e),
        Ok((names, p)) => match spec_flags(s, names, p) {
            Err(e) => Err(e),
            Ok(flags) => Ok(spec_apply(CliV { level: LogLevel::Info, command: CommandV::Help }, flags)),
        },
    }
}

} // verus!

verus! {

/// The characters of a string.
pub fn chars_of(text: &str) -> (r: Vec<char>)
    ensures
        r@ == text@,
{
    let n = text.unicode_len();
    let mut r: Vec<char> = Vec::new();
    let mut i: usize = 0;
    while i < n
        invariant
            i <= n,
            n == text@.len(),
            r@ == text@.subrange(0, i as int),
        decreases n - i,
    {
        r.push(text.get_char(i));
        i = i + 1;
        assert(r@ =~= text@.subrange(0, i as int));
    }
    assert(text@.subrange(0, n as int) =~= text@);
    r
}

fn is_digit(c: char, radix: u32) -> (r: bool)
    ensures
        r == is_digit_of(c, radix),
{
    if radix <= 10 {
        '0' <= c && (c as u32) < ('0' as u32) + radix
    } else {
        ('0' <= c && c <= '9') || ('a' <= c && c <= 'f') || ('A' <= c && c <= 'F')
    }
}

fn digit(c: char, radix: u32) -> (r: u32)
    requires
        radix == 2 || radix == 8 || radix == 10 || radix == 16,
        is_digit_of(c, radix),
    ensures
        r == digit_value(c),
        r < radix,
{
    if '0' <= c && c <= '9' {
        (c as u32) - ('0' as u32)
    } else if 'a' <= c && c <= 'f' {
        (c as u32) - ('a' as u32) + 10
    } else {
        (c as u32) - ('A' as u32) + 10
    }
}

/// Where the run of digits at `i` ends.
fn digits_end_at(s: &[char], i: usize, radix: u32) -> (r: usize)
    requires
        i <= s@.len(),
    ensures
        r == digits_end(s@, i as nat, radix),
        i <= r <= s@.len(),
        forall|j: int| i <= j < r ==> is_digit_of(#[trigger] s@[j], radix),
{
    let mut j = i;
    while j < s.len() && is_digit(s[j], radix)
        invariant
            i <= j <= s@.len(),
            digits_end(s@, j as nat, radix) == digits_end(s@, i as nat, radix),
            forall|k: int| i <= k < j ==> is_digit_of(#[trigger] s@[k], radix),
        decreases s@.len() - j,
    {
        j = j + 1;
    }
    j
}

/// The value of the digits `s[from..to]`, when it is at most 255.
fn group_value(s: &[char], from: usize, to: usize, radix: u32) -> (r: Option<u8>)
    requires
        from <= to <= s@.len(),
        radix == 2 || radix == 8 || radix == 10 || radix == 16,
        forall|j: int| from <= j < to ==> is_digit_of(#[trigger] s@[j], radix),
    ensures
        digits_value(s@.subrange(from as int, to as int), radix) <= 255 ==> r == Some(
            digits_value(s@.subrange(from as int, to as int), radix) as u8,
        ),
        digits_value(s@.subrange(from as int, to as int), radix) > 255 ==> r is None,
{
    let mut v: u32 = 0;
    let mut i = from;
    assert(s@.subrange(from as int, from as int) =~= Seq::<char>::empty());
    while i < to
        invariant
            from <= i <= to <= s@.len(),
            radix == 2 || radix == 8 || radix == 10 || radix == 16,
            forall|j: int| from <= j < to ==> is_digit_of(#[trigger] s@[j], radix),
            v <= 255,
            v == digits_value(s@.subrange(from as int, i as int), radix),
        decreases to - i,
    {
        let d = digit(s[i], radix);
        assert(v * radix + d <= 255 * 16 + 15) by (nonlinear_arith)
            requires
                v <= 255,
                d < radix,
                radix <= 16,
        ;
        let nv = v * radix + d;
        let ghost sub = s@.subrange(from as int, i + 1);
        proof {
            assert(sub.drop_last() =~= s@.subrange(from as int, i as int));
            assert(sub.last() == s@[i as int]);
        }
        if nv > 255 {
            proof {
                let whole = s@.subrange(from as int, to as int);
                assert(whole.take((i + 1 - from) as int) =~= sub);
                lemma_digits_value_grows(whole, (i + 1 - from) as int, radix);
            }
            return None;
        }
        v = nv;
        i = i + 1;
    }
    Some(v as u8)
}

/// The bytes of the digits `s[from..to]`, a byte's worth of digits to a byte; none
/// when a group's value passes 255.
fn group_bytes_of(s: &[char], from: usize, to: usize, radix: u32) -> (r: Option<Vec<u8>>)
    requires
        from <= to <= s@.len(),
        radix == 2 || radix == 8 || radix == 10 || radix == 16,
        forall|j: int| from <= j < to ==> is_digit_of(#[trigger] s@[j], radix),
    ensures
        match group_bytes(s@.subrange(from as int, to as int), radix) {
            Some(b) => r matches Some(v) && v@ == b,
            None => r is None,
        },
{
    let width: usize = if radix == 2 {
        8
    } else {
        2
    };
    let mut r: Vec<u8> = Vec::new();
    let mut i = from;
    assert(s@.subrange(from as int, to as int) =~= s@.subrange(i as int, to as int));
    assert(r@ + Seq::<u8>::empty() =~= r@);
    while i < to
        invariant
            from <= i <= to <= s@.len(),
            radix == 2 || radix == 8 || radix == 10 || radix == 16,
            width == group_width(radix),
            forall|j: int| from <= j < to ==> is_digit_of(#[trigger] s@[j], radix),
            group_bytes(s@.subrange(from as int, to as int), radix) == prepend(
                r@,
                group_bytes(s@.subrange(i as int, to as int), radix),
            ),
        decreases to - i,
    {
        let ghost d = s@.subrange(i as int, to as int);
        let w = if to - i < width { to - i } else { width };
        let end = i + w;
        proof {
            assert(d.take(w as int) =~= s@.subrange(i as int, end as int));
            assert(d.skip(w as int) =~= s@.subrange(end as int, to as int));
        }
        match group_value(s, i, end, radix) {
            None => {
                return None;
            },
            Some(v) => {
                proof {
                    let rest = group_bytes(s@.subrange(end as int, to as int), radix);
                    if let Some(b) = rest {
                        assert(r@.push(v) + b =~= r@ + (seq![v] + b));
                    }
                }
                r.push(v);
                i = end;
            },
        }
    }
    assert(s@.subrange(to as int, to as int) =~= Seq::<char>::empty());
    assert(r@ + Seq::<u8>::empty() =~= r@);
    Some(r)
}

/// Inline bytes at `p`: `0`, `letter`, and digits of `radix`.
fn numbah(s: &[char], p: usize, radix: u32, letter: char) -> (r: Option<(Vec<u8>, usize)>)
    requires
        p <= s@.len(),
        radix == 2 || radix == 8 || radix == 10 || radix == 16,
    ensures
        match spec_numbah(s@, p as nat, radix, letter) {
            Some((b, e)) => r matches Some((v, q)) && v@ == b && q == e && q <= s@.len(),
            None => r is None,
        },
{
    if p < s.len() && s.len() - p > 1 && s[p] == '0' && s[p + 1] == letter {
        let e = digits_end_at(s, p + 2, radix);
        if e > p + 2 {
            match group_bytes_of(s, p + 2, e, radix) {
                Some(b) => Some((b, e)),
                None => None,
            }
        } else {
            None
        }
    } else {
        None
    }
}

/// The bytes to work on, at `p`.
fn byte_input(text: &str, s: &[char], p: usize) -> (r: (ByteInput, usize))
    requires
        s@ == text@,
        p <= s@.len(),
    ensures
        r.0.deep_view() == spec_byte_input(s@, p as nat).0,
        r.1 == spec_byte_input(s@, p as nat).1,
        r.1 <= s@.len(),
{
    if let Some((b, e)) = numbah(s, p, 16, 'x') {
        (ByteInput::Data(b), e)
    } else if let Some((b, e)) = numbah(s, p, 2, 'b') {
        (ByteInput::Data(b), e)
    } else if let Some((b, e)) = numbah(s, p, 8, 'o') {
        (ByteInput::Data(b), e)
    } else if let Some((b, e)) = numbah(s, p, 10, 'd') {
        (ByteInput::Data(b), e)
    } else {
        let rest = text.substring_char(p, s.len()).to_owned();
        assert(rest@ =~= s@.skip(p as int));
        (ByteInput::File(rest), s.len())
    }
}

/// A space or `=` at `p`.
fn separator_at(s: &[char], p: usize) -> (r: Result<usize, ParseError>)
    requires
        p <= s@.len(),
    ensures
        r is Ok <==> spec_one_of(s@, p as nat, separator()) is Ok,
        r matches Ok(q) ==> spec_one_of(s@, p as nat, separator()) == Ok::<nat, ParseErrorV>(q as nat) && q <= s@.len(),
        r matches Err(x) ==> spec_one_of(s@, p as nat, separator()) == Err::<nat, ParseErrorV>(x.deep_view()),
{
    let set = vec![' ', '='];
    assert(set@ =~= separator());
    if p >= s.len() {
        return Err(ParseError::UnexpectedEof { at: (p, p), last_data_at: None, help: None, expected: Some(Expectation::AnyOf(set)) });
    }
    let c = s[p];
    if c == ' ' || c == '=' {
        assert(separator()[0] == ' ' && separator()[1] == '=');
        Ok(p + 1)
    } else {
        assert(!separator().contains(c)) by {
            if separator().contains(c) {
                let i = choose|i: int| 0 <= i < separator().len() && separator()[i] == c;
                assert(i == 0 || i == 1);
            }
        }
        Err(ParseError::Expected { expected: Expectation::AnyOf(set), found: c, at: (p, p + 1), help: None })
    }
}

/// A comma at `p`.
fn comma_at(s: &[char], p: usize) -> (r: Result<usize, ParseError>)
    requires
        p <= s@.len(),
    ensures
        r is Ok <==> spec_one_of(s@, p as nat, seq![',']) is Ok,
        r matches Ok(q) ==> spec_one_of(s@, p as nat, seq![',']) == Ok::<nat, ParseErrorV>(q as nat) && q <= s@.len(),
        r matches Err(x) ==> spec_one_of(s@, p as nat, seq![',']) == Err::<nat, ParseErrorV>(x.deep_view()),
{
    let set = vec![','];
    assert(set@ =~= seq![',']);
    if p >= s.len() {
        return Err(ParseError::UnexpectedEof { at: (p, p), last_data_at: None, help: None, expected: Some(Expectation::AnyOf(set)) });
    }
    let c = s[p];
    if c == ',' {
        assert(seq![','][0] == ',');
        Ok(p + 1)
    } else {
        assert(!seq![','].contains(c)) by {
            if seq![','].contains(c) {
                let i = choose|i: int| 0 <= i < seq![','].len() && seq![','][i] == c;
                assert(i == 0);
            }
        }
        Err(ParseError::Expected { expected: Expectation::AnyOf(set), found: c, at: (p, p + 1), help: None })
    }
}

/// All characters of an identifier run continue it.
proof fn lemma_ident_run(s: Seq<char>, i: nat)
    ensures
        i <= crate::types::ident_end(s, i),
        i <= s.len() ==> crate::types::ident_end(s, i) <= s.len(),
        forall|j: int| i <= j < crate::types::ident_end(s, i) ==> ident_continue(#[trigger] s[j]),
    decreases s.len() - i,
{
    if i < s.len() && ident_continue(s[i as int]) {
        lemma_ident_run(s, i + 1);
    }
}

/// An identifier at `p`.
fn ident_at(s: &[char], p: usize) -> (r: Result<usize, ParseError>)
    requires
        p <= s@.len(),
    ensures
        r is Ok <==> spec_ident(s@, p as nat) is Ok,
        r matches Ok(e) ==> spec_ident(s@, p as nat) == Ok::<nat, ParseErrorV>(e as nat) && p < e <= s@.len()
            && ident_start(s@[p as int]) && forall|j: int| p < j < e ==> ident_continue(#[trigger] s@[j]),
        r matches Err(x) ==> spec_ident(s@, p as nat) == Err::<nat, ParseErrorV>(x.deep_view()),
{
    if p >= s.len() {
        return Err(ParseError::Text { at: (p, p), label: TextLabel::ExpectedIdent, last_token: None });
    }
    let c = s[p];
    if !(('a' <= c && c <= 'z') || ('A' <= c && c <= 'Z') || c == '_') {
        return Err(ParseError::Text { at: (p, p + 1), label: TextLabel::ExpectedIdent, last_token: Some(c) });
    }
    let mut j = p + 1;
    proof {
        lemma_ident_run(s@, (p + 1) as nat);
    }
    while j < s.len() && (('a' <= s[j] && s[j] <= 'z') || ('A' <= s[j] && s[j] <= 'Z') || s[j] == '_' || (
    '0' <= s[j] && s[j] <= '9'))
        invariant
            p < j <= s@.len(),
            crate::types::ident_end(s@, j as nat) == crate::types::ident_end(s@, (p + 1) as nat),
        decreases s@.len() - j,
    {
        j = j + 1;
    }
    Ok(j)
}

/// A string of the characters `s[from..to]`.
fn substring(text: &str, s: &[char], from: usize, to: usize) -> (r: String)
    requires
        s@ == text@,
        from <= to <= s@.len(),
    ensures
        r@ == s@.subrange(from as int, to as int),
{
    text.substring_char(from, to).to_owned()
}

/// The group of flags at the front of the line.
pub fn flag_list(text: &str, s: &[char]) -> (r: Result<(Vec<FlagName>, usize), ParseError>)
    requires
        s@ == text@,
    ensures
        match spec_flag_list(s@) {
            Ok((names, e)) => r matches Ok((v, q)) && v@.len() == names.len() && (forall|i: int|
                0 <= i < names.len() ==> (#[trigger] v@[i]).deep_view() == names[i]) && q == e && q
                <= s@.len(),
            Err(e) => r matches Err(x) && x.deep_view() == e,
        },
{
    let mut names: Vec<FlagName> = Vec::new();
    if s.len() == 0 {
        return Ok((names, 0));
    }
    if s[0] != '-' {
        let set = vec!['-'];
        assert(set@ =~= seq!['-']);
        return Err(ParseError::Expected { expected: Expectation::AnyOf(set), found: s[0], at: (0, 1), help: None });
    }
    if s.len() >= 2 && s[1] == '-' {
        let e = match ident_at(s, 2) {
            Ok(v) => v,
            Err(err) => {
                return Err(err);
            },
        };
        names.push(FlagName::Long(substring(text, s, 2, e)));
        assert(seq![FlagNameV::Long(s@.subrange(2, e as int))][0] == FlagNameV::Long(s@.subrange(2, e as int)));
        return Ok((names, e));
    }
    let mut i: usize = 1;
    while i < s.len() && s[i] != ' '
        invariant
            1 <= i <= s@.len(),
            s@ == text@,
            word_end(s@, i as nat) == word_end(s@, 1),
            names@.len() == i - 1,
            forall|j: int| 0 <= j < names@.len() ==> (#[trigger] names@[j]).deep_view() == FlagNameV::Short(
                seq![s@[j + 1]],
            ),
        decreases s@.len() - i,
    {
        let t = substring(text, s, i, i + 1);
        assert(t@ =~= seq![s@[i as int]]);
        names.push(FlagName::Short(t));
        i = i + 1;
    }
    proof {
        lemma_short_names(s@, 1, i as nat);
    }
    Ok((names, i))
}

/// The short flags of `s[from..to]` by position.
proof fn lemma_short_names(s: Seq<char>, from: nat, to: nat)
    requires
        from <= to,
    ensures
        short_names(s, from, to).len() == to - from,
        forall|j: int| 0 <= j < to - from ==> #[trigger] short_names(s, from, to)[j] == FlagNameV::Short(
            seq![s[from + j]],
        ),
    decreases to - from,
{
    if from < to {
        lemma_short_names(s, from + 1, to);
        assert forall|j: int| 0 <= j < to - from implies #[trigger] short_names(s, from, to)[j]
            == FlagNameV::Short(seq![s[from + j]]) by {
            if j > 0 {
                assert(short_names(s, from, to)[j] == short_names(s, from + 1, to)[j - 1]);
            }
        }
    }
}

/// Where the run of spaces and tabs at `i` ends.
fn blank_end_at(s: &[char], i: usize) -> (r: usize)
    requires
        i <= s@.len(),
    ensures
        r == blank_end(s@, i as nat),
        r <= s@.len(),
{
    let mut j = i;
    while j < s.len() && (s[j] == ' ' || s[j] == '\t')
        invariant
            i <= j <= s@.len(),
            blank_end(s@, j as nat) == blank_end(s@, i as nat),
        decreases s@.len() - j,
    {
        j = j + 1;
    }
    j
}

/// Whether a flag name is the short name `short` or the long name `long`.
fn is_named(n: &FlagName, short: &str, long: &str) -> (r: bool)
    ensures
        r == is_flag(n.deep_view(), short@, long@),
{
    match n {
        FlagName::Short(t) => str_eq(t.as_str(), short),
        FlagName::Long(t) => str_eq(t.as_str(), long),
    }
}

} // verus!

verus! {

/// The flag named `n`, with its argument read at `p`.
pub fn flag(text: &str, s: &[char], p: usize, n: &FlagName) -> (r: Result<(Flag, usize), ParseError>)
    requires
        s@ == text@,
        p <= s@.len(),
    ensures
        match spec_flag(s@, p as nat, n.deep_view()) {
            Ok((f, e)) => r matches Ok((x, q)) && x.deep_view() == f && q == e && q <= s@.len(),
            Err(e) => r matches Err(x) && x.deep_view() == e,
        },
{
    if is_named(n, "l", "level") {
        let q = match separator_at(s, p) {
            Ok(v) => v,
            Err(err) => {
                return Err(err);
            },
        };
        let e = match ident_at(s, q) {
            Ok(e) => e,
            Err(_) => {
                let e = digits_end_at(s, q, 10);
                if e > q {
                    e
                } else if q >= s.len() {
                    return Err(ParseError::Text { at: (q, q), label: TextLabel::ExpectedDigit(10), last_token: None });
                } else {
                    return Err(
                        ParseError::Text { at: (q, q + 1), label: TextLabel::ExpectedDigit(10), last_token: Some(s[q]) },
                    );
                }
            },
        };
        assert(q <= e <= s@.len());
        let t = text.substring_char(q, e);
        assert(t@ =~= s@.subrange(q as int, e as int));
        match parse_level(t) {
            Some(l) => Ok((Flag::Level(l), e)),
            None => Err(ParseError::ParseLevel { at: (q, e) }),
        }
    } else if is_named(n, "D", "debug") {
        Ok((Flag::Level(LogLevel::Debug), p))
    } else if is_named(n, "d", "decode") || match n {
        FlagName::Long(t) => str_eq(t.as_str(), "deserialize"),
        FlagName::Short(_) => false,
    } {
        let q = match separator_at(s, p) {
            Ok(v) => v,
            Err(err) => {
                return Err(err);
            },
        };
        let (i, e) = byte_input(text, s, q);
        Ok((Flag::Decode(i), e))
    } else if is_named(n, "c", "decompress") {
        let q = match separator_at(s, p) {
            Ok(v) => v,
            Err(err) => {
                return Err(err);
            },
        };
        let (i, e) = byte_input(text, s, q);
        Ok((Flag::Decompress(i), e))
    } else if is_named(n, "V", "varint") {
        let q = match separator_at(s, p) {
            Ok(v) => v,
            Err(err) => {
                return Err(err);
            },
        };
        let (i, e) = byte_input(text, s, q);
        Ok((Flag::VarInt(i), e))
    } else if is_named(n, "h", "help") {
        Ok((Flag::Help, p))
    } else if is_named(n, "n", "nbt") {
        nbt_flag(text, s, p)
    } else {
        let name = match n {
            FlagName::Short(t) => t.clone(),
            FlagName::Long(t) => t.clone(),
        };
        Err(ParseError::UnknownFlag { flag: name, at: (0, p) })
    }
}

/// The argument of the NBT flag, read at `p`.
fn nbt_flag(text: &str, s: &[char], p: usize) -> (r: Result<(Flag, usize), ParseError>)
    requires
        s@ == text@,
        p <= s@.len(),
    ensures
        match spec_nbt_flag(s@, p as nat) {
            Ok((f, e)) => r matches Ok((x, q)) && x.deep_view() == f && q == e && q <= s@.len(),
            Err(e) => r matches Err(x) && x.deep_view() == e,
        },
{
        let q = match separator_at(s, p) {
            Ok(v) => v,
            Err(err) => {
                return Err(err);
            },
        };
        let e = match ident_at(s, q) {
            Ok(e) => e,
            Err(err) => {
                return Err(err);
            },
        };
        assert(q < e <= s@.len());
        let tag = text.substring_char(q, e);
        assert(tag@ =~= s@.subrange(q as int, e as int));
        if !str_eq(tag, "compound") {
            let expected = vec!["compound"];
            assert(str_views(expected@) =~= seq!["compound"@]);
            return Err(
                ParseError::Expected {
                    expected: Expectation::AnyOfStr(expected),
                    found: s[q],
                    at: (q, e),
                    help: Some("an NBT tag type is: Compound"),
                },
            );
        }
        let c = match comma_at(s, e) {
            Ok(v) => v,
            Err(err) => {
                return Err(err);
            },
        };
        let w = blank_end_at(s, c);
        let (i, b) = byte_input(text, s, w);
        Ok((Flag::Nbt(NbtTagType::Compound, i), b))
}

/// `r` with `fs` in front of the flags.
pub open spec fn flags_after(fs: Seq<FlagV>, r: Result<Seq<FlagV>, ParseErrorV>) -> Result<Seq<FlagV>, ParseErrorV> {
    match r {
        Ok(gs) => Ok(fs + gs),
        Err(e) => Err(e),
    }
}

/// The flags named by `names`, each reading its argument where the one before ended.
pub fn flags(text: &str, s: &[char], names: &Vec<FlagName>, p: usize) -> (r: Result<Vec<Flag>, ParseError>)
    requires
        s@ == text@,
        p <= s@.len(),
    ensures
        match spec_flags(s@, crate::ser::deep_views(names@), p as nat) {
            Ok(fs) => r matches Ok(v) && crate::ser::deep_views(v@) == fs,
            Err(e) => r matches Err(x) && x.deep_view() == e,
        },
{
    let ghost all = crate::ser::deep_views(names@);
    let mut out: Vec<Flag> = Vec::new();
    let mut i: usize = 0;
    let mut q = p;
    assert(all.skip(0) =~= all);
    assert(flags_after(crate::ser::deep_views(out@), spec_flags(s@, all, p as nat)) =~= spec_flags(
        s@,
        all,
        p as nat,
    )) by {
        if let Ok(gs) = spec_flags(s@, all, p as nat) {
            assert(Seq::<FlagV>::empty() + gs =~= gs);
        }
        assert(crate::ser::deep_views(out@) =~= Seq::<FlagV>::empty());
    }
    while i < names.len()
        invariant
            s@ == text@,
            i <= names@.len(),
            q <= s@.len(),
            all == crate::ser::deep_views(names@),
            spec_flags(s@, all, p as nat) == flags_after(
                crate::ser::deep_views(out@),
                spec_flags(s@, all.skip(i as int), q as nat),
            ),
        decreases names@.len() - i,
    {
        let ghost rest = all.skip(i as int);
        assert(rest[0] == names@[i as int].deep_view());
        assert(rest.drop_first() =~= all.skip(i + 1));
        match flag(text, s, q, &names[i]) {
            Err(e) => {
                return Err(e);
            },
            Ok((f, e)) => {
                proof {
                    let tail = spec_flags(s@, all.skip(i + 1), e as nat);
                    assert(crate::ser::deep_views(out@.push(f)) =~= crate::ser::deep_views(out@).push(
                        f.deep_view(),
                    ));
                    if let Ok(gs) = tail {
                        assert(crate::ser::deep_views(out@) + (seq![f.deep_view()] + gs) =~= crate::ser::deep_views(
                            out@,
                        ).push(f.deep_view()) + gs);
                    }
                }
                out.push(f);
                q = e;
            },
        }
        i = i + 1;
    }
    assert(all.skip(i as int) =~= Seq::<FlagNameV>::empty());
    assert(crate::ser::deep_views(out@) + Seq::<FlagV>::empty() =~= crate::ser::deep_views(out@));
    Ok(out)
}

/// Applies the flags, in order, to `cli`.
fn apply(cli: Cli, fs: Vec<Flag>) -> (r: Cli)
    ensures
        r.deep_view() == spec_apply(cli.deep_view(), crate::ser::deep_views(fs@)),
{
    let mut cli = cli;
    let mut fs = fs;
    let ghost start = cli.deep_view();
    let ghost all = crate::ser::deep_views(fs@);
    while fs.len() > 0
        invariant
            spec_apply(start, all) == spec_apply(cli.deep_view(), crate::ser::deep_views(fs@)),
        decreases fs@.len(),
    {
        let ghost before = fs@;
        let f = fs.remove(0);
        proof {
            assert(crate::ser::deep_views(before).drop_first() =~= crate::ser::deep_views(fs@));
            assert(crate::ser::deep_views(before)[0] == f.deep_view());
        }
        match f {
            Flag::Level(l) => {
                cli.level = l;
            },
            Flag::Help => {
                cli.command = CliCommand::Help;
            },
            Flag::Decode(i) => {
                cli.command = CliCommand::Decode(i);
            },
            Flag::VarInt(i) => {
                cli.command = CliCommand::VarInt(i);
            },
            Flag::Decompress(i) => {
                cli.command = CliCommand::Decompress(i);
            },
            Flag::Nbt(t, i) => {
                cli.command = CliCommand::Nbt(t, i);
            },
        }
    }
    cli
}

/// Parses a command line (the arguments joined by spaces): level `info` and the
/// help, changed by the group of flags at its front, in order.
pub fn yay(text: &str) -> (r: Result<Cli, ParseError>)
    ensures
        match spec_yay(text@) {
            Ok(c) => r matches Ok(x) && x.deep_view() == c,
            Err(e) => r matches Err(x) && x.deep_view() == e,
        },
{
    let s = chars_of(text);
    let (names, p) = match flag_list(text, s.as_slice()) {
            Ok(v) => v,
            Err(err) => {
                return Err(err);
            },
        };
    proof {
        if let Ok((ns, _)) = spec_flag_list(s@) {
            assert(crate::ser::deep_views(names@) =~= ns);
        }
    }
    let fs = match flags(text, s.as_slice(), &names, p) {
            Ok(v) => v,
            Err(err) => {
                return Err(err);
            },
        };
    let cli = Cli { level: LogLevel::Info, command: CliCommand::Help };
    Ok(apply(cli, fs))
}

} // verus!

verus! {

/// The command line of the server: the port it listens on.
#[derive(Debug, Clone, Copy, PartialEq, Eq)]
pub struct ServerCli {
    pub port: u16,
}

/// The help given when a port does not fit.
pub open spec fn port_help() -> Seq<char> {
    "a port can only be a u16 (0 ... 65535), but your input either didn't fit into a u16 or isn't a number at all."@
}

/// A decimal number at `p`: `0` alone, or digits that do not start with `0`; where
/// it ends.
pub open spec fn spec_int(s: Seq<char>, p: nat) -> Result<nat, ParseErrorV> {
    if p >= s.len() {
        Err(ParseErrorV::UnexpectedEof { at: (p as usize, p as usize), last_data_at: None, help: None, expected: None })
    } else if s[p as int] == '0' {
        Ok(p + 1)
    } else if is_digit_of(s[p as int], 10) {
        Ok(digits_end(s, p, 10))
    } else {
        Err(
            ParseErrorV::Expected {
                expected: ExpectationV::AnyOf(Seq::empty()),
                found: s[p as int],
                at: (p as usize, (p + 1) as usize),
                help: None,
            },
        )
    }
}

/// One flag of the server's command line: the port.
pub open spec fn spec_server_flag(s: Seq<char>, p: nat, n: FlagNameV) -> Result<(u16, nat), ParseErrorV> {
    if is_flag(n, "p"@, "port"@) {
        match spec_one_of(s, p, separator()) {
            Err(e) => Err(e),
            Ok(q) => match spec_int(s, q) {
                Err(e) => Err(e),
                Ok(e) => if decimal(s.subrange(q as int, e as int)) <= 65535 {
                    Ok((decimal(s.subrange(q as int, e as int)) as u16, e))
                } else {
                    Err(
                        ParseErrorV::ExpectedNumber {
                            radix: 10,
                            actual: s.subrange(q as int, e as int),
                            at: (q as usize, e as usize),
                            help: Some(port_help()),
                        },
                    )
                },
            },
        }
    } else {
        Err(ParseErrorV::UnknownFlag {
            flag: match n {
                FlagNameV::Short(t) => t,
                FlagNameV::Long(t) => t,
            },
            at: (0, p as usize),
        })
    }
}

/// The ports named by the flags, in order, each read where the one before ended.
pub open spec fn spec_server_flags(s: Seq<char>, names: Seq<FlagNameV>, p: nat) -> Result<Seq<u16>, ParseErrorV>
    decreases names.len(),
{
    if names.len() == 0 {
        Ok(Seq::empty())
    } else {
        match spec_server_flag(s, p, names[0]) {
            Err(e) => Err(e),
            Ok((port, q)) => match spec_server_flags(s, names.drop_first(), q) {
                Err(e) => Err(e),
                Ok(ps) => Ok(seq![port] + ps),
            },
        }
    }
}

/// The server's command line: port 25565, or the last port given by the flags.
pub open spec fn spec_server_yay(s: Seq<char>) -> Result<u16, ParseErrorV> {
    match spec_flag_list(s) {
        Err(e) => Err(e),
        Ok((names, p)) => match spec_server_flags(s, names, p) {
            Err(e) => Err(e),
            Ok(ps) => Ok(if ps.len() == 0 {
                25565u16
            } else {
                ps.last()
            }),
        },
    }
}

/// The value of decimal digits, when it is at most 65535.
fn small_decimal(s: &[char], from: usize, to: usize) -> (r: Option<u16>)
    requires
        from <= to <= s@.len(),
        forall|j: int| from <= j < to ==> is_digit_of(#[trigger] s@[j], 10),
    ensures
        decimal(s@.subrange(from as int, to as int)) <= 65535 ==> r == Some(
            decimal(s@.subrange(from as int, to as int)) as u16,
        ),
        decimal(s@.subrange(from as int, to as int)) > 65535 ==> r is None,
{
    let mut v: u32 = 0;
    let mut i = from;
    while i < to
        invariant
            from <= i <= to <= s@.len(),
            forall|j: int| from <= j < to ==> is_digit_of(#[trigger] s@[j], 10),
            v == decimal(s@.subrange(from as int, i as int)),
            v <= 65535,
        decreases to - i,
    {
        let d = digit(s[i], 10);
        proof {
            assert(s@.subrange(from as int, i + 1).drop_last() =~= s@.subrange(from as int, i as int));
            assert(s@.subrange(from as int, i + 1).last() == s@[i as int]);
        }
        if v > 6553 || v * 10 + d > 65535 {
            proof {
                lemma_decimal_grows(s@.subrange(from as int, to as int), (i + 1 - from) as nat);
                assert(s@.subrange(from as int, to as int).take((i + 1 - from) as int) =~= s@.subrange(
                    from as int,
                    i + 1,
                ));
            }
            return None;
        }
        v = v * 10 + d;
        i = i + 1;
    }
    Some(v as u16)
}

/// A number only grows as digits are added.
proof fn lemma_decimal_grows(t: Seq<char>, k: nat)
    requires
        k <= t.len(),
    ensures
        decimal(t.take(k as int)) <= decimal(t),
    decreases t.len() - k,
{
    if k < t.len() {
        lemma_decimal_grows(t, k + 1);
        assert(t.take((k + 1) as int).drop_last() =~= t.take(k as int));
    } else {
        assert(t.take(k as int) =~= t);
    }
}

/// The port flag, read at `p`.
fn server_flag(text: &str, s: &[char], p: usize, n: &FlagName) -> (r: Result<(u16, usize), ParseError>)
    requires
        s@ == text@,
        p <= s@.len(),
    ensures
        match spec_server_flag(s@, p as nat, n.deep_view()) {
            Ok((port, e)) => r matches Ok((x, q)) && x == port && q == e && q <= s@.len(),
            Err(e) => r matches Err(x) && x.deep_view() == e,
        },
{
    if !is_named(n, "p", "port") {
        let name = match n {
            FlagName::Short(t) => t.clone(),
            FlagName::Long(t) => t.clone(),
        };
        return Err(ParseError::UnknownFlag { flag: name, at: (0, p) });
    }
    let q = match separator_at(s, p) {
        Ok(v) => v,
        Err(err) => {
            return Err(err);
        },
    };
    if q >= s.len() {
        return Err(ParseError::UnexpectedEof { at: (q, q), last_data_at: None, help: None, expected: None });
    }
    let e = if s[q] == '0' {
        q + 1
    } else if is_digit(s[q], 10) {
        digits_end_at(s, q, 10)
    } else {
        let none: Vec<char> = Vec::new();
        assert(none@ =~= Seq::<char>::empty());
        return Err(
            ParseError::Expected { expected: Expectation::AnyOf(none), found: s[q], at: (q, q + 1), help: None },
        );
    };
    proof {
        if s@[q as int] == '0' {
            assert(is_digit_of(s@[q as int], 10));
        }
    }
    match small_decimal(s, q, e) {
        Some(v) => Ok((v, e)),
        None => Err(
            ParseError::ExpectedNumber {
                radix: 10,
                actual: substring(text, s, q, e),
                at: (q, e),
                help: Some(
                    "a port can only be a u16 (0 ... 65535), but your input either didn't fit into a u16 or isn't a number at all.",
                ),
            },
        ),
    }
}

/// Parses the server's command line (the arguments joined by spaces): port 25565,
/// or the last one given by the group of flags at its front.
pub fn server_yay(text: &str) -> (r: Result<ServerCli, ParseError>)
    ensures
        match spec_server_yay(text@) {
            Ok(port) => r matches Ok(c) && c.port == port,
            Err(e) => r matches Err(x) && x.deep_view() == e,
        },
{
    let s = chars_of(text);
    let (names, p) = match flag_list(text, s.as_slice()) {
        Ok(v) => v,
        Err(err) => {
            return Err(err);
        },
    };
    let ghost all = crate::ser::deep_views(names@);
    proof {
        if let Ok((ns, _)) = spec_flag_list(s@) {
            assert(all =~= ns);
        }
    }
    let mut cli = ServerCli { port: 25565 };
    let mut i: usize = 0;
    let mut q = p;
    let ghost mut seen: Seq<u16> = Seq::empty();
    assert(all.skip(0) =~= all);
    while i < names.len()
        invariant
            s@ == text@,
            i <= names@.len(),
            q <= s@.len(),
            all == crate::ser::deep_views(names@),
            spec_flag_list(s@) matches Ok((ns, pp)) && ns == all && pp == p,
            cli.port == if seen.len() == 0 {
                25565u16
            } else {
                seen.last()
            },
            spec_server_flags(s@, all, p as nat) == match spec_server_flags(s@, all.skip(i as int), q as nat) {
                Ok(ps) => Ok::<Seq<u16>, ParseErrorV>(seen + ps),
                Err(e) => Err(e),
            },
        decreases names@.len() - i,
    {
        assert(all.skip(i as int)[0] == names@[i as int].deep_view());
        assert(all.skip(i as int).drop_first() =~= all.skip(i + 1));
        match server_flag(text, s.as_slice(), q, &names[i]) {
            Err(e) => {
                return Err(e);
            },
            Ok((port, e)) => {
                proof {
                    let tail = spec_server_flags(s@, all.skip(i + 1), e as nat);
                    if let Ok(ps) = tail {
                        assert(seen + (seq![port] + ps) =~= seen.push(port) + ps);
                    }
                    seen = seen.push(port);
                }
                cli.port = port;
                q = e;
            },
        }
        i = i + 1;
    }
    assert(all.skip(i as int) =~= Seq::<FlagNameV>::empty());
    assert(seen + Seq::<u16>::empty() =~= seen);
    Ok(cli)
}

} // verus!
