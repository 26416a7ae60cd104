use vstd::prelude::*;

use crate::error::{Error, Feature};
use crate::main_data::MainData;

verus! {

/// Single-character punctuation.
#[derive(Clone, Copy, Debug, PartialEq, Eq, Structural)]
pub enum Separator {
    Semicolon,
    Comma,
    Period,
    OpenParenthesis,
    CloseParenthesis,
    OpenSquareParenthesis,
    CloseSquareParenthesis,
    OpenCurlyParenthesis,
    CloseCurlyParenthesis,
}

impl Separator {
    pub open spec fn symbol(self) -> char {
        match self {
            Separator::Semicolon => ';',
            Separator::Comma => ',',
            Separator::Period => '.',
            Separator::OpenParenthesis => '(',
            Separator::CloseParenthesis => ')',
            Separator::OpenSquareParenthesis => '[',
            Separator::CloseSquareParenthesis => ']',
            Separator::OpenCurlyParenthesis => '{',
            Separator::CloseCurlyParenthesis => '}',
        }
    }

    /// The separator written as `c`, if any.
    pub open spec fn spec_from_symbol(c: char) -> Option<Separator> {
        if c == ';' {
            Some(Separator::Semicolon)
        } else if c == ',' {
            Some(Separator::Comma)
        } else if c == '.' {
            Some(Separator::Period)
        } else if c == '(' {
            Some(Separator::OpenParenthesis)
        } else if c == ')' {
            Some(Separator::CloseParenthesis)
        } else if c == '[' {
            Some(Separator::OpenSquareParenthesis)
        } else if c == ']' {
            Some(Separator::CloseSquareParenthesis)
        } else if c == '{' {
            Some(Separator::OpenCurlyParenthesis)
        } else if c == '}' {
            Some(Separator::CloseCurlyParenthesis)
        } else {
            None
        }
    }

    pub fn get_symbol(&self) -> (r: char)
        ensures
            r == self.symbol(),
    {
        match self {
            Separator::Semicolon => ';',
            Separator::Comma => ',',
            Separator::Period => '.',
            Separator::OpenParenthesis => '(',
            Separator::CloseParenthesis => ')',
            Separator::OpenSquareParenthesis => '[',
            Separator::CloseSquareParenthesis => ']',
            Separator::OpenCurlyParenthesis => '{',
            Separator::CloseCurlyParenthesis => '}',
        }
    }

    pub fn from_symbol(c: char) -> (r: Option<Separator>)
        ensures
            r == Separator::spec_from_symbol(c),
            r matches Some(s) ==> s.symbol() == c,
    {
        if c == ';' {
            Some(Separator::Semicolon)
        } else if c == ',' {
            Some(Separator::Comma)
        } else if c == '.' {
            Some(Separator::Period)
        } else if c == '(' {
            Some(Separator::OpenParenthesis)
        } else if c == ')' {
            Some(Separator::CloseParenthesis)
        } else if c == '[' {
            Some(Separator::OpenSquareParenthesis)
        } else if c == ']' {
            Some(Separator::CloseSquareParenthesis)
        } else if c == '{' {
            Some(Separator::OpenCurlyParenthesis)
        } else if c == '}' {
            Some(Separator::CloseCurlyParenthesis)
        } else {
            None
        }
    }

    /// Every separator paired with its symbol, one entry per separator.
    pub fn get_symbols_map() -> (r: Vec<(char, Separator)>)
        ensures
            r@.len() == 9,
            forall|i: int| 0 <= i < r@.len() ==> (#[trigger] r@[i]).0 == r@[i].1.symbol(),
            forall|s: Separator| #[trigger] r@.contains((s.symbol(), s)),
            forall|i: int, j: int|
                0 <= i < r@.len() && 0 <= j < r@.len() && i != j ==> r@[i].0 != r@[j].0,
    {
        let r = vec![
            (';', Separator::Semicolon),
            (',', Separator::Comma),
            ('.', Separator::Period),
            ('(', Separator::OpenParenthesis),
            (')', Separator::CloseParenthesis),
            ('[', Separator::OpenSquareParenthesis),
            (']', Separator::CloseSquareParenthesis),
            ('{', Separator::OpenCurlyParenthesis),
            ('}', Separator::CloseCurlyParenthesis),
        ];
        assert forall|s: Separator| #[trigger] r@.contains((s.symbol(), s)) by {
            match s {
                Separator::Semicolon => assert(r@[0] == (s.symbol(), s)),
                Separator::Comma => assert(r@[1] == (s.symbol(), s)),
                Separator::Period => assert(r@[2] == (s.symbol(), s)),
                Separator::OpenParenthesis => assert(r@[3] == (s.symbol(), s)),
                Separator::CloseParenthesis => assert(r@[4] == (s.symbol(), s)),
                Separator::OpenSquareParenthesis => assert(r@[5] == (s.symbol(), s)),
                Separator::CloseSquareParenthesis => assert(r@[6] == (s.symbol(), s)),
                Separator::OpenCurlyParenthesis => assert(r@[7] == (s.symbol(), s)),
                Separator::CloseCurlyParenthesis => assert(r@[8] == (s.symbol(), s)),
            }
        }
        r
    }
}

/// Words written after `@`.
#[derive(Clone, Copy, Debug, PartialEq, Eq, Structural)]
pub enum Keyword {
    EntryPoint,
}

/// The characters of the one keyword, `entry_point`.
pub open spec fn entry_point_chars() -> Seq<char> {
    seq!['e', 'n', 't', 'r', 'y', '_', 'p', 'o', 'i', 'n', 't']
}

impl Keyword {
    pub open spec fn symbol(self) -> Seq<char> {
        match self {
            Keyword::EntryPoint => entry_point_chars(),
        }
    }

    pub open spec fn spec_from_name(name: Seq<char>) -> Option<Keyword> {
        if name == entry_point_chars() {
            Some(Keyword::EntryPoint)
        } else {
            None
        }
    }

    pub fn get_symbol(self) -> (r: &'static str)
        ensures
            r@ == self.symbol(),
    {
        match self {
            Keyword::EntryPoint => {
                proof {
                    reveal_strlit("entry_point");
                }
                "entry_point"
            },
        }
    }

    /// The keyword spelled by `name`, if any.
    pub fn from_name(name: &[char]) -> (r: Option<Keyword>)
        ensures
            r == Keyword::spec_from_name(name@),
    {
        let expected: [char; 11] = ['e', 'n', 't', 'r', 'y', '_', 'p', 'o', 'i', 'n', 't'];
        assert(expected@ == entry_point_chars());
        if name.len() != 11 {
            return None;
        }
        let mut i: usize = 0;
        while i < 11
            invariant
                name@.len() == 11,
                expected@ == entry_point_chars(),
                i <= 11,
                forall|j: int| 0 <= j < i ==> name@[j] == expected@[j],
            decreases 11 - i,
        {
            if name[i] != expected[i] {
                return None;
            }
            i = i + 1;
        }
        assert(name@ =~= entry_point_chars());
        Some(Keyword::EntryPoint)
    }

    /// Every keyword paired with its spelling.
    pub fn get_symbols_map() -> (r: Vec<(&'static str, Keyword)>)
        ensures
            r@.len() == 1,
            forall|i: int| 0 <= i < r@.len() ==> (#[trigger] r@[i]).0@ == r@[i].1.symbol(),
            r@[0].1 == Keyword::EntryPoint,
    {
        let r = vec![(Keyword::EntryPoint.get_symbol(), Keyword::EntryPoint)];
        r
    }
}

/// The arithmetic symbols an operator token may start with.
#[derive(Clone, Copy, Debug, PartialEq, Eq, Structural)]
pub enum Operator {
    AddRead,
    SubtractNegate,
    MultiplyDerefrence,
    DivideReciprocal,
    ModuloPercent,
}

impl Operator {
    pub open spec fn symbol(self) -> char {
        match self {
            Operator::AddRead => '+',
            Operator::SubtractNegate => '-',
            Operator::MultiplyDerefrence => '*',
            Operator::DivideReciprocal => '/',
            Operator::ModuloPercent => '%',
        }
    }

    pub open spec fn spec_from_symbol(c: char) -> Option<Operator> {
        if c == '+' {
            Some(Operator::AddRead)
        } else if c == '-' {
            Some(Operator::SubtractNegate)
        } else if c == '*' {
            Some(Operator::MultiplyDerefrence)
        } else if c == '/' {
            Some(Operator::DivideReciprocal)
        } else if c == '%' {
            Some(Operator::ModuloPercent)
        } else {
            None
        }
    }

    pub fn get_symbol(self) -> (r: &'static str)
        ensures
            r@ == seq![self.symbol()],
    {
        match self {
            Operator::AddRead => {
                proof {
                    reveal_strlit("+");
                }
                "+"
            },
            Operator::SubtractNegate => {
                proof {
                    reveal_strlit("-");
                }
                "-"
            },
            Operator::MultiplyDerefrence => {
                proof {
                    reveal_strlit("*");
                }
                "*"
            },
            Operator::DivideReciprocal => {
                proof {
                    reveal_strlit("/");
                }
                "/"
            },
            Operator::ModuloPercent => {
                proof {
                    reveal_strlit("%");
                }
                "%"
            },
        }
    }

    pub fn from_symbol(c: char) -> (r: Option<Operator>)
        ensures
            r == Operator::spec_from_symbol(c),
    {
        if c == '+' {
            Some(Operator::AddRead)
        } else if c == '-' {
            Some(Operator::SubtractNegate)
        } else if c == '*' {
            Some(Operator::MultiplyDerefrence)
        } else if c == '/' {
            Some(Operator::DivideReciprocal)
        } else if c == '%' {
            Some(Operator::ModuloPercent)
        } else {
            None
        }
    }

    /// The characters that make up operator tokens.
    pub fn get_character_set() -> (r: Vec<char>)
        ensures
            forall|c: char| is_operator_char(c) <==> r@.contains(c),
    {
        let r = vec!['+', '-', '*', '/', '%', '=', '!', '<', '>', '&', '|', '~', '^', '?', '#', '$', ':'];
        assert forall|c: char| is_operator_char(c) <==> r@.contains(c) by {
            if is_operator_char(c) {
                if c == '+' { assert(r@[0] == c); }
                else if c == '-' { assert(r@[1] == c); }
                else if c == '*' { assert(r@[2] == c); }
                else if c == '/' { assert(r@[3] == c); }
                else if c == '%' { assert(r@[4] == c); }
                else if c == '=' { assert(r@[5] == c); }
                else if c == '!' { assert(r@[6] == c); }
                else if c == '<' { assert(r@[7] == c); }
                else if c == '>' { assert(r@[8] == c); }
                else if c == '&' { assert(r@[9] == c); }
                else if c == '|' { assert(r@[10] == c); }
                else if c == '~' { assert(r@[11] == c); }
                else if c == '^' { assert(r@[12] == c); }
                else if c == '?' { assert(r@[13] == c); }
                else if c == '#' { assert(r@[14] == c); }
                else if c == '$' { assert(r@[15] == c); }
                else { assert(r@[16] == c); }
            }
        }
        r
    }

    /// Every operator symbol paired with its operator.
    pub fn get_symbols_map() -> (r: Vec<(&'static str, Operator)>)
        ensures
            r@.len() == 5,
            forall|i: int| 0 <= i < r@.len() ==> (#[trigger] r@[i]).0@ == seq![r@[i].1.symbol()],
            r@[0].1 == Operator::AddRead,
            r@[1].1 == Operator::SubtractNegate,
            r@[2].1 == Operator::MultiplyDerefrence,
            r@[3].1 == Operator::DivideReciprocal,
            r@[4].1 == Operator::ModuloPercent,
    {
        let r = vec![
            (Operator::AddRead.get_symbol(), Operator::AddRead),
            (Operator::SubtractNegate.get_symbol(), Operator::SubtractNegate),
            (Operator::MultiplyDerefrence.get_symbol(), Operator::MultiplyDerefrence),
            (Operator::DivideReciprocal.get_symbol(), Operator::DivideReciprocal),
            (Operator::ModuloPercent.get_symbol(), Operator::ModuloPercent),
        ];
        r
    }
}

/// The flavour of an operator, chosen by an optional marker character.
#[derive(Clone, Copy, Debug, PartialEq, Eq, Structural)]
pub enum OperatorType {
    SignedLogicalShortCircuit,
    UnsignedLogicalNotShortCircuit,
    FloatingPointBitwise,
}

impl OperatorType {
    pub open spec fn symbol(self) -> Option<char> {
        match self {
            OperatorType::SignedLogicalShortCircuit => None,
            OperatorType::UnsignedLogicalNotShortCircuit => Some('$'),
            OperatorType::FloatingPointBitwise => Some('~'),
        }
    }

    pub fn get_symbol(self) -> (r: Option<char>)
        ensures
            r == self.symbol(),
    {
        match self {
            OperatorType::SignedLogicalShortCircuit => None,
            OperatorType::UnsignedLogicalNotShortCircuit => Some('$'),
            OperatorType::FloatingPointBitwise => Some('~'),
        }
    }

    /// Each operator type that has a marker character, paired with it.
    pub fn get_symbols_map() -> (r: Vec<(char, OperatorType)>)
        ensures
            forall|i: int| 0 <= i < r@.len() ==> (#[trigger] r@[i]).1.symbol() == Some(r@[i].0),
            forall|t: OperatorType, c: char| t.symbol() == Some(c) ==> r@.contains((c, t)),
    {
        let r = vec![
            ('$', OperatorType::UnsignedLogicalNotShortCircuit),
            ('~', OperatorType::FloatingPointBitwise),
        ];
        assert forall|t: OperatorType, c: char| t.symbol() == Some(c) implies r@.contains((c, t)) by {
            match t {
                OperatorType::SignedLogicalShortCircuit => {},
                OperatorType::UnsignedLogicalNotShortCircuit => assert(r@[0] == (c, t)),
                OperatorType::FloatingPointBitwise => assert(r@[1] == (c, t)),
            }
        }
        r
    }
}

/// What a token is, with its payload.
#[derive(Clone, Debug, PartialEq, Eq)]
pub enum TokenVariant {
    NumericalLiteral(u64),
    StringLiteral(String),
    Identifier(String),
    Keyword(Keyword),
    Separator(Separator),
    Operator(Option<Operator>, OperatorType, bool),
}

/// A token with the place in the source where it starts and its length in characters.
#[derive(Clone, Debug, PartialEq, Eq)]
pub struct Token {
    pub variant: TokenVariant,
    pub line: usize,
    pub column: usize,
    pub char_length: usize,
}


pub open spec fn is_ascii_alphabetic(c: char) -> bool {
    ('a' <= c && c <= 'z') || ('A' <= c && c <= 'Z')
}

pub open spec fn is_ascii_digit(c: char) -> bool {
    '0' <= c && c <= '9'
}

/// The characters that operator tokens are made of.
pub open spec fn is_operator_char(c: char) -> bool {
    c == '+' || c == '-' || c == '*' || c == '/' || c == '%' || c == '=' || c == '!' || c == '<'
        || c == '>' || c == '&' || c == '|' || c == '~' || c == '^' || c == '?' || c == '#'
        || c == '$' || c == ':'
}

/// The kinds of maximal character runs that form a token.
#[derive(Clone, Copy, Debug, PartialEq, Eq, Structural)]
pub enum RunKind {
    /// Letters, digits and underscores.
    Word,
    /// Letters, digits, underscores and periods.
    Number,
    /// Operator characters.
    Symbol,
}

pub open spec fn in_run(kind: RunKind, c: char) -> bool {
    match kind {
        RunKind::Word => is_ascii_alphabetic(c) || is_ascii_digit(c) || c == '_',
        RunKind::Number => is_ascii_alphabetic(c) || is_ascii_digit(c) || c == '_' || c == '.',
        RunKind::Symbol => is_operator_char(c),
    }
}

/// The index of the first character at or after `i` that does not belong to a run of `kind`.
pub open spec fn run_end(s: Seq<char>, kind: RunKind, i: int) -> int
    decreases s.len() - i,
{
    if i < 0 || i >= s.len() || !in_run(kind, s[i]) {
        i
    } else {
        run_end(s, kind, i + 1)
    }
}

/// The value of `c` as a digit of `base`, if it is one (`0-9`, then `a-z` or `A-Z` from ten).
pub open spec fn digit_value(c: char, base: u32) -> Option<u32> {
    let d: int = if is_ascii_digit(c) {
        (c as u32) - ('0' as u32)
    } else if 'a' <= c && c <= 'z' {
        (c as u32) - ('a' as u32) + 10
    } else if 'A' <= c && c <= 'Z' {
        (c as u32) - ('A' as u32) + 10
    } else {
        36
    };
    if d < base {
        Some(d as u32)
    } else {
        None
    }
}

/// Reading the digits of `s` in `base` from the left, with underscores skipped, an
/// invalid digit rejected, and every intermediate value checked against `max`.
pub open spec fn digits_outcome(s: Seq<char>, base: u32, max: u64) -> Result<u64, Error>
    decreases s.len(),
{
    if s.len() == 0 {
        Ok(0)
    } else {
        match digits_outcome(s.drop_last(), base, max) {
            Err(e) => Err(e),
            Ok(v) => {
                let c = s.last();
                if c == '_' {
                    Ok(v)
                } else {
                    match digit_value(c, base) {
                        None => Err(Error::InvalidDigitForBase(c, base as u8)),
                        Some(d) => {
                            let n = v * base + d;
                            if n > max {
                                Err(Error::NumericalLiteralTooLarge)
                            } else {
                                Ok(n as u64)
                            }
                        },
                    }
                }
            },
        }
    }
}

/// The value of a digit string in `base`, underscores ignored.
pub open spec fn digits_value(s: Seq<char>, base: u32) -> int
    decreases s.len(),
{
    if s.len() == 0 {
        0
    } else if s.last() == '_' {
        digits_value(s.drop_last(), base)
    } else {
        digits_value(s.drop_last(), base) * base + match digit_value(s.last(), base) {
            Some(d) => d as int,
            None => 0,
        }
    }
}

/// Every character of `s` is a digit of `base` or an underscore.
pub open spec fn all_digits(s: Seq<char>, base: u32) -> bool {
    forall|i: int| 0 <= i < s.len() ==> s[i] == '_' || digit_value(#[trigger] s[i], base) is Some
}

/// The literal's text starts with a two-character base prefix such as `0x`.
pub open spec fn has_base_prefix(t: Seq<char>) -> bool {
    t.len() >= 2 && t[0] == '0' && !is_ascii_digit(t[1])
}

/// The base of an integer literal: from its prefix (`0x`, `0o`, `0b`), else ten.
/// `None` for a float prefix or an unknown one.
pub open spec fn literal_base(t: Seq<char>) -> Option<u32> {
    if has_base_prefix(t) {
        if t[1] == 'x' {
            Some(16)
        } else if t[1] == 'o' {
            Some(8)
        } else if t[1] == 'b' {
            Some(2)
        } else {
            None
        }
    } else {
        Some(10)
    }
}

/// The digits of a literal, after its prefix.
pub open spec fn literal_digits(t: Seq<char>) -> Seq<char> {
    if has_base_prefix(t) {
        t.skip(2)
    } else {
        t
    }
}

/// The outcome of reading a numerical literal's text: an optional base prefix
/// (`0x`, `0o`, `0b`, or `0f` for floats), then the digits.
pub open spec fn literal_outcome(t: Seq<char>, max: u64) -> Result<u64, Error> {
    if has_base_prefix(t) && t[1] == 'f' {
        Err(Error::FeatureNotYetImplemented(Feature::FloatLiterals))
    } else {
        match literal_base(t) {
            Some(base) => digits_outcome(literal_digits(t), base, max),
            None => Err(Error::InvalidNumericalLiteralBase(t[1])),
        }
    }
}

/// A run of digits overflows exactly when its value exceeds `max`; otherwise it is
/// read as its value.
pub proof fn lemma_digits_overflow(s: Seq<char>, base: u32, max: u64)
    requires
        2 <= base <= 16,
        all_digits(s, base),
    ensures
        digits_value(s, base) >= 0,
        digits_outcome(s, base, max) == (if digits_value(s, base) > max {
            Err::<u64, Error>(Error::NumericalLiteralTooLarge)
        } else {
            Ok::<u64, Error>(digits_value(s, base) as u64)
        }),
    decreases s.len(),
{
    if s.len() > 0 {
        let p = s.drop_last();
        assert forall|i: int| 0 <= i < p.len() implies p[i] == '_' || digit_value(
            #[trigger] p[i],
            base,
        ) is Some by {
            assert(p[i] == s[i]);
        }
        lemma_digits_overflow(p, base, max);
        let v = digits_value(p, base);
        if s.last() != '_' {
            assert(s[s.len() - 1] == s.last());
            let d = digit_value(s.last(), base)->0 as int;
            assert(v * base + d >= v) by (nonlinear_arith)
                requires
                    v >= 0,
                    base >= 2,
                    d >= 0,
            ;
        }
    }
}

/// A numerical literal whose digits are all valid for its base is rejected as too
/// large exactly when its value exceeds the integer type's maximum, and is read as
/// its value otherwise, the maximum itself included.
pub proof fn lemma_literal_overflow(main_data: MainData, line: Seq<char>)
    requires
        line.len() > 0,
        is_ascii_digit(line[0]),
        literal_base(line.take(token_end(line))) is Some,
        all_digits(
            literal_digits(line.take(token_end(line))),
            literal_base(line.take(token_end(line)))->0,
        ),
    ensures
        ({
            let t = line.take(token_end(line));
            let v = digits_value(literal_digits(t), literal_base(t)->0);
            &&& v > main_data.int_max_value ==> lex_fails_with(
                line,
                main_data.int_max_value,
                Error::NumericalLiteralTooLarge,
            )
            &&& v <= main_data.int_max_value ==> lexes_to(
                line,
                main_data.int_max_value,
                TokenVariant::NumericalLiteral(v as u64),
            )
        }),
{
    let t = line.take(token_end(line));
    lemma_digits_overflow(literal_digits(t), literal_base(t)->0, main_data.int_max_value);
}

/// The parts of an operator token: an optional arithmetic symbol, an optional type
/// marker (`$` or `~`) and an optional trailing `=`, with nothing else.
pub open spec fn operator_parts(t: Seq<char>) -> Option<(Option<Operator>, OperatorType, bool)> {
    let symbol = if t.len() > 0 {
        Operator::spec_from_symbol(t[0])
    } else {
        None
    };
    let i: int = if symbol is Some {
        1
    } else {
        0
    };
    let operator_type = if i < t.len() && t[i] == '$' {
        OperatorType::UnsignedLogicalNotShortCircuit
    } else if i < t.len() && t[i] == '~' {
        OperatorType::FloatingPointBitwise
    } else {
        OperatorType::SignedLogicalShortCircuit
    };
    let j: int = if operator_type == OperatorType::SignedLogicalShortCircuit {
        i
    } else {
        i + 1
    };
    let flag = j < t.len() && t[j] == '=';
    let k: int = if flag {
        j + 1
    } else {
        j
    };
    if k == t.len() {
        Some((symbol, operator_type, flag))
    } else {
        None
    }
}

pub open spec fn starts_comment(s: Seq<char>) -> bool {
    s.len() >= 2 && s[0] == '/' && (s[1] == '/' || s[1] == '*')
}

/// The number of characters of the token at the start of `s`.
pub open spec fn token_end(s: Seq<char>) -> int {
    let c = s[0];
    if is_ascii_alphabetic(c) || c == '_' {
        run_end(s, RunKind::Word, 0)
    } else if is_ascii_digit(c) {
        run_end(s, RunKind::Number, 0)
    } else if Separator::spec_from_symbol(c) is Some {
        1
    } else if is_operator_char(c) {
        run_end(s, RunKind::Symbol, 0)
    } else {
        run_end(s, RunKind::Word, 1)
    }
}

/// The token at the start of `s` is `v`.
pub open spec fn lexes_to(s: Seq<char>, max: u64, v: TokenVariant) -> bool {
    let c = s[0];
    let t = s.take(token_end(s));
    if starts_comment(s) {
        false
    } else if is_ascii_alphabetic(c) || c == '_' {
        v matches TokenVariant::Identifier(name) && name@ == t
    } else if is_ascii_digit(c) {
        literal_outcome(t, max) matches Ok(n) && v == TokenVariant::NumericalLiteral(n)
    } else if Separator::spec_from_symbol(c) is Some {
        v == TokenVariant::Separator(Separator::spec_from_symbol(c)->0)
    } else if is_operator_char(c) {
        operator_parts(t) matches Some((a, b, f)) && v == TokenVariant::Operator(a, b, f)
    } else if c == '@' {
        Keyword::spec_from_name(t.skip(1)) matches Some(k) && v == TokenVariant::Keyword(k)
    } else {
        false
    }
}

/// Tokenizing `s` fails with `e`.
pub open spec fn lex_fails_with(s: Seq<char>, max: u64, e: Error) -> bool {
    let c = s[0];
    let t = s.take(token_end(s));
    if starts_comment(s) {
        e == Error::FeatureNotYetImplemented(Feature::Comments)
    } else if is_ascii_alphabetic(c) || c == '_' {
        false
    } else if is_ascii_digit(c) {
        literal_outcome(t, max) == Err::<u64, Error>(e)
    } else if Separator::spec_from_symbol(c) is Some {
        false
    } else if is_operator_char(c) {
        operator_parts(t) is None && (e matches Error::InvalidOperator(o) && o@ == t)
    } else if c == '@' {
        Keyword::spec_from_name(t.skip(1)) is None && (e matches Error::InvalidKeyword(k) && k@
            == t.skip(1))
    } else if c == '\'' {
        e == Error::FeatureNotYetImplemented(Feature::CharLiterals)
    } else if c == '"' {
        e == Error::FeatureNotYetImplemented(Feature::StringLiterals)
    } else {
        e == Error::InvalidTokenStartChar(c)
    }
}

/// Relies on `String`'s `FromIterator<&char>`: collecting characters keeps them in order.
#[verifier::external_body]
pub(crate) fn string_from_chars(chars: &[char]) -> (r: String)
    ensures
        r@ == chars@,
{
    chars.iter().collect()
}

fn is_ascii_alphabetic_char(c: char) -> (r: bool)
    ensures
        r == is_ascii_alphabetic(c),
{
    ('a' <= c && c <= 'z') || ('A' <= c && c <= 'Z')
}

fn is_ascii_digit_char(c: char) -> (r: bool)
    ensures
        r == is_ascii_digit(c),
{
    '0' <= c && c <= '9'
}

fn is_operator_character(c: char) -> (r: bool)
    ensures
        r == is_operator_char(c),
{
    c == '+' || c == '-' || c == '*' || c == '/' || c == '%' || c == '=' || c == '!' || c == '<'
        || c == '>' || c == '&' || c == '|' || c == '~' || c == '^' || c == '?' || c == '#'
        || c == '$' || c == ':'
}

fn is_in_run(kind: RunKind, c: char) -> (r: bool)
    ensures
        r == in_run(kind, c),
{
    match kind {
        RunKind::Word => is_ascii_alphabetic_char(c) || is_ascii_digit_char(c) || c == '_',
        RunKind::Number => is_ascii_alphabetic_char(c) || is_ascii_digit_char(c) || c == '_' || c
            == '.',
        RunKind::Symbol => is_operator_character(c),
    }
}

/// The end of the run of `kind` that starts at `start`.
fn find_run_end(s: &[char], kind: RunKind, start: usize) -> (e: usize)
    requires
        start <= s@.len(),
    ensures
        e == run_end(s@, kind, start as int),
        start <= e <= s@.len(),
{
    let mut i = start;
    while i < s.len() && is_in_run(kind, s[i])
        invariant
            start <= i <= s@.len(),
            run_end(s@, kind, i as int) == run_end(s@, kind, start as int),
        decreases s@.len() - i,
    {
        i = i + 1;
    }
    i
}

proof fn lemma_run_end_bounds(s: Seq<char>, kind: RunKind, i: int)
    requires
        0 <= i <= s.len(),
    ensures
        i <= run_end(s, kind, i) <= s.len(),
    decreases s.len() - i,
{
    if i < s.len() && in_run(kind, s[i]) {
        lemma_run_end_bounds(s, kind, i + 1);
    }
}

fn digit_of(c: char, base: u32) -> (r: Option<u32>)
    requires
        2 <= base <= 16,
    ensures
        r == digit_value(c, base),
{
    let d: u32 = if is_ascii_digit_char(c) {
        (c as u32) - ('0' as u32)
    } else if 'a' <= c && c <= 'z' {
        (c as u32) - ('a' as u32) + 10
    } else if 'A' <= c && c <= 'Z' {
        (c as u32) - ('A' as u32) + 10
    } else {
        36
    };
    if d < base {
        Some(d)
    } else {
        None
    }
}

proof fn lemma_digits_error_persists(s: Seq<char>, n: int, base: u32, max: u64)
    requires
        0 <= n <= s.len(),
        digits_outcome(s.take(n), base, max) is Err,
    ensures
        digits_outcome(s, base, max) == digits_outcome(s.take(n), base, max),
    decreases s.len(),
{
    if n < s.len() {
        assert(s.drop_last().take(n) =~= s.take(n));
        lemma_digits_error_persists(s.drop_last(), n, base, max);
    } else {
        assert(s.take(n) =~= s);
    }
}

/// Reads the digits of `text` from `start` on, in `base`.
fn parse_digits(text: &[char], start: usize, base: u32, max: u64) -> (r: Result<u64, Error>)
    requires
        start <= text@.len(),
        2 <= base <= 16,
    ensures
        r == digits_outcome(text@.skip(start as int), base, max),
{
    let ghost digits = text@.skip(start as int);
    let mut out: u64 = 0;
    let mut i = start;
    assert(digits.take(0) =~= Seq::<char>::empty());
    while i < text.len()
        invariant
            start <= i <= text@.len(),
            digits == text@.skip(start as int),
            2 <= base <= 16,
            out <= max,
            digits_outcome(digits.take(i - start), base, max) == Ok::<u64, Error>(out),
        decreases text@.len() - i,
    {
        let c = text[i];
        assert(digits.take(i - start + 1).drop_last() =~= digits.take(i - start));
        assert(digits.take(i - start + 1).last() == c);
        if c != '_' {
            match digit_of(c, base) {
                None => {
                    proof {
                        lemma_digits_error_persists(digits, i - start + 1, base, max);
                    }
                    return Err(Error::InvalidDigitForBase(c, base as u8));
                },
                Some(d) => {
                    assert(out as int * base as int <= u64::MAX as int * 16) by (nonlinear_arith)
                        requires
                            out <= u64::MAX,
                            base <= 16,
                    ;
                    let next: u128 = out as u128 * base as u128 + d as u128;
                    if next > max as u128 {
                        proof {
                            lemma_digits_error_persists(digits, i - start + 1, base, max);
                        }
                        return Err(Error::NumericalLiteralTooLarge);
                    }
                    out = next as u64;
                },
            }
        }
        i = i + 1;
    }
    assert(digits.take(i - start) =~= digits);
    Ok(out)
}

/// Reads a numerical literal's text, prefix and digits.
fn parse_numerical_literal(main_data: &MainData, text: &[char]) -> (r: Result<u64, Error>)
    requires
        text@.len() >= 1,
    ensures
        r == literal_outcome(text@, main_data.int_max_value),
{
    let max = main_data.int_max_value;
    if text.len() >= 2 && text[0] == '0' && !is_ascii_digit_char(text[1]) {
        let p = text[1];
        if p == 'x' {
            parse_digits(text, 2, 16, max)
        } else if p == 'o' {
            parse_digits(text, 2, 8, max)
        } else if p == 'b' {
            parse_digits(text, 2, 2, max)
        } else if p == 'f' {
            Err(Error::FeatureNotYetImplemented(Feature::FloatLiterals))
        } else {
            Err(Error::InvalidNumericalLiteralBase(p))
        }
    } else {
        assert(text@.skip(0) =~= text@);
        parse_digits(text, 0, 10, max)
    }
}

/// Splits an operator token into its parts.
fn parse_operator(t: &[char]) -> (r: Option<(Option<Operator>, OperatorType, bool)>)
    ensures
        r == operator_parts(t@),
{
    let len = t.len();
    let symbol = if len > 0 {
        Operator::from_symbol(t[0])
    } else {
        None
    };
    let i: usize = if symbol.is_some() {
        1
    } else {
        0
    };
    let operator_type = if i < len && t[i] == '$' {
        OperatorType::UnsignedLogicalNotShortCircuit
    } else if i < len && t[i] == '~' {
        OperatorType::FloatingPointBitwise
    } else {
        OperatorType::SignedLogicalShortCircuit
    };
    let j: usize = match operator_type {
        OperatorType::SignedLogicalShortCircuit => i,
        _ => i + 1,
    };
    let flag = j < len && t[j] == '=';
    let k: usize = if flag {
        j + 1
    } else {
        j
    };
    if k == len {
        Some((symbol, operator_type, flag))
    } else {
        None
    }
}

impl Token {
    /// Tokenizes the first token of `line_content`, which starts at `line_number` and
    /// `column_number`, and returns it with the characters that follow it.
    pub fn tokenize_from_line<'a>(
        main_data: &MainData,
        line_content: &'a [char],
        line_number: usize,
        column_number: usize,
    ) -> (r: Result<(Token, &'a [char]), Error>)
        requires
            line_content@.len() > 0,
        ensures
            match r {
                Ok((token, rest)) => {
                    &&& lexes_to(line_content@, main_data.int_max_value, token.variant)
                    &&& token.char_length == token_end(line_content@)
                    &&& rest@ == line_content@.skip(token_end(line_content@))
                    &&& token.line == line_number
                    &&& token.column == column_number
                    &&& 1 <= token.char_length <= line_content@.len()
                },
                Err(e) => lex_fails_with(line_content@, main_data.int_max_value, e),
            },
    {
        let len = line_content.len();
        let first = line_content[0];
        if len >= 2 && first == '/' && (line_content[1] == '/' || line_content[1] == '*') {
            return Err(Error::FeatureNotYetImplemented(Feature::Comments));
        }
        let is_word = is_ascii_alphabetic_char(first) || first == '_';
        let is_number = is_ascii_digit_char(first);
        let separator = Separator::from_symbol(first);
        let is_operator = is_operator_character(first);
        let length: usize = if is_word {
            find_run_end(line_content, RunKind::Word, 0)
        } else if is_number {
            find_run_end(line_content, RunKind::Number, 0)
        } else if separator.is_some() {
            1
        } else if is_operator {
            find_run_end(line_content, RunKind::Symbol, 0)
        } else if first == '@' {
            find_run_end(line_content, RunKind::Word, 1)
        } else if first == '\'' {
            return Err(Error::FeatureNotYetImplemented(Feature::CharLiterals));
        } else if first == '"' {
            return Err(Error::FeatureNotYetImplemented(Feature::StringLiterals));
        } else {
            return Err(Error::InvalidTokenStartChar(first));
        };
        assert(length as int == token_end(line_content@));
        proof {
            lemma_run_end_bounds(line_content@, RunKind::Word, 1);
            lemma_run_end_bounds(line_content@, RunKind::Number, 1);
            lemma_run_end_bounds(line_content@, RunKind::Symbol, 1);
        }
        assert(length >= 1);
        let (token_text, rest) = line_content.split_at(length);
        assert(token_text@ =~= line_content@.take(length as int));
        assert(rest@ =~= line_content@.skip(length as int));
        let variant = if is_word {
            TokenVariant::Identifier(string_from_chars(token_text))
        } else if is_number {
            match parse_numerical_literal(main_data, token_text) {
                Ok(value) => TokenVariant::NumericalLiteral(value),
                Err(e) => return Err(e),
            }
        } else if let Some(s) = separator {
            TokenVariant::Separator(s)
        } else if is_operator {
            match parse_operator(token_text) {
                Some((symbol, operator_type, flag)) => TokenVariant::Operator(symbol, operator_type, flag),
                None => return Err(Error::InvalidOperator(string_from_chars(token_text))),
            }
        } else {
            let (_, name) = token_text.split_at(1);
            assert(name@ =~= token_text@.skip(1));
            match Keyword::from_name(name) {
                Some(k) => TokenVariant::Keyword(k),
                None => return Err(Error::InvalidKeyword(string_from_chars(name))),
            }
        };
        let token = Token { variant, line: line_number, column: column_number, char_length: length };
        Ok((token, rest))
    }
}


/// Spaces and tabs separate tokens.
pub open spec fn is_blank(c: char) -> bool {
    c == ' ' || c == '\t'
}

/// The character at index `p` of the line belongs to `token`.
pub open spec fn covers(token: Token, p: int) -> bool {
    token.column - 1 <= p < token.column - 1 + token.char_length
}

/// `token` is the token of the line `line_content`, numbered `line_number`, that
/// starts at its column, a character that is not blank.
#[verifier::opaque]
pub open spec fn token_of_line(token: Token, line_content: Seq<char>, max: u64, line_number: usize) -> bool {
    let rest = line_content.skip(token.column - 1);
    &&& token.line == line_number
    &&& 1 <= token.column <= line_content.len()
    &&& !is_blank(line_content[token.column - 1])
    &&& lexes_to(rest, max, token.variant)
    &&& token.char_length == token_end(rest)
}

/// Tokenizing the text `s` fails.
pub open spec fn lex_fails(s: Seq<char>, max: u64) -> bool {
    exists|e: Error| #[trigger] lex_fails_with(s, max, e)
}

proof fn lemma_lexes_not_fails(s: Seq<char>, max: u64, v: TokenVariant)
    requires
        s.len() > 0,
        lexes_to(s, max, v),
    ensures
        !lex_fails(s, max),
{
    assert forall|e: Error| !#[trigger] lex_fails_with(s, max, e) by {}
}

/// The index at which a scan of `line_content` from index `i` stops: the first start
/// of a token that fails to lex, skipping blanks and jumping over tokens that lex, or
/// the line's length.
pub open spec fn scan_stop(line_content: Seq<char>, i: int, max: u64) -> int
    decreases line_content.len() - i,
{
    if i < 0 || i >= line_content.len() {
        line_content.len() as int
    } else if is_blank(line_content[i]) {
        scan_stop(line_content, i + 1, max)
    } else if lex_fails(line_content.skip(i), max) || token_end(line_content.skip(i)) < 1 || i
        + token_end(line_content.skip(i)) > line_content.len() {
        i
    } else {
        scan_stop(line_content, i + token_end(line_content.skip(i)), max)
    }
}

/// Tokenizes the token that starts at index `i` of a line.
fn tokenize_at(main_data: &MainData, line_content: &[char], line_number: usize, i: usize) -> (r: Result<Token, Error>)
    requires
        i < line_content@.len() < usize::MAX,
        !is_blank(line_content@[i as int]),
    ensures
        match r {
            Ok(token) => {
                &&& token_of_line(token, line_content@, main_data.int_max_value, line_number)
                &&& !lex_fails(line_content@.skip(i as int), main_data.int_max_value)
                &&& token.char_length == token_end(line_content@.skip(i as int))
                &&& token.column == i + 1
                &&& 1 <= token.char_length <= line_content@.len() - i
            },
            Err(e) => lex_fails_with(line_content@.skip(i as int), main_data.int_max_value, e),
        },
{
    let (_, rest) = line_content.split_at(i);
    assert(rest@ =~= line_content@.skip(i as int));
    match Token::tokenize_from_line(main_data, rest, line_number, i + 1) {
        Ok((token, _)) => {
            proof {
                reveal(token_of_line);
                lemma_lexes_not_fails(rest@, main_data.int_max_value, token.variant);
            }
            Ok(token)
        },
        Err(e) => Err(e),
    }
}

impl Token {
    /// Tokenizes a whole line, numbered `line_number`: the tokens from left to right,
    /// with the blanks between them skipped and each token's column counted from 1.
    /// Every character that is not blank belongs to a token. On a failure, the error
    /// comes with the line and column where it arose.
    pub fn tokenize_line(main_data: &MainData, line_content: &[char], line_number: usize) -> (r: Result<Vec<Token>, (Error, (usize, usize))>)
        requires
            line_content@.len() < usize::MAX,
        ensures
            match r {
                Ok(tokens) => {
                    &&& forall|i: int|
                        0 <= i < tokens@.len() ==> token_of_line(
                            #[trigger] tokens@[i],
                            line_content@,
                            main_data.int_max_value,
                            line_number,
                        )
                    &&& forall|i: int|
                        0 < i < tokens@.len() ==> tokens@[i - 1].column + tokens@[i - 1].char_length
                            <= (#[trigger] tokens@[i]).column
                    &&& forall|p: int|
                        0 <= p < line_content@.len() && !is_blank(#[trigger] line_content@[p]) ==> exists|i: int|
                            0 <= i < tokens@.len() && covers(#[trigger] tokens@[i], p)
                },
                Err((e, (l, c))) => {
                    &&& l == line_number
                    &&& 1 <= c <= line_content@.len()
                    &&& !is_blank(line_content@[c - 1])
                    &&& c - 1 == scan_stop(line_content@, 0, main_data.int_max_value)
                    &&& lex_fails_with(line_content@.skip(c - 1), main_data.int_max_value, e)
                },
            },
    {
        let mut tokens: Vec<Token> = Vec::new();
        let mut i: usize = 0;
        while i < line_content.len()
            invariant
                i <= line_content@.len() < usize::MAX,
                forall|k: int|
                    0 <= k < tokens@.len() ==> token_of_line(
                        #[trigger] tokens@[k],
                        line_content@,
                        main_data.int_max_value,
                        line_number,
                    ),
                forall|k: int|
                    0 <= k < tokens@.len() ==> (#[trigger] tokens@[k]).column + tokens@[k].char_length <= i + 1,
                forall|k: int|
                    0 < k < tokens@.len() ==> tokens@[k - 1].column + tokens@[k - 1].char_length
                        <= (#[trigger] tokens@[k]).column,
                forall|p: int|
                    0 <= p < i && !is_blank(#[trigger] line_content@[p]) ==> exists|k: int|
                        0 <= k < tokens@.len() && covers(#[trigger] tokens@[k], p),
                scan_stop(line_content@, 0, main_data.int_max_value) == scan_stop(line_content@, i as int, main_data.int_max_value),
            decreases line_content@.len() - i,
        {
            let c = line_content[i];
            let ghost old_tokens = tokens@;
            if c == ' ' || c == '\t' {
                i = i + 1;
            } else {
                match tokenize_at(main_data, line_content, line_number, i) {
                    Ok(token) => {
                        let length = token.char_length;
                        let ghost count = tokens@.len();
                        let ghost pushed = token;
                        let ghost start = i as int;
                        tokens.push(token);
                        assert(tokens@[count as int] == pushed);
                        i = i + length;
                        assert forall|p: int|
                            0 <= p < i && !is_blank(#[trigger] line_content@[p]) implies exists|k: int|
                                0 <= k < tokens@.len() && covers(#[trigger] tokens@[k], p) by {
                            if p >= start {
                                assert(covers(tokens@[count as int], p));
                            } else {
                                let k = choose|k: int| 0 <= k < count && covers(#[trigger] old_tokens[k], p);
                                assert(tokens@[k] == old_tokens[k]);
                            }
                        }
                    },
                    Err(e) => return Err((e, (line_number, i + 1))),
                }
            }
        }
        Ok(tokens)
    }
}

} // verus!
