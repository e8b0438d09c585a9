//! The calculator's tokens: integers and the four arithmetic operators.

use vstd::prelude::*;
use crate::parser::{Converter, Parser};
use crate::pattern::{anchored, regex_compiles, PatternError};

verus! {

/// A calculator token.
#[derive(Debug, PartialEq, Eq)]
pub enum CalcVal {
    Number(isize),
    Operator(char),
    Error(String),
}

/// A calculator token as a mathematical value.
pub enum CalcToken {
    Number(int),
    Operator(char),
    Error(Seq<char>),
}

impl View for CalcVal {
    type V = CalcToken;

    open spec fn view(&self) -> CalcToken {
        match self {
            CalcVal::Number(n) => CalcToken::Number(*n as int),
            CalcVal::Operator(c) => CalcToken::Operator(*c),
            CalcVal::Error(m) => CalcToken::Error(m@),
        }
    }
}

/// An ASCII decimal digit.
pub open spec fn is_digit(c: char) -> bool {
    '0' <= c && c <= '9'
}

/// Every character of `d` is a decimal digit.
pub open spec fn all_digits(d: Seq<char>) -> bool {
    forall|i: int| 0 <= i < d.len() ==> is_digit(#[trigger] d[i])
}

/// `text` starts with a sign.
pub open spec fn has_sign(text: Seq<char>) -> bool {
    text.len() > 0 && (text[0] == '+' || text[0] == '-')
}

/// The value of a string of decimal digits.
pub open spec fn digits_value(d: Seq<char>) -> int
    decreases d.len(),
{
    if d.len() == 0 {
        0
    } else {
        10 * digits_value(d.drop_last()) + (d.last() as int - '0' as int)
    }
}

/// The integer that `text` spells: an optional `+` or `-` sign followed by
/// at least one decimal digit and nothing else, with a value that fits in
/// an `isize`.
pub open spec fn parsed_isize(text: Seq<char>) -> Option<int> {
    let signed = has_sign(text);
    let digits = if signed {
        text.drop_first()
    } else {
        text
    };
    let v = if signed && text[0] == '-' {
        -digits_value(digits)
    } else {
        digits_value(digits)
    };
    if digits.len() > 0 && all_digits(digits) && isize::MIN <= v <= isize::MAX {
        Some(v)
    } else {
        None
    }
}

/// Relies on `str::parse::<isize>`: an optional sign followed by decimal
/// digits only, refused when the value does not fit.
#[verifier::external_body]
fn parse_isize(text: &str) -> (r: Option<isize>)
    ensures
        match r {
            Some(v) => parsed_isize(text@) == Some(v as int),
            None => parsed_isize(text@) is None,
        },
{
    text.parse::<isize>().ok()
}

/// The converters of the calculator's two rules.
#[derive(Clone, Copy, Debug, PartialEq, Eq)]
pub enum CalcRule {
    /// Reads the text as an integer; text that does not fit becomes an
    /// error token.
    Number,
    /// Takes the first character as an operator.
    Operator,
}

impl Converter for CalcRule {
    type Token = CalcVal;

    open spec fn spec_convert(&self, text: Seq<char>) -> CalcToken {
        match self {
            CalcRule::Number => match parsed_isize(text) {
                Some(v) => CalcToken::Number(v),
                None => CalcToken::Error("Unable to parse integer: "@ + text),
            },
            CalcRule::Operator => CalcToken::Operator(text[0]),
        }
    }

    fn convert(&self, text: &str) -> (r: CalcVal) {
        match self {
            CalcRule::Number => match parse_isize(text) {
                Some(v) => CalcVal::Number(v),
                None => {
                    let mut message = String::from_str("Unable to parse integer: ");
                    message.append(text);
                    CalcVal::Error(message)
                },
            },
            CalcRule::Operator => CalcVal::Operator(text.get_char(0)),
        }
    }
}

/// The calculator's rule set: integers (`[0-9]+`), then the four
/// operators (`[+\-\*/]`), each matching a whole candidate.
pub fn calculator() -> (r: Result<Parser<CalcRule>, PatternError>)
    ensures
        r is Ok <==> regex_compiles(anchored("[0-9]+"@)) && regex_compiles(anchored("[+\\-\\*/]"@)),
        r matches Ok(p) ==> {
            &&& p@.len() == 2
            &&& p@[0].pattern@ == anchored("[0-9]+"@)
            &&& p@[0].on_found == CalcRule::Number
            &&& p@[1].pattern@ == anchored("[+\\-\\*/]"@)
            &&& p@[1].on_found == CalcRule::Operator
        },
{
    match Parser::new().try_push("[0-9]+", CalcRule::Number) {
        Ok(p) => p.try_push("[+\\-\\*/]", CalcRule::Operator),
        Err(e) => Err(e),
    }
}

} // verus!
