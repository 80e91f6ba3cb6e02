//! Calculator: which queries are calculations, what text goes to the
//! evaluator, and what its answer turns into.
//!
//! The evaluator itself is not part of the library. Whoever runs it asks the
//! library what to hand to it, and hands back what it said.

use vstd::prelude::*;
use vstd::string::StrSliceExecFns;
use crate::text::{chars_of, contains, has_substring, starts_with, trim, trim_bounds, trimmed};

verus! {

/// What the evaluator made of one piece of text.
pub enum Evaluation {
    /// The text was an expression, and this is its value as the evaluator prints it.
    Value(String),
    /// The text was accepted and has no value of its own, like a definition.
    Continue,
    /// The text was refused.
    Failed,
}

/// The text that is evaluated for an expression: the expression without an
/// equals sign at its very start, and without white space around the rest.
pub open spec fn expression_text(expression: Seq<char>) -> Seq<char> {
    if expression.len() > 0 && expression[0] == '=' {
        trimmed(expression.drop_first())
    } else {
        trimmed(expression)
    }
}

/// The result shown for an evaluation: the value if there is one, else nothing.
pub open spec fn shown(evaluation: Evaluation) -> Option<String> {
    match evaluation {
        Evaluation::Value(text) => Some(text),
        Evaluation::Continue => None,
        Evaluation::Failed => None,
    }
}

/// Whether `c` is a sign of arithmetic.
pub open spec fn is_math_char(c: char) -> bool {
    c == '+' || c == '-' || c == '*' || c == '/' || c == '(' || c == ')' || c == '^' || c == '='
}

/// Whether `input` holds a sign of arithmetic.
pub open spec fn has_math(input: Seq<char>) -> bool {
    exists|i: int| 0 <= i < input.len() && is_math_char(#[trigger] input[i])
}

/// Whether `input` holds the name of a common unit.
pub open spec fn has_units(input: Seq<char>) -> bool {
    ||| contains(input, "km"@)
    ||| contains(input, "m"@)
    ||| contains(input, "cm"@)
    ||| contains(input, "kg"@)
    ||| contains(input, "g"@)
    ||| contains(input, "\u{b0}C"@)
    ||| contains(input, "\u{b0}F"@)
    ||| contains(input, "USD"@)
    ||| contains(input, "EUR"@)
}

/// Whether a query is a calculation: its first character that is not white
/// space is an equals sign.
pub fn is_calculator_query(query: &str) -> (r: bool)
    ensures
        r == starts_with(trimmed(query@), seq!['=']),
{
    let chars = chars_of(query);
    let (start, end) = trim_bounds(&chars);
    let r = start < end && chars[start] == '=';
    proof {
        let t = trimmed(query@);
        if start < end {
            assert(t[0] == chars@[start as int]);
            if r {
                assert(t.subrange(0, 1) =~= seq!['=']);
            } else {
                assert(t.subrange(0, 1)[0] == t[0]);
            }
        }
    }
    r
}

/// The text that is handed to the evaluator for `expression`.
pub fn expression_body(expression: &str) -> (body: &str)
    ensures
        body@ == expression_text(expression@),
{
    let n: usize = expression.unicode_len();
    if n > 0 && expression.get_char(0) == '=' {
        let rest = expression.substring_char(1, n);
        assert(rest@ =~= expression@.drop_first());
        trim(rest)
    } else {
        trim(expression)
    }
}

/// The result shown for an evaluation.
pub fn evaluation_result(evaluation: Evaluation) -> (result: Option<String>)
    ensures
        result == shown(evaluation),
{
    match evaluation {
        Evaluation::Value(text) => Some(text),
        Evaluation::Continue => None,
        Evaluation::Failed => None,
    }
}

fn holds_math_char(chars: &Vec<char>) -> (r: bool)
    ensures
        r == has_math(chars@),
{
    let mut i: usize = 0;
    while i < chars.len()
        invariant
            i <= chars.len(),
            forall|j: int| 0 <= j < i ==> !is_math_char(#[trigger] chars@[j]),
        decreases chars.len() - i,
    {
        let c = chars[i];
        if c == '+' || c == '-' || c == '*' || c == '/' || c == '(' || c == ')' || c == '^' || c
            == '=' {
            return true;
        }
        i += 1;
    }
    false
}

fn holds_unit(chars: &Vec<char>) -> (r: bool)
    ensures
        r == has_units(chars@),
{
    has_substring(chars, &chars_of("km")) || has_substring(chars, &chars_of("m"))
        || has_substring(chars, &chars_of("cm")) || has_substring(chars, &chars_of("kg"))
        || has_substring(chars, &chars_of("g")) || has_substring(chars, &chars_of("\u{b0}C"))
        || has_substring(chars, &chars_of("\u{b0}F")) || has_substring(chars, &chars_of("USD"))
        || has_substring(chars, &chars_of("EUR"))
}

/// The text to hand to the evaluator for `expression`, if anything is left
/// of it once its equals sign and the white space are gone. When nothing is
/// left the evaluator is not asked, and the expression has no result.
pub fn text_to_evaluate(expression: &str) -> (text: Option<&str>)
    ensures
        match text {
            Some(body) => body@ == expression_text(expression@) && body@.len() > 0,
            None => expression_text(expression@).len() == 0,
        },
{
    let body = expression_body(expression);
    if body.unicode_len() == 0 {
        None
    } else {
        Some(body)
    }
}

/// Whether `input` looks like something to calculate: it holds a sign of
/// arithmetic, or it is a number, or it names a common unit. Whether it is
/// a number is for the caller to say.
pub fn looks_like_calculation(input: &str, is_number: bool) -> (r: bool)
    ensures
        r == (has_math(input@) || is_number || has_units(input@)),
{
    let chars = chars_of(input);
    let math = holds_math_char(&chars);
    let units = holds_unit(&chars);
    math || is_number || units
}

} // verus!
