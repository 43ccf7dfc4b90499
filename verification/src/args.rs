//! Conversion of command-line words into the typed arguments of `main`.
//!
//! Each word is read by the declared type of the parameter it is for. An
//! integer is an optional sign followed by decimal digits, whatever the
//! locale; a boolean is true exactly for the word `true`; a character is a
//! word of exactly one code point. Floating-point words are read by the
//! caller, who passes the bits of the number along with the word.

use crate::model::{param_views, BrilType, Param, ParamView};
use crate::native::Literal;
use crate::text::str_equal;
use vstd::prelude::*;

verus! {

/// A word of the command line, with the IEEE 754 binary64 bits of the number
/// that it spells where it spells a floating-point number.
#[derive(Clone, Debug)]
pub struct MainArg {
    pub text: String,
    pub float_bits: Option<u64>,
}

/// `MainArg` as a mathematical value.
pub struct MainArgView {
    pub text: Seq<char>,
    pub float_bits: Option<u64>,
}

impl View for MainArg {
    type V = MainArgView;

    open spec fn view(&self) -> MainArgView {
        MainArgView { text: self.text@, float_bits: self.float_bits }
    }
}

/// The views of a list of words.
pub open spec fn arg_views(args: Seq<MainArg>) -> Seq<MainArgView> {
    Seq::new(args.len(), |i: int| args[i]@)
}

/// Why the words of a command line are not the arguments of `main`.
#[derive(Clone, Copy, Debug, PartialEq, Eq, Structural)]
pub enum ArgError {
    /// `main` declares `expected` parameters and `got` words were given.
    CountMismatch { expected: usize, got: usize },
    /// The word at `index` is not a 64-bit decimal integer.
    InvalidInt { index: usize },
    /// The word at `index` is not a floating-point number.
    InvalidFloat { index: usize },
    /// The word at `index` is not exactly one code point.
    InvalidChar { index: usize },
    /// The parameter at `index` is a pointer, which no word can spell.
    UnsupportedType { index: usize },
}

pub open spec fn is_digit(c: char) -> bool {
    '0' <= c <= '9'
}

/// The number that a sequence of decimal digits spells.
pub open spec fn digits_value(digits: Seq<char>) -> int
    decreases digits.len(),
{
    if digits.len() == 0 {
        0
    } else {
        digits_value(digits.drop_last()) * 10 + (digits.last() as int - '0' as int)
    }
}

pub open spec fn all_digits(digits: Seq<char>) -> bool {
    forall|i: int| 0 <= i < digits.len() ==> is_digit(#[trigger] digits[i])
}

/// Whether a word starts with a sign.
pub open spec fn has_sign(word: Seq<char>) -> bool {
    word.len() > 0 && (word[0] == '-' || word[0] == '+')
}

/// The digits of a word: the word without its sign.
pub open spec fn digits_of(word: Seq<char>) -> Seq<char> {
    if has_sign(word) {
        word.subrange(1, word.len() as int)
    } else {
        word
    }
}

/// The integer that a word spells, before any limit on its size.
pub open spec fn signed_value(word: Seq<char>) -> int {
    if word.len() > 0 && word[0] == '-' {
        -digits_value(digits_of(word))
    } else {
        digits_value(digits_of(word))
    }
}

/// The 64-bit integer that a word spells: an optional `+` or `-`, then one or
/// more decimal digits, and a value that fits.
pub open spec fn int_of(word: Seq<char>) -> Option<i64> {
    if digits_of(word).len() > 0 && all_digits(digits_of(word)) && i64::MIN <= signed_value(word)
        <= i64::MAX {
        Some(signed_value(word) as i64)
    } else {
        None
    }
}

/// The character that a word spells: the word has exactly one code point.
pub open spec fn char_of(word: Seq<char>) -> Option<char> {
    if word.len() == 1 {
        Some(word[0])
    } else {
        None
    }
}

/// The literal that a word spells for a parameter of type `ty` at position
/// `index`.
pub open spec fn literal_of(ty: BrilType, arg: MainArgView, index: usize) -> Result<
    Literal,
    ArgError,
> {
    match ty {
        BrilType::Int => match int_of(arg.text) {
            Some(v) => Ok(Literal::Int(v)),
            None => Err(ArgError::InvalidInt { index }),
        },
        BrilType::Bool => Ok(Literal::Bool(arg.text == "true"@)),
        BrilType::Float => match arg.float_bits {
            Some(bits) => Ok(Literal::Float(bits)),
            None => Err(ArgError::InvalidFloat { index }),
        },
        BrilType::Char => match char_of(arg.text) {
            Some(c) => Ok(Literal::Char(c)),
            None => Err(ArgError::InvalidChar { index }),
        },
        BrilType::Pointer(_) => Err(ArgError::UnsupportedType { index }),
    }
}

/// The literals of the first `n` words, or the first failure among them.
pub open spec fn literals_of(params: Seq<ParamView>, args: Seq<MainArgView>, n: int) -> Result<
    Seq<Literal>,
    ArgError,
>
    decreases n,
{
    if n <= 0 {
        Ok(Seq::empty())
    } else {
        match literals_of(params, args, n - 1) {
            Err(e) => Err(e),
            Ok(done) => match literal_of(params[n - 1].ty, args[n - 1], (n - 1) as usize) {
                Err(e) => Err(e),
                Ok(literal) => Ok(done.push(literal)),
            },
        }
    }
}

/// The arguments that `main` receives: as many words as it has parameters,
/// each read by the type of its parameter.
pub open spec fn main_args_of(params: Seq<ParamView>, args: Seq<MainArgView>) -> Result<
    Seq<Literal>,
    ArgError,
> {
    if params.len() != args.len() {
        Err(ArgError::CountMismatch { expected: params.len() as usize, got: args.len() as usize })
    } else {
        literals_of(params, args, params.len() as int)
    }
}

/// A failure among the first words is the failure of every longer prefix.
pub proof fn lemma_literals_failure_stays(
    params: Seq<ParamView>,
    args: Seq<MainArgView>,
    n: int,
    m: int,
)
    requires
        n <= m,
        literals_of(params, args, n) is Err,
    ensures
        literals_of(params, args, m) == literals_of(params, args, n),
    decreases m - n,
{
    if n < m {
        lemma_literals_failure_stays(params, args, n, m - 1);
    }
}

/// The value of a digit sequence never shrinks when a digit is appended.
proof fn lemma_digits_value_grows(digits: Seq<char>, n: int)
    requires
        0 <= n < digits.len(),
        all_digits(digits),
    ensures
        0 <= digits_value(digits.take(n)) <= digits_value(digits.take(n + 1)),
        digits_value(digits.take(n + 1)) == digits_value(digits.take(n)) * 10 + (digits[n] as int
            - '0' as int),
    decreases n,
{
    assert(digits.take(n + 1).drop_last() =~= digits.take(n));
    assert(is_digit(digits[n]));
    if n > 0 {
        lemma_digits_value_grows(digits, n - 1);
    } else {
        assert(digits.take(0).len() == 0);
    }
}

/// Reads a 64-bit decimal integer.
pub fn parse_int(word: &str) -> (r: Option<i64>)
    ensures
        r == int_of(word@),
{
    let len: usize = word.unicode_len();
    if len == 0 {
        return None;
    }
    let first: char = word.get_char(0);
    let negative: bool = first == '-';
    let start: usize = if first == '-' || first == '+' {
        1
    } else {
        0
    };
    if start == len {
        return None;
    }
    let ghost digits = digits_of(word@);
    assert(digits.len() == len - start);
    assert(forall|k: int| 0 <= k < digits.len() ==> digits[k] == word@[k + start]);
    let limit: u64 = 0x8000_0000_0000_0000;
    let mut magnitude: u64 = 0;
    let mut i: usize = start;
    while i < len
        invariant
            start <= i <= len,
            len == word@.len(),
            digits == digits_of(word@),
            digits.len() == len - start,
            forall|k: int| 0 <= k < digits.len() ==> digits[k] == word@[k + start],
            forall|k: int| 0 <= k < i - start ==> is_digit(#[trigger] digits[k]),
            magnitude == digits_value(digits.take(i - start)),
            magnitude <= limit,
            limit == 0x8000_0000_0000_0000,
        decreases len - i,
    {
        let c: char = word.get_char(i);
        if c < '0' || c > '9' {
            assert(!is_digit(digits[i - start]));
            return None;
        }
        let d: u64 = (c as u32 - 48) as u64;
        proof {
            if magnitude > (limit - d) / 10 {
                // The value has passed every 64-bit integer, and digits that
                // follow cannot bring it back.
                if all_digits(digits) {
                    lemma_overflow_stays(digits, i - start);
                }
            } else {
                assert(digits.take(i - start + 1).drop_last() =~= digits.take(i - start));
            }
        }
        if magnitude > (limit - d) / 10 {
            return None;
        }
        magnitude = magnitude * 10 + d;
        i += 1;
    }
    assert(digits.take(digits.len() as int) =~= digits);
    assert(all_digits(digits));
    if negative {
        if magnitude == limit {
            Some(i64::MIN)
        } else {
            Some(-(magnitude as i64))
        }
    } else {
        if magnitude == limit {
            None
        } else {
            Some(magnitude as i64)
        }
    }
}

/// Once a prefix of a digit sequence spells a number above a bound, so does
/// every longer prefix.
proof fn lemma_above_stays(digits: Seq<char>, n: int, m: int, bound: int)
    requires
        0 <= n <= m <= digits.len(),
        all_digits(digits),
        digits_value(digits.take(n)) > bound,
    ensures
        digits_value(digits.take(m)) > bound,
    decreases m - n,
{
    if n < m {
        lemma_above_stays(digits, n, m - 1, bound);
        lemma_digits_value_grows(digits, m - 1);
    }
}

/// Once a prefix of a digit sequence spells a number above the magnitude of
/// every 64-bit integer, so does the whole sequence.
proof fn lemma_overflow_stays(digits: Seq<char>, n: int)
    requires
        0 <= n < digits.len(),
        all_digits(digits),
        digits_value(digits.take(n)) * 10 + (digits[n] as int - '0' as int) > 0x8000_0000_0000_0000,
    ensures
        digits_value(digits) > 0x8000_0000_0000_0000,
{
    lemma_digits_value_grows(digits, n);
    lemma_above_stays(digits, n + 1, digits.len() as int, 0x8000_0000_0000_0000);
    assert(digits.take(digits.len() as int) =~= digits);
}

/// Reads a word of exactly one code point.
pub fn parse_char(word: &str) -> (r: Option<char>)
    ensures
        r == char_of(word@),
{
    if word.unicode_len() == 1 {
        Some(word.get_char(0))
    } else {
        None
    }
}

/// Reads one word as an argument for a parameter of type `ty` at position
/// `index`.
pub fn convert_argument(ty: &BrilType, arg: &MainArg, index: usize) -> (r: Result<Literal, ArgError>)
    ensures
        r == literal_of(*ty, arg@, index),
{
    match ty {
        BrilType::Int => match parse_int(arg.text.as_str()) {
            Some(v) => Ok(Literal::Int(v)),
            None => Err(ArgError::InvalidInt { index }),
        },
        BrilType::Bool => Ok(Literal::Bool(str_equal(arg.text.as_str(), "true"))),
        BrilType::Float => match arg.float_bits {
            Some(bits) => Ok(Literal::Float(bits)),
            None => Err(ArgError::InvalidFloat { index }),
        },
        BrilType::Char => match parse_char(arg.text.as_str()) {
            Some(c) => Ok(Literal::Char(c)),
            None => Err(ArgError::InvalidChar { index }),
        },
        BrilType::Pointer(_) => Err(ArgError::UnsupportedType { index }),
    }
}

/// Converts the words of a command line into the arguments of `main`.
///
/// Succeeds exactly when there are as many words as parameters and every word
/// spells a value of the type of its parameter; the first word that does not
/// is reported.
pub fn convert_main_args(params: &Vec<Param>, args: &Vec<MainArg>) -> (r: Result<
    Vec<Literal>,
    ArgError,
>)
    ensures
        match main_args_of(param_views(params@), arg_views(args@)) {
            Ok(literals) => r is Ok && r.unwrap()@ == literals,
            Err(e) => r == Err::<Vec<Literal>, ArgError>(e),
        },
{
    if params.len() != args.len() {
        return Err(ArgError::CountMismatch { expected: params.len(), got: args.len() });
    }
    let mut literals: Vec<Literal> = Vec::new();
    let mut i: usize = 0;
    while i < params.len()
        invariant
            i <= params.len(),
            params@.len() == args@.len(),
            literals_of(param_views(params@), arg_views(args@), i as int) == Ok::<
                Seq<Literal>,
                ArgError,
            >(literals@),
        decreases params.len() - i,
    {
        match convert_argument(&params[i].ty, &args[i], i) {
            Ok(literal) => {
                literals.push(literal);
            },
            Err(e) => {
                proof {
                    lemma_literals_failure_stays(
                        param_views(params@),
                        arg_views(args@),
                        i + 1,
                        params@.len() as int,
                    );
                }
                return Err(e);
            },
        }
        i += 1;
    }
    Ok(literals)
}

} // verus!
