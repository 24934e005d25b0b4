//! Tokenizer and parser for the formula language.
//!
//! The surface syntax: numeric literals (digits with an optional
//! fractional part), component references (`#` followed by digits), the
//! four binary operators `+ - * /` with the usual precedence and left
//! associativity, a prefix unary minus binding tighter than any infix
//! operator, parenthesized groups, and the case-sensitive function calls
//! `COALESCE`, `MIN` and `MAX` with one or more comma-separated arguments.
//! Horizontal whitespace between tokens is insignificant.
//!
//! The specification functions `spec_tokenize` and `sp_expr` (with its
//! companions) define the language declaratively over sequences; the
//! executable tokenizer and recursive-descent parser are verified to
//! succeed exactly when those functions do, and to return exactly the
//! token stream and tree they describe.

use vstd::prelude::*;
use vstd::string::StrSliceExecFns;

use crate::error::FormulaError;
use crate::expression::{expr_list_view, expr_view, Expr, ExprV, Function, Op};
use crate::traits::NumberLike;

verus! {

/// One lexical token of the formula language. Numeric literals are parsed
/// to the numeric type and component ids to `usize` already during
/// tokenization, so a token stream is a plain value.
#[derive(Clone, Copy, Debug)]
pub enum Token<T> {
    /// A numeric literal.
    Num(T),
    /// A component reference `#<id>`.
    Component(usize),
    /// `+`
    Plus,
    /// `-`
    Minus,
    /// `*`
    Star,
    /// `/`
    Slash,
    /// `(`
    LParen,
    /// `)`
    RParen,
    /// `,`
    Comma,
    /// A function name.
    Name(Function),
}

/// Horizontal whitespace, insignificant between tokens.
pub open spec fn is_space(c: char) -> bool {
    c == ' ' || c == '\t'
}

/// A decimal digit.
pub open spec fn is_digit(c: char) -> bool {
    48 <= c as u32 && c as u32 <= 57
}

/// An uppercase letter, the only letters the language uses.
pub open spec fn is_letter(c: char) -> bool {
    65 <= c as u32 && c as u32 <= 90
}

/// The numeric value of a decimal digit.
pub open spec fn digit_val(c: char) -> nat {
    (c as u32 - 48) as nat
}

/// The first position at or after `i` that does not hold a digit.
pub open spec fn digit_run_end(s: Seq<char>, i: int) -> int
    decreases s.len() - i,
{
    if 0 <= i < s.len() && is_digit(s[i]) {
        digit_run_end(s, i + 1)
    } else {
        i
    }
}

/// The first position at or after `i` that does not hold a letter.
pub open spec fn letter_run_end(s: Seq<char>, i: int) -> int
    decreases s.len() - i,
{
    if 0 <= i < s.len() && is_letter(s[i]) {
        letter_run_end(s, i + 1)
    } else {
        i
    }
}

/// The value of the decimal digits from `i` up to `e`.
pub open spec fn digits_val(s: Seq<char>, i: int, e: int) -> nat
    decreases e - i,
{
    if i >= e {
        0
    } else {
        digits_val(s, i, e - 1) * 10 + digit_val(s[e - 1])
    }
}

/// Where the numeric literal starting at the digit at `i` ends: its
/// integer digits, and a fractional part only when a `.` with at least one
/// digit follows them.
pub open spec fn num_end(s: Seq<char>, i: int) -> int {
    let e1 = digit_run_end(s, i);
    if e1 + 1 < s.len() && s[e1] == '.' && is_digit(s[e1 + 1]) {
        digit_run_end(s, e1 + 2)
    } else {
        e1
    }
}

/// The token starting at position `i` (not a whitespace position) and the
/// position just after it, or `None` when no token of the language starts
/// there: an unknown character, a `#` without digits, a component id
/// beyond `usize`, a literal the numeric type rejects, or letters that
/// spell no function name.
pub open spec fn spec_token_at<T: NumberLike>(s: Seq<char>, i: int) -> Option<(Token<T>, int)> {
    let c = s[i];
    if c == '+' {
        Some((Token::Plus, i + 1))
    } else if c == '-' {
        Some((Token::Minus, i + 1))
    } else if c == '*' {
        Some((Token::Star, i + 1))
    } else if c == '/' {
        Some((Token::Slash, i + 1))
    } else if c == '(' {
        Some((Token::LParen, i + 1))
    } else if c == ')' {
        Some((Token::RParen, i + 1))
    } else if c == ',' {
        Some((Token::Comma, i + 1))
    } else if c == '#' {
        let e = digit_run_end(s, i + 1);
        if e == i + 1 {
            None
        } else if digits_val(s, i + 1, e) > usize::MAX as nat {
            None
        } else {
            Some((Token::Component(digits_val(s, i + 1, e) as usize), e))
        }
    } else if is_digit(c) {
        let e = num_end(s, i);
        match T::spec_from_literal(s.subrange(i, e)) {
            Some(v) => Some((Token::Num(v), e)),
            None => None,
        }
    } else if is_letter(c) {
        let e = letter_run_end(s, i);
        let w = s.subrange(i, e);
        if w == seq!['C', 'O', 'A', 'L', 'E', 'S', 'C', 'E'] {
            Some((Token::Name(Function::Coalesce), e))
        } else if w == seq!['M', 'I', 'N'] {
            Some((Token::Name(Function::Min), e))
        } else if w == seq!['M', 'A', 'X'] {
            Some((Token::Name(Function::Max), e))
        } else {
            None
        }
    } else {
        None
    }
}

/// The token stream of the characters from position `i` on: whitespace is
/// skipped, every token is the one `spec_token_at` reads, and the result
/// is `None` exactly when some position starts no token.
pub open spec fn spec_tokenize<T: NumberLike>(s: Seq<char>, i: int) -> Option<Seq<Token<T>>>
    decreases s.len() - i,
{
    if i >= s.len() {
        Some(Seq::empty())
    } else if is_space(s[i]) {
        spec_tokenize(s, i + 1)
    } else {
        match spec_token_at::<T>(s, i) {
            None => None,
            Some((t, j)) => if i < j <= s.len() {
                match spec_tokenize::<T>(s, j) {
                    None => None,
                    Some(rest) => Some(seq![t] + rest),
                }
            } else {
                None
            },
        }
    }
}

/// A digit run reaches at least to `e` when everything before `e` is a
/// digit, and ends exactly at `e` when `e` is the end of the input or
/// holds no digit.
proof fn lemma_digit_run_is(s: Seq<char>, i: int, e: int)
    requires
        0 <= i <= e <= s.len(),
        forall|k: int| i <= k < e ==> is_digit(s[k]),
        e == s.len() || !is_digit(s[e]),
    ensures
        digit_run_end(s, i) == e,
    decreases e - i,
{
    if i < e {
        lemma_digit_run_is(s, i + 1, e);
    }
}

/// A letter run reaches at least to `e` when everything before `e` is a
/// letter, and ends exactly at `e` when `e` is the end of the input or
/// holds no letter.
proof fn lemma_letter_run_is(s: Seq<char>, i: int, e: int)
    requires
        0 <= i <= e <= s.len(),
        forall|k: int| i <= k < e ==> is_letter(s[k]),
        e == s.len() || !is_letter(s[e]),
    ensures
        letter_run_end(s, i) == e,
    decreases e - i,
{
    if i < e {
        lemma_letter_run_is(s, i + 1, e);
    }
}

/// Reading more digits never decreases the value they denote.
proof fn lemma_digits_val_mono(s: Seq<char>, i: int, e1: int, e2: int)
    requires
        i <= e1 <= e2,
    ensures
        digits_val(s, i, e1) <= digits_val(s, i, e2),
    decreases e2 - e1,
{
    if e1 < e2 {
        lemma_digits_val_mono(s, i, e1, e2 - 1);
    }
}

/// Whether this character is a decimal digit.
fn is_digit_char(c: char) -> (b: bool)
    ensures
        b == is_digit(c),
{
    let u = c as u32;
    48 <= u && u <= 57
}

/// Whether this character is an uppercase letter.
fn is_letter_char(c: char) -> (b: bool)
    ensures
        b == is_letter(c),
{
    let u = c as u32;
    65 <= u && u <= 90
}

/// The position where the digit run starting at `from` ends.
fn scan_digits(s: &str, from: usize) -> (e: usize)
    requires
        from <= s@.len(),
    ensures
        e as int == digit_run_end(s@, from as int),
        from <= e <= s@.len(),
        forall|k: int| from <= k < e ==> is_digit(s@[k]),
        (from < s@.len() && is_digit(s@[from as int])) ==> from < e,
{
    let n = s.unicode_len();
    let mut j = from;
    while j < n
        invariant
            from <= j <= n,
            n == s@.len(),
            forall|k: int| from <= k < j ==> is_digit(s@[k]),
        decreases n - j,
    {
        if !is_digit_char(s.get_char(j)) {
            proof {
                lemma_digit_run_is(s@, from as int, j as int);
            }
            return j;
        }
        j += 1;
    }
    proof {
        lemma_digit_run_is(s@, from as int, j as int);
    }
    j
}

/// The position where the letter run starting at `from` ends.
fn scan_letters(s: &str, from: usize) -> (e: usize)
    requires
        from <= s@.len(),
    ensures
        e as int == letter_run_end(s@, from as int),
        from <= e <= s@.len(),
        forall|k: int| from <= k < e ==> is_letter(s@[k]),
        (from < s@.len() && is_letter(s@[from as int])) ==> from < e,
{
    let n = s.unicode_len();
    let mut j = from;
    while j < n
        invariant
            from <= j <= n,
            n == s@.len(),
            forall|k: int| from <= k < j ==> is_letter(s@[k]),
        decreases n - j,
    {
        if !is_letter_char(s.get_char(j)) {
            proof {
                lemma_letter_run_is(s@, from as int, j as int);
            }
            return j;
        }
        j += 1;
    }
    proof {
        lemma_letter_run_is(s@, from as int, j as int);
    }
    j
}

/// The component id denoted by the digits in `[from, e)`, or `None` when
/// it exceeds `usize`.
fn parse_id(s: &str, from: usize, e: usize) -> (r: Option<usize>)
    requires
        from <= e <= s@.len(),
        forall|k: int| from <= k < e ==> is_digit(s@[k]),
    ensures
        match r {
            Some(v) => v as nat == digits_val(s@, from as int, e as int),
            None => digits_val(s@, from as int, e as int) > usize::MAX as nat,
        },
{
    let mut acc: usize = 0;
    let mut j = from;
    while j < e
        invariant
            from <= j <= e <= s@.len(),
            forall|k: int| from <= k < e ==> is_digit(s@[k]),
            acc as nat == digits_val(s@, from as int, j as int),
        decreases e - j,
    {
        let c = s.get_char(j);
        let d = ((c as u32) - 48) as usize;
        let overflowed = match acc.checked_mul(10) {
            Some(m) => match m.checked_add(d) {
                Some(v) => {
                    acc = v;
                    false
                },
                None => true,
            },
            None => true,
        };
        if overflowed {
            proof {
                lemma_digits_val_mono(s@, from as int, j + 1, e as int);
            }
            return None;
        }
        j += 1;
    }
    Some(acc)
}

/// Turn a formula string into its token stream, or report the first
/// position where no token of the language starts. Succeeds exactly when
/// `spec_tokenize` does, with exactly its tokens.
pub fn tokenize<T: NumberLike>(s: &str) -> (res: Result<Vec<Token<T>>, FormulaError>)
    ensures
        res matches Ok(v) ==> spec_tokenize::<T>(s@, 0) == Some(v@),
        res is Err ==> spec_tokenize::<T>(s@, 0) is None,
{
    let n = s.unicode_len();
    let mut toks: Vec<Token<T>> = Vec::new();
    let mut i: usize = 0;
    while i < n
        invariant
            i <= n,
            n == s@.len(),
            spec_tokenize::<T>(s@, 0) == (match spec_tokenize::<T>(s@, i as int) {
                None => None::<Seq<Token<T>>>,
                Some(rest) => Some(toks@ + rest),
            }),
        decreases n - i,
    {
        let c = s.get_char(i);
        if c == ' ' || c == '\t' {
            i += 1;
            continue ;
        }
        let step: Option<(Token<T>, usize)> = if c == '+' {
            Some((Token::Plus, i + 1))
        } else if c == '-' {
            Some((Token::Minus, i + 1))
        } else if c == '*' {
            Some((Token::Star, i + 1))
        } else if c == '/' {
            Some((Token::Slash, i + 1))
        } else if c == '(' {
            Some((Token::LParen, i + 1))
        } else if c == ')' {
            Some((Token::RParen, i + 1))
        } else if c == ',' {
            Some((Token::Comma, i + 1))
        } else if c == '#' {
            let e = scan_digits(s, i + 1);
            if e == i + 1 {
                None
            } else {
                match parse_id(s, i + 1, e) {
                    Some(id) => Some((Token::Component(id), e)),
                    None => None,
                }
            }
        } else if is_digit_char(c) {
            let e1 = scan_digits(s, i);
            let e = if e1 < n && s.get_char(e1) == '.' && e1 + 1 < n && is_digit_char(
                s.get_char(e1 + 1),
            ) {
                scan_digits(s, e1 + 2)
            } else {
                e1
            };
            let lit = s.substring_char(i, e);
            match T::from_literal(lit) {
                Some(v) => Some((Token::Num(v), e)),
                None => None,
            }
        } else if is_letter_char(c) {
            let e = scan_letters(s, i);
            let len = e - i;
            let f: Option<Function> = if len == 8 {
                if s.get_char(i) == 'C' && s.get_char(i + 1) == 'O' && s.get_char(i + 2) == 'A'
                    && s.get_char(i + 3) == 'L' && s.get_char(i + 4) == 'E' && s.get_char(i + 5)
                    == 'S' && s.get_char(i + 6) == 'C' && s.get_char(i + 7) == 'E' {
                    proof {
                        assert(s@.subrange(i as int, e as int) =~= seq![
                            'C', 'O', 'A', 'L', 'E', 'S', 'C', 'E',
                        ]);
                    }
                    Some(Function::Coalesce)
                } else {
                    None
                }
            } else if len == 3 {
                if s.get_char(i) == 'M' && s.get_char(i + 1) == 'I' && s.get_char(i + 2) == 'N' {
                    proof {
                        assert(s@.subrange(i as int, e as int) =~= seq!['M', 'I', 'N']);
                    }
                    Some(Function::Min)
                } else if s.get_char(i) == 'M' && s.get_char(i + 1) == 'A' && s.get_char(i + 2)
                    == 'X' {
                    proof {
                        assert(s@.subrange(i as int, e as int) =~= seq!['M', 'A', 'X']);
                    }
                    Some(Function::Max)
                } else {
                    None
                }
            } else {
                None
            };
            proof {
                let w = s@.subrange(i as int, e as int);
                let cseq = seq!['C', 'O', 'A', 'L', 'E', 'S', 'C', 'E'];
                let mseq = seq!['M', 'I', 'N'];
                let xseq = seq!['M', 'A', 'X'];
                assert(cseq.len() == 8 && mseq.len() == 3 && xseq.len() == 3);
                if f is None {
                    assert(w != cseq) by {
                        if w == cseq {
                            assert(w.len() == 8);
                            assert(w[0] == 'C' && w[1] == 'O' && w[2] == 'A' && w[3] == 'L'
                                && w[4] == 'E' && w[5] == 'S' && w[6] == 'C' && w[7] == 'E');
                        }
                    }
                    assert(w != mseq) by {
                        if w == mseq {
                            assert(w.len() == 3);
                            assert(w[0] == 'M' && w[1] == 'I' && w[2] == 'N');
                        }
                    }
                    assert(w != xseq) by {
                        if w == xseq {
                            assert(w.len() == 3);
                            assert(w[0] == 'M' && w[1] == 'A' && w[2] == 'X');
                        }
                    }
                }
            }
            match f {
                Some(function) => Some((Token::Name(function), e)),
                None => None,
            }
        } else {
            None
        };
        match step {
            None => {
                return Err(FormulaError("Syntax error in formula".to_owned()));
            },
            Some((t, j)) => {
                proof {
                    assert(spec_token_at::<T>(s@, i as int) == Some((t, j as int)));
                }
                toks.push(t);
                proof {
                    match spec_tokenize::<T>(s@, j as int) {
                        Some(rest) => {
                            assert(toks@ + rest =~= toks@.drop_last() + (seq![t] + rest));
                        },
                        None => {},
                    }
                }
                i = j;
            },
        }
    }
    proof {
        assert(toks@ + Seq::<Token<T>>::empty() =~= toks@);
    }
    Ok(toks)
}

/// The `ExprV` of a list grows one element at a time.
proof fn lemma_expr_list_view_push<T>(s: Seq<Expr<T>>, e: Expr<T>)
    ensures
        expr_list_view(s.push(e)) == expr_list_view(s).push(expr_view(e)),
{
    assert(s.push(e).drop_last() =~= s);
}

/// A primary expression starting at token `i`: a numeric literal, a
/// component reference, a parenthesized expression, or a function call
/// with a parenthesized, comma-separated argument list.
pub open spec fn sp_primary<T: NumberLike>(toks: Seq<Token<T>>, i: int) -> Option<(ExprV<T>, int)>
    decreases toks.len() - i, 0int,
{
    if i < toks.len() {
        match toks[i] {
            Token::Num(v) => Some((ExprV::Value(Some(v)), i + 1)),
            Token::Component(c) => Some((ExprV::Component(c), i + 1)),
            Token::LParen => match sp_expr::<T>(toks, i + 1) {
                None => None,
                Some((e, j)) => if j < toks.len() && toks[j] == Token::<T>::RParen {
                    Some((e, j + 1))
                } else {
                    None
                },
            },
            Token::Name(f) => if i + 1 < toks.len() && toks[i + 1] == Token::<T>::LParen {
                match sp_args::<T>(toks, i + 2) {
                    None => None,
                    Some((argseq, j)) => if j < toks.len() && toks[j] == Token::<T>::RParen {
                        Some((ExprV::Function { function: f, args: argseq }, j + 1))
                    } else {
                        None
                    },
                }
            } else {
                None
            },
            _ => None,
        }
    } else {
        None
    }
}

/// A factor: a primary expression with at most one prefix unary minus,
/// which binds tighter than any infix operator.
pub open spec fn sp_factor<T: NumberLike>(toks: Seq<Token<T>>, i: int) -> Option<(ExprV<T>, int)>
    decreases toks.len() - i, 1int,
{
    if i < toks.len() && toks[i] == Token::<T>::Minus {
        match sp_primary::<T>(toks, i + 1) {
            None => None,
            Some((e, j)) => Some((ExprV::UnaryMinus(Box::new(e)), j)),
        }
    } else {
        sp_primary::<T>(toks, i)
    }
}

/// A term: factors joined by `*` and `/`, folded left-associatively.
pub open spec fn sp_term<T: NumberLike>(toks: Seq<Token<T>>, i: int) -> Option<(ExprV<T>, int)>
    decreases toks.len() - i, 2int,
{
    match sp_factor::<T>(toks, i) {
        None => None,
        Some((lhs, j)) => if i < j <= toks.len() {
            sp_term_rest::<T>(toks, j, lhs)
        } else {
            None
        },
    }
}

/// The left-associative continuation of a term: as long as a `*` or `/`
/// follows, parse one more factor and fold it into the accumulator.
pub open spec fn sp_term_rest<T: NumberLike>(
    toks: Seq<Token<T>>,
    i: int,
    acc: ExprV<T>,
) -> Option<(ExprV<T>, int)>
    decreases toks.len() - i, 3int,
{
    if i < toks.len() && (toks[i] == Token::<T>::Star || toks[i] == Token::<T>::Slash) {
        let op = if toks[i] == Token::<T>::Star {
            Op::Mul
        } else {
            Op::Div
        };
        match sp_factor::<T>(toks, i + 1) {
            None => None,
            Some((rhs, j)) => if i + 1 < j <= toks.len() {
                sp_term_rest::<T>(
                    toks,
                    j,
                    ExprV::Op { lhs: Box::new(acc), op, rhs: Box::new(rhs) },
                )
            } else {
                None
            },
        }
    } else {
        Some((acc, i))
    }
}

/// An expression: terms joined by `+` and `-`, folded left-associatively;
/// `*` and `/` bind tighter.
pub open spec fn sp_expr<T: NumberLike>(toks: Seq<Token<T>>, i: int) -> Option<(ExprV<T>, int)>
    decreases toks.len() - i, 4int,
{
    match sp_term::<T>(toks, i) {
        None => None,
        Some((lhs, j)) => if i < j <= toks.len() {
            sp_expr_rest::<T>(toks, j, lhs)
        } else {
            None
        },
    }
}

/// The left-associative continuation of an expression: as long as a `+`
/// or `-` follows, parse one more term and fold it into the accumulator.
pub open spec fn sp_expr_rest<T: NumberLike>(
    toks: Seq<Token<T>>,
    i: int,
    acc: ExprV<T>,
) -> Option<(ExprV<T>, int)>
    decreases toks.len() - i, 5int,
{
    if i < toks.len() && (toks[i] == Token::<T>::Plus || toks[i] == Token::<T>::Minus) {
        let op = if toks[i] == Token::<T>::Plus {
            Op::Add
        } else {
            Op::Sub
        };
        match sp_term::<T>(toks, i + 1) {
            None => None,
            Some((rhs, j)) => if i + 1 < j <= toks.len() {
                sp_expr_rest::<T>(
                    toks,
                    j,
                    ExprV::Op { lhs: Box::new(acc), op, rhs: Box::new(rhs) },
                )
            } else {
                None
            },
        }
    } else {
        Some((acc, i))
    }
}

/// A non-empty, comma-separated argument list: each argument is a full
/// sub-expression.
pub open spec fn sp_args<T: NumberLike>(toks: Seq<Token<T>>, i: int) -> Option<(Seq<ExprV<T>>, int)>
    decreases toks.len() - i, 6int,
{
    match sp_expr::<T>(toks, i) {
        None => None,
        Some((e, j)) => if i < j <= toks.len() {
            sp_args_rest::<T>(toks, j, seq![e])
        } else {
            None
        },
    }
}

/// The continuation of an argument list: as long as a comma follows,
/// parse one more argument.
pub open spec fn sp_args_rest<T: NumberLike>(
    toks: Seq<Token<T>>,
    i: int,
    acc: Seq<ExprV<T>>,
) -> Option<(Seq<ExprV<T>>, int)>
    decreases toks.len() - i, 7int,
{
    if i < toks.len() && toks[i] == Token::<T>::Comma {
        match sp_expr::<T>(toks, i + 1) {
            None => None,
            Some((e, j)) => if i + 1 < j <= toks.len() {
                sp_args_rest::<T>(toks, j, acc.push(e))
            } else {
                None
            },
        }
    } else {
        Some((acc, i))
    }
}

/// A whole formula: one expression that consumes every token.
pub open spec fn sp_formula<T: NumberLike>(toks: Seq<Token<T>>) -> Option<ExprV<T>> {
    match sp_expr::<T>(toks, 0) {
        None => None,
        Some((e, j)) => if j == toks.len() {
            Some(e)
        } else {
            None
        },
    }
}

/// What a formula string parses to: its token stream fed to the grammar,
/// or `None` when tokenization or parsing fails.
pub open spec fn spec_parse<T: NumberLike>(s: Seq<char>) -> Option<ExprV<T>> {
    match spec_tokenize::<T>(s, 0) {
        None => None,
        Some(toks) => sp_formula::<T>(toks),
    }
}

/// A generic syntax error.
fn syntax_error() -> (e: FormulaError) {
    FormulaError("Syntax error in formula".to_owned())
}

/// Parse a primary expression at token `i`. Succeeds with exactly the
/// tree and end position of `sp_primary`, and fails exactly when it does.
fn parse_primary<T: NumberLike>(toks: &Vec<Token<T>>, i: usize) -> (res: Result<
    (Expr<T>, usize),
    FormulaError,
>)
    requires
        i <= toks@.len(),
    ensures
        res matches Ok(p) ==> ({
            &&& i < p.1 <= toks@.len()
            &&& sp_primary::<T>(toks@, i as int) == Some((expr_view(p.0), p.1 as int))
        }),
        res is Err ==> sp_primary::<T>(toks@, i as int) is None,
    decreases toks@.len() - i, 0int,
{
    if i >= toks.len() {
        return Err(syntax_error());
    }
    match &toks[i] {
        Token::Num(v) => Ok((Expr::Value(Some(*v)), i + 1)),
        Token::Component(c) => Ok((Expr::Component(*c), i + 1)),
        Token::LParen => match parse_expr(toks, i + 1) {
            Err(e) => Err(e),
            Ok((inner, j)) => {
                if j < toks.len() {
                    if let Token::RParen = &toks[j] {
                        return Ok((inner, j + 1));
                    }
                }
                Err(syntax_error())
            },
        },
        Token::Name(f) => {
            if i + 1 < toks.len() {
                if let Token::LParen = &toks[i + 1] {
                    return match parse_args(toks, i + 2) {
                        Err(e) => Err(e),
                        Ok((argv, j)) => {
                            if j < toks.len() {
                                if let Token::RParen = &toks[j] {
                                    return Ok(
                                        (Expr::Function { function: *f, args: argv }, j + 1),
                                    );
                                }
                            }
                            Err(syntax_error())
                        },
                    };
                }
            }
            Err(syntax_error())
        },
        _ => Err(syntax_error()),
    }
}

/// Parse a factor at token `i`: an optional prefix minus and a primary.
fn parse_factor<T: NumberLike>(toks: &Vec<Token<T>>, i: usize) -> (res: Result<
    (Expr<T>, usize),
    FormulaError,
>)
    requires
        i <= toks@.len(),
    ensures
        res matches Ok(p) ==> ({
            &&& i < p.1 <= toks@.len()
            &&& sp_factor::<T>(toks@, i as int) == Some((expr_view(p.0), p.1 as int))
        }),
        res is Err ==> sp_factor::<T>(toks@, i as int) is None,
    decreases toks@.len() - i, 1int,
{
    if i < toks.len() {
        if let Token::Minus = &toks[i] {
            return match parse_primary(toks, i + 1) {
                Err(e) => Err(e),
                Ok((inner, j)) => Ok((Expr::UnaryMinus(Box::new(inner)), j)),
            };
        }
    }
    parse_primary(toks, i)
}

/// Parse a term at token `i`: factors folded left over `*` and `/`.
fn parse_term<T: NumberLike>(toks: &Vec<Token<T>>, i: usize) -> (res: Result<
    (Expr<T>, usize),
    FormulaError,
>)
    requires
        i <= toks@.len(),
    ensures
        res matches Ok(p) ==> ({
            &&& i < p.1 <= toks@.len()
            &&& sp_term::<T>(toks@, i as int) == Some((expr_view(p.0), p.1 as int))
        }),
        res is Err ==> sp_term::<T>(toks@, i as int) is None,
    decreases toks@.len() - i, 2int,
{
    match parse_factor(toks, i) {
        Err(e) => Err(e),
        Ok((lhs, j)) => parse_term_rest(toks, j, lhs),
    }
}

/// Fold further `*`- and `/`-joined factors into the accumulated term.
fn parse_term_rest<T: NumberLike>(toks: &Vec<Token<T>>, i: usize, acc: Expr<T>) -> (res: Result<
    (Expr<T>, usize),
    FormulaError,
>)
    requires
        i <= toks@.len(),
    ensures
        res matches Ok(p) ==> ({
            &&& i <= p.1 <= toks@.len()
            &&& sp_term_rest::<T>(toks@, i as int, expr_view(acc)) == Some(
                (expr_view(p.0), p.1 as int),
            )
        }),
        res is Err ==> sp_term_rest::<T>(toks@, i as int, expr_view(acc)) is None,
    decreases toks@.len() - i, 3int,
{
    if i < toks.len() {
        let op: Option<Op> = match &toks[i] {
            Token::Star => Some(Op::Mul),
            Token::Slash => Some(Op::Div),
            _ => None,
        };
        if let Some(op) = op {
            return match parse_factor(toks, i + 1) {
                Err(e) => Err(e),
                Ok((rhs, j)) => {
                    let node = Expr::Op { lhs: Box::new(acc), op, rhs: Box::new(rhs) };
                    parse_term_rest(toks, j, node)
                },
            };
        }
    }
    Ok((acc, i))
}

/// Parse an expression at token `i`: terms folded left over `+` and `-`.
fn parse_expr<T: NumberLike>(toks: &Vec<Token<T>>, i: usize) -> (res: Result<
    (Expr<T>, usize),
    FormulaError,
>)
    requires
        i <= toks@.len(),
    ensures
        res matches Ok(p) ==> ({
            &&& i < p.1 <= toks@.len()
            &&& sp_expr::<T>(toks@, i as int) == Some((expr_view(p.0), p.1 as int))
        }),
        res is Err ==> sp_expr::<T>(toks@, i as int) is None,
    decreases toks@.len() - i, 4int,
{
    match parse_term(toks, i) {
        Err(e) => Err(e),
        Ok((lhs, j)) => parse_expr_rest(toks, j, lhs),
    }
}

/// Fold further `+`- and `-`-joined terms into the accumulated expression.
fn parse_expr_rest<T: NumberLike>(toks: &Vec<Token<T>>, i: usize, acc: Expr<T>) -> (res: Result<
    (Expr<T>, usize),
    FormulaError,
>)
    requires
        i <= toks@.len(),
    ensures
        res matches Ok(p) ==> ({
            &&& i <= p.1 <= toks@.len()
            &&& sp_expr_rest::<T>(toks@, i as int, expr_view(acc)) == Some(
                (expr_view(p.0), p.1 as int),
            )
        }),
        res is Err ==> sp_expr_rest::<T>(toks@, i as int, expr_view(acc)) is None,
    decreases toks@.len() - i, 5int,
{
    if i < toks.len() {
        let op: Option<Op> = match &toks[i] {
            Token::Plus => Some(Op::Add),
            Token::Minus => Some(Op::Sub),
            _ => None,
        };
        if let Some(op) = op {
            return match parse_term(toks, i + 1) {
                Err(e) => Err(e),
                Ok((rhs, j)) => {
                    let node = Expr::Op { lhs: Box::new(acc), op, rhs: Box::new(rhs) };
                    parse_expr_rest(toks, j, node)
                },
            };
        }
    }
    Ok((acc, i))
}

/// Parse a non-empty, comma-separated argument list at token `i`.
fn parse_args<T: NumberLike>(toks: &Vec<Token<T>>, i: usize) -> (res: Result<
    (Vec<Expr<T>>, usize),
    FormulaError,
>)
    requires
        i <= toks@.len(),
    ensures
        res matches Ok(p) ==> ({
            &&& i < p.1 <= toks@.len()
            &&& sp_args::<T>(toks@, i as int) == Some((expr_list_view(p.0@), p.1 as int))
        }),
        res is Err ==> sp_args::<T>(toks@, i as int) is None,
    decreases toks@.len() - i, 6int,
{
    match parse_expr(toks, i) {
        Err(e) => Err(e),
        Ok((first, j)) => {
            let mut argv: Vec<Expr<T>> = Vec::new();
            argv.push(first);
            proof {
                lemma_expr_list_view_push(Seq::<Expr<T>>::empty(), first);
                assert(argv@ =~= Seq::<Expr<T>>::empty().push(first));
            }
            parse_args_rest(toks, j, argv)
        },
    }
}

/// Fold further comma-preceded arguments into the accumulated list.
fn parse_args_rest<T: NumberLike>(toks: &Vec<Token<T>>, i: usize, acc: Vec<Expr<T>>) -> (res:
    Result<(Vec<Expr<T>>, usize), FormulaError>)
    requires
        i <= toks@.len(),
    ensures
        res matches Ok(p) ==> ({
            &&& i <= p.1 <= toks@.len()
            &&& sp_args_rest::<T>(toks@, i as int, expr_list_view(acc@)) == Some(
                (expr_list_view(p.0@), p.1 as int),
            )
        }),
        res is Err ==> sp_args_rest::<T>(toks@, i as int, expr_list_view(acc@)) is None,
    decreases toks@.len() - i, 7int,
{
    if i < toks.len() {
        if let Token::Comma = &toks[i] {
            return match parse_expr(toks, i + 1) {
                Err(e) => Err(e),
                Ok((arg, j)) => {
                    let ghost acc_view = acc@;
                    let mut acc2 = acc;
                    acc2.push(arg);
                    proof {
                        assert(acc2@ == acc_view.push(arg));
                        lemma_expr_list_view_push(acc_view, arg);
                    }
                    parse_args_rest(toks, j, acc2)
                },
            };
        }
    }
    Ok((acc, i))
}

/// Parse a formula string into an expression tree: tokenize it, parse one
/// expression, and require that it consumes the whole input. Succeeds
/// with exactly the tree of `spec_parse`, and fails exactly when it does.
pub(crate) fn parse<T: NumberLike>(formula: &str) -> (res: Result<Expr<T>, FormulaError>)
    ensures
        res matches Ok(e) ==> spec_parse::<T>(formula@) == Some(expr_view(e)),
        res is Err ==> spec_parse::<T>(formula@) is None,
{
    let toks = match tokenize::<T>(formula) {
        Ok(t) => t,
        Err(e) => {
            return Err(e);
        },
    };
    match parse_expr(&toks, 0) {
        Err(e) => Err(e),
        Ok((e, j)) => if j == toks.len() {
            Ok(e)
        } else {
            Err(syntax_error())
        },
    }
}

} // verus!
