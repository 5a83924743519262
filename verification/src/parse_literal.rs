//! Literal grammar: consumes a prefix of a byte stream holding a signed
//! integer, a signed decimal, a boolean keyword, or the null keyword,
//! after skipping insignificant whitespace and line comments.
//!
//! Every parser returns the position one past the consumed prefix on
//! success, and on failure a recoverable error that consumed nothing, so
//! that outer alternation can try the next grammar rule. The spec-level
//! mirror `spec_parse_literal` states the grammar once; each executable
//! parser is proved against it.

use vstd::prelude::*;
use crate::ast::{Expr, Literal, LiteralModel};
use crate::num_text::digit_char;

verus! {

/// A recoverable parse failure, carrying the position at which the
/// grammar rule could not match.
#[derive(Debug, PartialEq)]
pub struct ParseError {
    pub position: usize,
}

/// Insignificant whitespace.
pub open spec fn is_ws(c: u8) -> bool {
    c == 32 || c == 9 || c == 13 || c == 10
}

pub open spec fn is_digit(c: u8) -> bool {
    48 <= c <= 57
}

pub open spec fn is_sign(c: u8) -> bool {
    c == 43 || c == 45
}

pub open spec fn is_ident_start(c: u8) -> bool {
    (97 <= c <= 122) || (65 <= c <= 90) || c == 95
}

pub open spec fn is_ident_char(c: u8) -> bool {
    is_ident_start(c) || is_digit(c)
}

/// A byte that can occur in numeric literal text.
pub open spec fn is_num_char(c: u8) -> bool {
    is_digit(c) || is_sign(c) || c == 46
}

/// The character a numeric-text byte stands for.
pub open spec fn num_char(c: u8) -> char {
    if is_digit(c) {
        digit_char(c - 48)
    } else if c == 43 {
        '+'
    } else if c == 45 {
        '-'
    } else {
        '.'
    }
}

/// Position after whitespace and line comments starting at `i`; the flag
/// records being inside a `//` comment, which a newline ends.
pub open spec fn skip_ws_from(s: Seq<u8>, i: int, in_comment: bool) -> int
    decreases s.len() - i,
{
    if i < 0 || i >= s.len() {
        i
    } else if in_comment {
        skip_ws_from(s, i + 1, s[i] != 10)
    } else if is_ws(s[i]) {
        skip_ws_from(s, i + 1, false)
    } else if s[i] == 47 && i + 1 < s.len() && s[i + 1] == 47 {
        skip_ws_from(s, i + 2, true)
    } else {
        i
    }
}

/// Position of the first significant byte at or after `i`.
pub open spec fn skip_ws(s: Seq<u8>, i: int) -> int {
    skip_ws_from(s, i, false)
}

/// End of the run of decimal digits starting at `i`.
pub open spec fn digit_run_end(s: Seq<u8>, i: int) -> int
    decreases s.len() - i,
{
    if i < 0 || i >= s.len() || !is_digit(s[i]) {
        i
    } else {
        digit_run_end(s, i + 1)
    }
}

/// End of the run of identifier bytes starting at `i`.
pub open spec fn ident_run_end(s: Seq<u8>, i: int) -> int
    decreases s.len() - i,
{
    if i < 0 || i >= s.len() || !is_ident_char(s[i]) {
        i
    } else {
        ident_run_end(s, i + 1)
    }
}

/// Position after an optional leading sign.
pub open spec fn sign_skip(s: Seq<u8>, pos: int) -> int {
    if 0 <= pos < s.len() && is_sign(s[pos]) {
        pos + 1
    } else {
        pos
    }
}

/// A signed digit sequence starts at `pos`: an optional sign followed by
/// at least one digit.
pub open spec fn signed_digits_ok(s: Seq<u8>, pos: int) -> bool {
    &&& 0 <= pos <= s.len()
    &&& sign_skip(s, pos) < s.len()
    &&& is_digit(s[sign_skip(s, pos)])
}

/// End of the signed digit sequence starting at `pos`.
pub open spec fn signed_digits_end(s: Seq<u8>, pos: int) -> int {
    digit_run_end(s, sign_skip(s, pos))
}

/// Value of a sequence of decimal digit bytes.
pub open spec fn digits_val(s: Seq<u8>) -> int
    decreases s.len(),
{
    if s.len() == 0 {
        0
    } else {
        digits_val(s.drop_last()) * 10 + (s.last() - 48)
    }
}

/// The signed integer value of the signed digit sequence at `pos`.
pub open spec fn int_val(s: Seq<u8>, pos: int) -> int {
    let mag = digits_val(s.subrange(sign_skip(s, pos), signed_digits_end(s, pos)));
    if 0 <= pos < s.len() && s[pos] == 45 {
        -mag
    } else {
        mag
    }
}

/// The integer value at `pos` fits the machine integer type of integer
/// literals.
pub open spec fn int_fits(s: Seq<u8>, pos: int) -> bool {
    i64::MIN <= int_val(s, pos) <= i64::MAX
}

/// A floating-point form starts at `pos`: a signed digit sequence, a
/// dot, and at least one more digit.
pub open spec fn float_ok(s: Seq<u8>, pos: int) -> bool {
    &&& signed_digits_ok(s, pos)
    &&& signed_digits_end(s, pos) + 1 < s.len()
    &&& s[signed_digits_end(s, pos)] == 46
    &&& is_digit(s[signed_digits_end(s, pos) + 1])
}

/// End of the floating-point form starting at `pos`.
pub open spec fn float_end(s: Seq<u8>, pos: int) -> int {
    digit_run_end(s, signed_digits_end(s, pos) + 1)
}

/// The matched floating-point source text, as characters.
pub open spec fn float_text(s: Seq<u8>, pos: int) -> Seq<char> {
    Seq::new((float_end(s, pos) - pos) as nat, |k: int| num_char(s[pos + k]))
}

/// The keyword `true` stands at `pos`.
pub open spec fn true_ok(s: Seq<u8>, pos: int) -> bool {
    &&& 0 <= pos
    &&& pos + 4 <= s.len()
    &&& s[pos] == 116
    &&& s[pos + 1] == 114
    &&& s[pos + 2] == 117
    &&& s[pos + 3] == 101
}

/// The keyword `false` stands at `pos`.
pub open spec fn false_ok(s: Seq<u8>, pos: int) -> bool {
    &&& 0 <= pos
    &&& pos + 5 <= s.len()
    &&& s[pos] == 102
    &&& s[pos + 1] == 97
    &&& s[pos + 2] == 108
    &&& s[pos + 3] == 115
    &&& s[pos + 4] == 101
}

/// The identifier at `pos` is exactly the null keyword.
pub open spec fn null_ok(s: Seq<u8>, pos: int) -> bool {
    &&& 0 <= pos
    &&& pos + 4 <= s.len()
    &&& s[pos] == 78
    &&& s[pos + 1] == 85
    &&& s[pos + 2] == 76
    &&& s[pos + 3] == 76
    &&& ident_run_end(s, pos) == pos + 4
}

/// Outcome of the literal grammar: the position one past the match and
/// the literal's model, or the position at which nothing matched.
pub enum LitOutcome {
    Match { next: int, lit: LiteralModel },
    NoMatch { at: int },
}

/// The literal grammar, stated once: after whitespace and comments, the
/// ordered alternation tries the floating-point form, then the signed
/// integer (whose value must fit; overflow is a failure of the whole
/// rule), then the boolean keywords, then the null keyword.
pub open spec fn spec_parse_literal(s: Seq<u8>, pos: int) -> LitOutcome {
    let j = skip_ws(s, pos);
    if float_ok(s, j) {
        LitOutcome::Match { next: float_end(s, j), lit: LiteralModel::Float(float_text(s, j)) }
    } else if signed_digits_ok(s, j) && int_fits(s, j) {
        LitOutcome::Match { next: signed_digits_end(s, j), lit: LiteralModel::Int(int_val(s, j)) }
    } else if signed_digits_ok(s, j) && !int_fits(s, j) {
        LitOutcome::NoMatch { at: j }
    } else if true_ok(s, j) {
        LitOutcome::Match { next: j + 4, lit: LiteralModel::Bool(true) }
    } else if false_ok(s, j) {
        LitOutcome::Match { next: j + 5, lit: LiteralModel::Bool(false) }
    } else if null_ok(s, j) {
        LitOutcome::Match { next: j + 4, lit: LiteralModel::Null }
    } else {
        LitOutcome::NoMatch { at: j }
    }
}

/// Bounds of the whitespace skip.
pub proof fn lemma_skip_ws_bounds(s: Seq<u8>, i: int, in_comment: bool)
    requires
        0 <= i <= s.len(),
    ensures
        i <= skip_ws_from(s, i, in_comment) <= s.len(),
    decreases s.len() - i,
{
    if i < s.len() {
        if in_comment {
            lemma_skip_ws_bounds(s, i + 1, s[i] != 10);
        } else if is_ws(s[i]) {
            lemma_skip_ws_bounds(s, i + 1, false);
        } else if s[i] == 47 && i + 1 < s.len() && s[i + 1] == 47 {
            lemma_skip_ws_bounds(s, i + 2, true);
        }
    }
}

/// The whitespace skip stops at a significant byte, so skipping twice is
/// the same as skipping once.
pub proof fn lemma_skip_ws_idempotent(s: Seq<u8>, i: int, in_comment: bool)
    requires
        0 <= i <= s.len(),
    ensures
        skip_ws(s, skip_ws_from(s, i, in_comment)) == skip_ws_from(s, i, in_comment),
    decreases s.len() - i,
{
    if i < s.len() {
        if in_comment {
            lemma_skip_ws_idempotent(s, i + 1, s[i] != 10);
        } else if is_ws(s[i]) {
            lemma_skip_ws_idempotent(s, i + 1, false);
        } else if s[i] == 47 && i + 1 < s.len() && s[i + 1] == 47 {
            lemma_skip_ws_idempotent(s, i + 2, true);
        }
    }
}

/// Bounds and content of a digit run: everything before its end is a
/// digit, and its end is the position of the first non-digit.
pub proof fn lemma_digit_run(s: Seq<u8>, i: int)
    requires
        0 <= i <= s.len(),
    ensures
        i <= digit_run_end(s, i) <= s.len(),
        forall|k: int| i <= k < digit_run_end(s, i) ==> is_digit(s[k]),
        digit_run_end(s, i) < s.len() ==> !is_digit(s[digit_run_end(s, i)]),
    decreases s.len() - i,
{
    if i < s.len() && is_digit(s[i]) {
        lemma_digit_run(s, i + 1);
    }
}

/// Bounds and content of an identifier run.
pub proof fn lemma_ident_run(s: Seq<u8>, i: int)
    requires
        0 <= i <= s.len(),
    ensures
        i <= ident_run_end(s, i) <= s.len(),
        forall|k: int| i <= k < ident_run_end(s, i) ==> is_ident_char(s[k]),
        ident_run_end(s, i) < s.len() ==> !is_ident_char(s[ident_run_end(s, i)]),
    decreases s.len() - i,
{
    if i < s.len() && is_ident_char(s[i]) {
        lemma_ident_run(s, i + 1);
    }
}

/// The value of a digit sequence never shrinks when more digits follow.
pub proof fn lemma_digits_val_monotonic(s: Seq<u8>, i: int, j: int)
    requires
        0 <= i <= j <= s.len(),
        forall|k: int| 0 <= k < s.len() ==> is_digit(s[k]),
    ensures
        0 <= digits_val(s.subrange(0, i)) <= digits_val(s.subrange(0, j)),
    decreases j,
{
    if j == 0 {
    } else if i == j {
        lemma_digits_val_monotonic(s, i - 1, j - 1);
        assert(s.subrange(0, j).drop_last() =~= s.subrange(0, j - 1));
    } else {
        lemma_digits_val_monotonic(s, i, j - 1);
        assert(s.subrange(0, j).drop_last() =~= s.subrange(0, j - 1));
    }
}

/// Skips whitespace and line comments, returning the position of the
/// first significant byte.
pub fn comment(s: &[u8], pos: usize) -> (r: usize)
    requires
        pos <= s@.len(),
    ensures
        r == skip_ws(s@, pos as int),
        pos <= r <= s@.len(),
{
    let mut i: usize = pos;
    let mut in_comment: bool = false;
    let mut done: bool = false;
    proof {
        lemma_skip_ws_bounds(s@, pos as int, false);
    }
    while !done
        invariant
            pos <= i <= s@.len(),
            skip_ws(s@, pos as int) == skip_ws_from(s@, i as int, in_comment),
            done ==> i == skip_ws_from(s@, i as int, in_comment),
        decreases s@.len() - i + (if done {
            0int
        } else {
            1int
        }),
    {
        if i >= s.len() {
            done = true;
        } else {
            let c = s[i];
            if in_comment {
                in_comment = c != 10;
                i = i + 1;
            } else if c == 32 || c == 9 || c == 13 || c == 10 {
                i = i + 1;
            } else if c == 47 && i + 1 < s.len() && s[i + 1] == 47 {
                in_comment = true;
                i = i + 2;
            } else {
                done = true;
            }
        }
    }
    i
}

/// Recognizes an optional sign followed by one or more digits, returning
/// the position one past the run.
pub fn signed_digits(s: &[u8], pos: usize) -> (r: Result<usize, ParseError>)
    requires
        pos <= s@.len(),
    ensures
        (match r {
            Ok(end) => signed_digits_ok(s@, pos as int) && end == signed_digits_end(
                s@,
                pos as int,
            ),
            Err(e) => !signed_digits_ok(s@, pos as int) && e.position == pos,
        }),
{
    let mut i: usize = pos;
    if i < s.len() && (s[i] == 43 || s[i] == 45) {
        i = i + 1;
    }
    if i >= s.len() || !(48 <= s[i] && s[i] <= 57) {
        return Err(ParseError { position: pos });
    }
    let ghost start = i as int;
    proof {
        lemma_digit_run(s@, start);
    }
    while i < s.len() && 48 <= s[i] && s[i] <= 57
        invariant
            start <= i <= s@.len(),
            digit_run_end(s@, start) == digit_run_end(s@, i as int),
        decreases s@.len() - i,
    {
        i = i + 1;
    }
    Ok(i)
}

/// Parses the signed digit sequence at `pos` into a machine integer;
/// a value out of range is a failure of the whole rule.
pub fn get_int(s: &[u8], pos: usize) -> (r: Result<(usize, i64), ParseError>)
    requires
        pos <= s@.len(),
    ensures
        (match r {
            Ok(p) => {
                &&& signed_digits_ok(s@, pos as int)
                &&& int_fits(s@, pos as int)
                &&& p.0 == signed_digits_end(s@, pos as int)
                &&& p.1 as int == int_val(s@, pos as int)
            },
            Err(e) => {
                &&& !(signed_digits_ok(s@, pos as int) && int_fits(s@, pos as int))
                &&& e.position == pos
            },
        }),
{
    let end = match signed_digits(s, pos) {
        Ok(end) => end,
        Err(e) => {
            return Err(e);
        },
    };
    let neg = s[pos] == 45;
    let st: usize = if s[pos] == 45 || s[pos] == 43 {
        pos + 1
    } else {
        pos
    };
    proof {
        lemma_digit_run(s@, st as int);
    }
    let limit: u64 = if neg {
        9223372036854775808
    } else {
        9223372036854775807
    };
    let ghost run = s@.subrange(st as int, end as int);
    let mut mag: u64 = 0;
    let mut j: usize = st;
    while j < end
        invariant
            st <= j <= end <= s@.len(),
            pos < s@.len(),
            signed_digits_ok(s@, pos as int),
            st as int == sign_skip(s@, pos as int),
            neg == (s@[pos as int] == 45),
            end == signed_digits_end(s@, pos as int),
            run == s@.subrange(st as int, end as int),
            end == digit_run_end(s@, st as int),
            forall|k: int| st <= k < end ==> is_digit(s@[k]),
            mag <= limit,
            neg ==> limit == 9223372036854775808,
            !neg ==> limit == 9223372036854775807,
            mag as int == digits_val(run.subrange(0, j - st)),
        decreases end - j,
    {
        let d: u64 = (s[j] - 48) as u64;
        proof {
            assert(run.subrange(0, j + 1 - st).drop_last() =~= run.subrange(0, j - st));
            assert(run.subrange(0, j + 1 - st).last() == s@[j as int]);
        }
        if mag > (limit - d) / 10 {
            proof {
                assert(forall|k: int| 0 <= k < run.len() ==> is_digit(run[k]));
                lemma_digits_val_monotonic(run, j + 1 - st, run.len() as int);
                assert(run.subrange(0, run.len() as int) =~= run);
                assert(digits_val(run) > limit);
                assert(st as int == sign_skip(s@, pos as int));
                assert(int_val(s@, pos as int) == if neg {
                    -digits_val(run)
                } else {
                    digits_val(run)
                });
            }
            return Err(ParseError { position: pos });
        }
        mag = mag * 10 + d;
        j = j + 1;
    }
    proof {
        assert(run.subrange(0, end - st) =~= run);
    }
    if !neg {
        Ok((end, mag as i64))
    } else {
        if mag == 9223372036854775808 {
            Ok((end, i64::MIN))
        } else {
            Ok((end, -(mag as i64)))
        }
    }
}

/// Parses a signed integer literal expression.
pub fn parse_integer(s: &[u8], pos: usize) -> (r: Result<(usize, Expr), ParseError>)
    requires
        pos <= s@.len(),
    ensures
        (match r {
            Ok(p) => {
                &&& signed_digits_ok(s@, pos as int)
                &&& int_fits(s@, pos as int)
                &&& p.0 == signed_digits_end(s@, pos as int)
                &&& p.1 matches Expr::LitExpr(l) && l@ == LiteralModel::Int(int_val(s@, pos as int))
            },
            Err(e) => {
                &&& !(signed_digits_ok(s@, pos as int) && int_fits(s@, pos as int))
                &&& e.position == pos
            },
        }),
{
    match get_int(s, pos) {
        Ok((end, v)) => Ok((end, Expr::LitExpr(Literal::IntLiteral(v)))),
        Err(e) => Err(e),
    }
}

/// Recognizes the floating-point form: a signed digit sequence, a dot,
/// and one or more trailing digits.
pub fn floating_point(s: &[u8], pos: usize) -> (r: Result<usize, ParseError>)
    requires
        pos <= s@.len(),
    ensures
        (match r {
            Ok(end) => float_ok(s@, pos as int) && end == float_end(s@, pos as int),
            Err(e) => !float_ok(s@, pos as int) && e.position == pos,
        }),
{
    let e1 = match signed_digits(s, pos) {
        Ok(end) => end,
        Err(e) => {
            return Err(e);
        },
    };
    proof {
        let st = sign_skip(s@, pos as int);
        lemma_digit_run(s@, st);
    }
    if s.len() - e1 < 2 || s[e1] != 46 || !(48 <= s[e1 + 1] && s[e1 + 1] <= 57) {
        return Err(ParseError { position: pos });
    }
    let mut i: usize = e1 + 1;
    proof {
        lemma_digit_run(s@, i as int);
    }
    while i < s.len() && 48 <= s[i] && s[i] <= 57
        invariant
            e1 + 1 <= i <= s@.len(),
            digit_run_end(s@, e1 + 1) == digit_run_end(s@, i as int),
        decreases s@.len() - i,
    {
        i = i + 1;
    }
    Ok(i)
}

/// Appends the character a numeric-text byte stands for.
fn push_num_char(out: &mut String, c: u8)
    requires
        is_num_char(c),
    ensures
        final(out)@ == old(out)@.push(num_char(c)),
{
    if 48 <= c && c <= 57 {
        crate::num_text::push_digit(out, (c - 48) as u64);
    } else if c == 43 {
        proof {
            reveal_strlit("+");
        }
        out.append("+");
        proof {
            assert(final(out)@ =~= old(out)@.push('+'));
        }
    } else if c == 45 {
        proof {
            reveal_strlit("-");
        }
        out.append("-");
        proof {
            assert(final(out)@ =~= old(out)@.push('-'));
        }
    } else {
        proof {
            reveal_strlit(".");
        }
        out.append(".");
        proof {
            assert(final(out)@ =~= old(out)@.push('.'));
        }
    }
}

/// Copies a stretch of numeric-text bytes into a string.
fn num_text_string(s: &[u8], from: usize, to: usize) -> (r: String)
    requires
        from <= to <= s@.len(),
        forall|k: int| from <= k < to ==> is_num_char(s@[k]),
    ensures
        r@ == Seq::new((to - from) as nat, |k: int| num_char(s@[from + k])),
{
    let mut r = String::new();
    let mut i: usize = from;
    while i < to
        invariant
            from <= i <= to <= s@.len(),
            forall|k: int| from <= k < to ==> is_num_char(s@[k]),
            r@ == Seq::new((i - from) as nat, |k: int| num_char(s@[from + k])),
        decreases to - i,
    {
        push_num_char(&mut r, s[i]);
        i = i + 1;
        proof {
            assert(r@ =~= Seq::new((i - from) as nat, |k: int| num_char(s@[from + k])));
        }
    }
    r
}

/// Parses a floating-point literal expression, keeping the matched text.
pub fn parse_float(s: &[u8], pos: usize) -> (r: Result<(usize, Expr), ParseError>)
    requires
        pos <= s@.len(),
    ensures
        (match r {
            Ok(p) => {
                &&& float_ok(s@, pos as int)
                &&& p.0 == float_end(s@, pos as int)
                &&& p.1 matches Expr::LitExpr(l) && l@ == LiteralModel::Float(
                    float_text(s@, pos as int),
                )
            },
            Err(e) => !float_ok(s@, pos as int) && e.position == pos,
        }),
{
    let end = match floating_point(s, pos) {
        Ok(end) => end,
        Err(e) => {
            return Err(e);
        },
    };
    proof {
        let st = sign_skip(s@, pos as int);
        let e1 = signed_digits_end(s@, pos as int);
        lemma_digit_run(s@, st);
        lemma_digit_run(s@, e1 + 1);
        assert forall|k: int| pos <= k < end implies is_num_char(s@[k]) by {
            if k < st {
            } else if k < e1 {
            } else if k == e1 {
            }
        }
    }
    let t = num_text_string(s, pos, end);
    Ok((end, Expr::LitExpr(Literal::FloatLiteral(t))))
}

/// Ordered alternation of the numeric forms: the floating-point form
/// first, so that a decimal is not truncated at its dot; the signed
/// integer as the fallback.
pub fn parse_number(s: &[u8], pos: usize) -> (r: Result<(usize, Expr), ParseError>)
    requires
        pos <= s@.len(),
    ensures
        (match r {
            Ok(p) => {
                if float_ok(s@, pos as int) {
                    &&& p.0 == float_end(s@, pos as int)
                    &&& p.1 matches Expr::LitExpr(l) && l@ == LiteralModel::Float(
                        float_text(s@, pos as int),
                    )
                } else {
                    &&& signed_digits_ok(s@, pos as int)
                    &&& int_fits(s@, pos as int)
                    &&& p.0 == signed_digits_end(s@, pos as int)
                    &&& p.1 matches Expr::LitExpr(l) && l@ == LiteralModel::Int(
                        int_val(s@, pos as int),
                    )
                }
            },
            Err(e) => {
                &&& !float_ok(s@, pos as int)
                &&& !(signed_digits_ok(s@, pos as int) && int_fits(s@, pos as int))
                &&& e.position == pos
            },
        }),
{
    match parse_float(s, pos) {
        Ok(p) => Ok(p),
        Err(_) => parse_integer(s, pos),
    }
}

/// Parses the boolean keyword `true`.
pub fn parse_true(s: &[u8], pos: usize) -> (r: Result<(usize, Literal), ParseError>)
    requires
        pos <= s@.len(),
    ensures
        (match r {
            Ok(p) => true_ok(s@, pos as int) && p.0 == pos + 4 && p.1@ == LiteralModel::Bool(true),
            Err(e) => !true_ok(s@, pos as int) && e.position == pos,
        }),
{
    if s.len() - pos >= 4 && s[pos] == 116 && s[pos + 1] == 114 && s[pos + 2] == 117 && s[pos + 3]
        == 101 {
        Ok((pos + 4, Literal::BoolLiteral(true)))
    } else {
        Err(ParseError { position: pos })
    }
}

/// Parses the boolean keyword `false`.
pub fn parse_false(s: &[u8], pos: usize) -> (r: Result<(usize, Literal), ParseError>)
    requires
        pos <= s@.len(),
    ensures
        (match r {
            Ok(p) => false_ok(s@, pos as int) && p.0 == pos + 5 && p.1@ == LiteralModel::Bool(
                false,
            ),
            Err(e) => !false_ok(s@, pos as int) && e.position == pos,
        }),
{
    if s.len() - pos >= 5 && s[pos] == 102 && s[pos + 1] == 97 && s[pos + 2] == 108 && s[pos + 3]
        == 115 && s[pos + 4] == 101 {
        Ok((pos + 5, Literal::BoolLiteral(false)))
    } else {
        Err(ParseError { position: pos })
    }
}

/// Parses either boolean keyword into a literal expression.
pub fn parse_boolean(s: &[u8], pos: usize) -> (r: Result<(usize, Expr), ParseError>)
    requires
        pos <= s@.len(),
    ensures
        (match r {
            Ok(p) => {
                if true_ok(s@, pos as int) {
                    &&& p.0 == pos + 4
                    &&& p.1 matches Expr::LitExpr(l) && l@ == LiteralModel::Bool(true)
                } else {
                    &&& false_ok(s@, pos as int)
                    &&& p.0 == pos + 5
                    &&& p.1 matches Expr::LitExpr(l) && l@ == LiteralModel::Bool(false)
                }
            },
            Err(e) => !true_ok(s@, pos as int) && !false_ok(s@, pos as int) && e.position == pos,
        }),
{
    match parse_true(s, pos) {
        Ok((end, l)) => Ok((end, Expr::LitExpr(l))),
        Err(_) => match parse_false(s, pos) {
            Ok((end, l)) => Ok((end, Expr::LitExpr(l))),
            Err(e) => Err(e),
        },
    }
}

/// Reads the identifier starting at `pos`, returning the position one
/// past its last byte.
pub fn get_string(s: &[u8], pos: usize) -> (r: Result<usize, ParseError>)
    requires
        pos <= s@.len(),
    ensures
        (match r {
            Ok(end) => {
                &&& pos < s@.len()
                &&& is_ident_start(s@[pos as int])
                &&& end == ident_run_end(s@, pos as int)
            },
            Err(e) => {
                &&& !(pos < s@.len() && is_ident_start(s@[pos as int]))
                &&& e.position == pos
            },
        }),
{
    if pos >= s.len() {
        return Err(ParseError { position: pos });
    }
    let c = s[pos];
    if !((97 <= c && c <= 122) || (65 <= c && c <= 90) || c == 95) {
        return Err(ParseError { position: pos });
    }
    let mut i: usize = pos;
    while i < s.len() && ((97 <= s[i] && s[i] <= 122) || (65 <= s[i] && s[i] <= 90) || s[i]
        == 95 || (48 <= s[i] && s[i] <= 57))
        invariant
            pos <= i <= s@.len(),
            ident_run_end(s@, pos as int) == ident_run_end(s@, i as int),
        decreases s@.len() - i,
    {
        i = i + 1;
    }
    Ok(i)
}

/// Parses the null keyword: after skipping whitespace and comments, the
/// identifier read must be exactly the keyword.
pub fn parse_null(s: &[u8], pos: usize) -> (r: Result<(usize, Expr), ParseError>)
    requires
        pos <= s@.len(),
    ensures
        (match r {
            Ok(p) => {
                &&& null_ok(s@, skip_ws(s@, pos as int))
                &&& p.0 == skip_ws(s@, pos as int) + 4
                &&& p.1 matches Expr::LitExpr(l) && l@ == LiteralModel::Null
            },
            Err(e) => {
                &&& !null_ok(s@, skip_ws(s@, pos as int))
                &&& e.position == skip_ws(s@, pos as int)
            },
        }),
{
    let j = comment(s, pos);
    let end = match get_string(s, j) {
        Ok(end) => end,
        Err(e) => {
            return Err(e);
        },
    };
    proof {
        lemma_ident_run(s@, j as int);
    }
    if end - j == 4 && s[j] == 78 && s[j + 1] == 85 && s[j + 2] == 76 && s[j + 3] == 76 {
        Ok((end, Expr::LitExpr(Literal::NullLiteral)))
    } else {
        Err(ParseError { position: j })
    }
}

/// The literal grammar's entry: skips whitespace and comments, then tries
/// the numeric forms, the boolean keywords, and the null keyword, in that
/// order. Success and failure follow `spec_parse_literal` exactly.
pub fn parse_literalexpr(s: &[u8], pos: usize) -> (r: Result<(usize, Expr), ParseError>)
    requires
        pos <= s@.len(),
    ensures
        (match r {
            Ok(p) => p.1 matches Expr::LitExpr(l) && spec_parse_literal(s@, pos as int)
                == (LitOutcome::Match { next: p.0 as int, lit: l@ }),
            Err(e) => spec_parse_literal(s@, pos as int) == (LitOutcome::NoMatch {
                at: e.position as int,
            }),
        }),
{
    let j = comment(s, pos);
    proof {
        lemma_skip_ws_idempotent(s@, pos as int, false);
    }
    match parse_number(s, j) {
        Ok(p) => Ok(p),
        Err(_) => match parse_boolean(s, j) {
            Ok(p) => Ok(p),
            Err(_) => parse_null(s, j),
        },
    }
}

/// Parses one literal that must span the entire input: trailing
/// significant bytes are an error, enabling the whole-input tests of the
/// grammar.
pub fn parse_single_literal(s: &[u8]) -> (r: Result<Expr, ParseError>)
    requires
        s@.len() < usize::MAX,
    ensures
        (match r {
            Ok(e) => e matches Expr::LitExpr(l) && spec_parse_literal(s@, 0)
                == (LitOutcome::Match { next: s@.len() as int, lit: l@ }),
            Err(_) => !(spec_parse_literal(s@, 0) matches LitOutcome::Match { next, .. }
                && next == s@.len()),
        }),
{
    match parse_literalexpr(s, 0) {
        Ok((next, e)) => {
            if next == s.len() {
                Ok(e)
            } else {
                Err(ParseError { position: next })
            }
        },
        Err(e) => Err(e),
    }
}

/// Every signed-integer text whose value fits the machine integer type
/// parses fully, with no leftover input, to that integer.
pub proof fn lemma_signed_integer_parses_fully(s: Seq<u8>)
    requires
        signed_digits_ok(s, skip_ws(s, 0)),
        signed_digits_end(s, skip_ws(s, 0)) == s.len(),
        int_fits(s, skip_ws(s, 0)),
    ensures
        spec_parse_literal(s, 0) == (LitOutcome::Match {
            next: s.len() as int,
            lit: LiteralModel::Int(int_val(s, skip_ws(s, 0))),
        }),
{
}

/// Every signed-decimal text parses fully as a float — the match is not
/// truncated at the decimal point and leaves no leftover input.
pub proof fn lemma_signed_decimal_parses_fully(s: Seq<u8>)
    requires
        float_ok(s, skip_ws(s, 0)),
        float_end(s, skip_ws(s, 0)) == s.len(),
    ensures
        spec_parse_literal(s, 0) == (LitOutcome::Match {
            next: s.len() as int,
            lit: LiteralModel::Float(float_text(s, skip_ws(s, 0))),
        }),
{
}

/// A sign not followed by a digit matches no literal form at all: the
/// grammar fails outright rather than consuming the sign.
pub proof fn lemma_sign_without_digit_fails(s: Seq<u8>)
    requires
        0 <= skip_ws(s, 0) < s.len(),
        is_sign(s[skip_ws(s, 0)]),
        skip_ws(s, 0) + 1 < s.len() ==> !is_digit(s[skip_ws(s, 0) + 1]),
    ensures
        spec_parse_literal(s, 0) == (LitOutcome::NoMatch { at: skip_ws(s, 0) }),
{
}

} // verus!
