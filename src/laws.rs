//! Properties of the scanner, stated over its spec functions and proved.
use vstd::prelude::*;

use crate::error::{ParseError, TokenScanError};
use crate::parser::{
    close_brace, drain, fold, is_arithmetic, parse_tokens, run, ExprModel, Stacks,
};
use crate::scanner::{
    digits_end, is_digit, is_white_space, number_end, prepend, scan, scan_from, single_operator,
};
use crate::tokens::{tokens_model, weight_of, Operator, Token, TokenModel};

verus! {

/// A non-empty run of decimal digits.
pub open spec fn is_digit_run(x: Seq<char>) -> bool {
    x.len() > 0 && forall|k: int| 0 <= k < x.len() ==> is_digit(#[trigger] x[k])
}

/// The text of a decimal literal: an optional `-`, the digits of the integer
/// part, and, where `fraction` is not empty, a `.` and its digits.
pub open spec fn literal_text(negative: bool, integer: Seq<char>, fraction: Seq<char>) -> Seq<char> {
    let sign = if negative {
        seq!['-']
    } else {
        Seq::<char>::empty()
    };
    let tail = if fraction.len() > 0 {
        seq!['.'] + fraction
    } else {
        Seq::<char>::empty()
    };
    sign + integer + tail
}

/// The parts of a valid decimal literal: digits before the `.`, and digits
/// after it where there is a fractional part.
pub open spec fn is_literal(integer: Seq<char>, fraction: Seq<char>) -> bool {
    is_digit_run(integer) && (fraction.len() == 0 || is_digit_run(fraction))
}

/// A position where a number literal has to end: the end of the text, or a
/// character that is neither a digit nor a `.`.
pub open spec fn ends_literal(s: Seq<char>, j: int) -> bool {
    j == s.len() || (0 <= j < s.len() && !is_digit(s[j]) && s[j] != '.')
}

proof fn lemma_digits_run(s: Seq<char>, i: int, j: int)
    requires
        0 <= i <= j <= s.len(),
        forall|k: int| i <= k < j ==> is_digit(#[trigger] s[k]),
        j == s.len() || !is_digit(s[j]),
    ensures
        digits_end(s, i) == j,
    decreases j - i,
{
    if i < j {
        lemma_digits_run(s, i + 1, j);
    }
}

/// A literal found at position `i` of `s` becomes one number token, after
/// which the scan goes on as after a number.
proof fn lemma_literal_at(
    s: Seq<char>,
    i: int,
    after_number: bool,
    negative: bool,
    integer: Seq<char>,
    fraction: Seq<char>,
)
    requires
        is_literal(integer, fraction),
        negative ==> !after_number,
        0 <= i,
        i + literal_text(negative, integer, fraction).len() <= s.len(),
        s.subrange(i, i + literal_text(negative, integer, fraction).len()) == literal_text(
            negative,
            integer,
            fraction,
        ),
        ends_literal(s, i + literal_text(negative, integer, fraction).len()),
    ensures
        scan_from(s, i, after_number) == prepend(
            TokenModel::Number(literal_text(negative, integer, fraction)),
            scan_from(s, i + literal_text(negative, integer, fraction).len(), true),
        ),
{
    let d = literal_text(negative, integer, fraction);
    let end = i + d.len();
    let b = if negative {
        i + 1
    } else {
        i
    };
    let e = b + integer.len();
    assert forall|k: int| 0 <= k < d.len() implies s[i + k] == d[k] by {
        assert(s.subrange(i, end)[k] == s[i + k]);
    }
    assert forall|k: int| b <= k < e implies is_digit(#[trigger] s[k]) by {
        assert(s[k] == d[k - i]);
        assert(d[k - i] == integer[k - b]);
    }
    if fraction.len() > 0 {
        assert(s[e] == d[e - i]);
        assert(s[e] == '.');
        assert forall|k: int| e + 1 <= k < end implies is_digit(#[trigger] s[k]) by {
            assert(s[k] == d[k - i]);
            assert(d[k - i] == fraction[k - e - 1]);
        }
        lemma_digits_run(s, b, e);
        lemma_digits_run(s, e + 1, end);
        assert(s[e + 1] == d[e + 1 - i]);
    } else {
        assert(e == end);
        lemma_digits_run(s, b, e);
    }
    assert(number_end(s, b) == Ok::<int, TokenScanError>(end));
    if negative {
        assert(s[i] == d[0]);
    } else {
        assert(s[i] == d[0]);
        assert(d[0] == integer[0]);
    }
}

/// A valid decimal literal on its own scans to exactly one number token that
/// holds its text.
pub proof fn literal_scans_alone(negative: bool, integer: Seq<char>, fraction: Seq<char>)
    requires
        is_literal(integer, fraction),
    ensures
        scan(literal_text(negative, integer, fraction)) == Ok::<Seq<TokenModel>, TokenScanError>(
            seq![TokenModel::Number(literal_text(negative, integer, fraction))],
        ),
{
    let d = literal_text(negative, integer, fraction);
    assert(d.subrange(0, d.len() as int) =~= d);
    lemma_literal_at(d, 0, false, negative, integer, fraction);
    assert(seq![TokenModel::Number(d)] + Seq::<TokenModel>::empty() =~= seq![TokenModel::Number(d)]);
}

/// Digits followed by a `.` that no digit follows are no number literal.
pub proof fn dot_without_fraction_is_rejected(integer: Seq<char>, rest: Seq<char>)
    requires
        is_digit_run(integer),
        rest.len() == 0 || !is_digit(rest[0]),
    ensures
        scan(integer + seq!['.'] + rest) == Err::<Seq<TokenModel>, TokenScanError>(
            TokenScanError::InvalidNumberLiteral,
        ),
{
    let s = integer + seq!['.'] + rest;
    let e = integer.len() as int;
    assert forall|k: int| 0 <= k < e implies is_digit(#[trigger] s[k]) by {
        assert(s[k] == integer[k]);
    }
    assert(s[e] == '.');
    lemma_digits_run(s, 0, e);
    if rest.len() > 0 {
        assert(s[e + 1] == rest[0]);
    }
    assert(s[0] == integer[0]);
}

/// A character that starts no token (no digit, operator, `-` or white
/// space) ends the scan with an error.
pub proof fn unknown_character_is_rejected(c: char, rest: Seq<char>)
    requires
        !is_digit(c),
        single_operator(c) is None,
        c != '-',
        !is_white_space(c),
    ensures
        scan(seq![c] + rest) == Err::<Seq<TokenModel>, TokenScanError>(
            TokenScanError::InvalidCharacter,
        ),
{
    assert((seq![c] + rest)[0] == c);
}

/// A `-` at the start of the text is the sign of the literal that it begins.
pub proof fn minus_at_start_is_a_sign(integer: Seq<char>, fraction: Seq<char>, rest: Seq<char>)
    requires
        is_literal(integer, fraction),
        ends_literal(literal_text(true, integer, fraction) + rest, literal_text(true, integer, fraction).len() as int),
    ensures
        scan(literal_text(true, integer, fraction) + rest) == prepend(
            TokenModel::Number(literal_text(true, integer, fraction)),
            scan_from(
                literal_text(true, integer, fraction) + rest,
                literal_text(true, integer, fraction).len() as int,
                true,
            ),
        ),
{
    let d = literal_text(true, integer, fraction);
    let s = d + rest;
    assert(s.subrange(0, d.len() as int) =~= d);
    lemma_literal_at(s, 0, false, true, integer, fraction);
}

/// A `-` right after an operator, `(` included, is the sign of the literal
/// that it begins.
pub proof fn minus_after_operator_is_a_sign(
    c: char,
    integer: Seq<char>,
    fraction: Seq<char>,
    rest: Seq<char>,
)
    requires
        single_operator(c) is Some,
        is_literal(integer, fraction),
        ends_literal(
            seq![c] + literal_text(true, integer, fraction) + rest,
            literal_text(true, integer, fraction).len() + 1int,
        ),
    ensures
        scan(seq![c] + literal_text(true, integer, fraction) + rest) == prepend(
            TokenModel::Op(single_operator(c)->Some_0),
            prepend(
                TokenModel::Number(literal_text(true, integer, fraction)),
                scan_from(
                    seq![c] + literal_text(true, integer, fraction) + rest,
                    literal_text(true, integer, fraction).len() + 1int,
                    true,
                ),
            ),
        ),
{
    let d = literal_text(true, integer, fraction);
    let s = seq![c] + d + rest;
    assert(s.subrange(1, d.len() + 1int) =~= d);
    lemma_literal_at(s, 1, false, true, integer, fraction);
    assert(s[0] == c);
}

/// A `-` right after a number is the subtraction operator.
pub proof fn minus_after_number_is_binary(
    integer: Seq<char>,
    fraction: Seq<char>,
    rest: Seq<char>,
)
    requires
        is_literal(integer, fraction),
    ensures
        scan(literal_text(false, integer, fraction) + seq!['-'] + rest) == prepend(
            TokenModel::Number(literal_text(false, integer, fraction)),
            prepend(
                TokenModel::Op(Operator::Minus),
                scan_from(
                    literal_text(false, integer, fraction) + seq!['-'] + rest,
                    literal_text(false, integer, fraction).len() + 1int,
                    false,
                ),
            ),
        ),
{
    let d = literal_text(false, integer, fraction);
    let s = d + seq!['-'] + rest;
    assert(s.subrange(0, d.len() as int) =~= d);
    assert(s[d.len() as int] == '-');
    lemma_literal_at(s, 0, false, false, integer, fraction);
}

/// Scanning the same text twice gives token sequences that are equal
/// element by element.
pub proof fn scan_is_deterministic(s1: Seq<char>, s2: Seq<char>, t1: Seq<Token>, t2: Seq<Token>)
    requires
        s1 == s2,
        scan(s1) == Ok::<Seq<TokenModel>, TokenScanError>(tokens_model(t1)),
        scan(s2) == Ok::<Seq<TokenModel>, TokenScanError>(tokens_model(t2)),
    ensures
        t1.len() == t2.len(),
        forall|k: int| 0 <= k < t1.len() ==> (#[trigger] t1[k])@ == t2[k]@,
{
    assert(tokens_model(t1).len() == t1.len());
    assert(tokens_model(t2).len() == t2.len());
    assert forall|k: int| 0 <= k < t1.len() implies (#[trigger] t1[k])@ == t2[k]@ by {
        assert(tokens_model(t1)[k] == t1[k]@);
        assert(tokens_model(t2)[k] == t2[k]@);
    }
}

/// An operator applied to two operands.
pub open spec fn binary(op: Operator, left: ExprModel, right: ExprModel) -> ExprModel {
    ExprModel::Binary(op, Box::new(left), Box::new(right))
}

/// In `a o1 b o2 c`, the second operator binds tighter only where its weight
/// is strictly greater; otherwise the first is folded first, from the left.
pub proof fn precedence_and_left_fold(
    a: Seq<char>,
    o1: Operator,
    b: Seq<char>,
    o2: Operator,
    c: Seq<char>,
)
    requires
        is_arithmetic(o1),
        is_arithmetic(o2),
    ensures
        parse_tokens(
            seq![
                TokenModel::Number(a),
                TokenModel::Op(o1),
                TokenModel::Number(b),
                TokenModel::Op(o2),
                TokenModel::Number(c),
            ],
        ) == Ok::<ExprModel, ParseError>(
            if weight_of(o1) < weight_of(o2) {
                binary(
                    o1,
                    ExprModel::Number(a),
                    binary(o2, ExprModel::Number(b), ExprModel::Number(c)),
                )
            } else {
                binary(
                    o2,
                    binary(o1, ExprModel::Number(a), ExprModel::Number(b)),
                    ExprModel::Number(c),
                )
            },
        ),
{
    let (na, nb, nc) = (ExprModel::Number(a), ExprModel::Number(b), ExprModel::Number(c));
    let ts = seq![
        TokenModel::Number(a),
        TokenModel::Op(o1),
        TokenModel::Number(b),
        TokenModel::Op(o2),
        TokenModel::Number(c),
    ];
    let t1 = ts.drop_first();
    let t2 = t1.drop_first();
    let t3 = t2.drop_first();
    let t4 = t3.drop_first();
    let t5 = t4.drop_first();
    assert(t5.len() == 0);
    let e = Seq::<ExprModel>::empty();
    let o = Seq::<Operator>::empty();
    assert(seq![o1].last() == o1);
    if weight_of(o1) < weight_of(o2) {
        let ops = seq![o1, o2];
        let nums = seq![na, nb, nc];
        assert(ops.last() == o2);
        assert(ops.drop_last() =~= seq![o1]);
        assert(seq![o1].drop_last() =~= o);
        assert(run(t5, ops, nums) == Ok::<Stacks, ParseError>((ops, nums)));
        assert(run(t4, seq![o1, o2], seq![na, nb]) == run(t5, ops, nums)) by {
            assert(e.push(na).push(nb).push(nc) =~= nums);
            assert(seq![na, nb].push(nc) =~= nums);
        }
        assert(run(t3, seq![o1], seq![na, nb]) == run(t4, seq![o1, o2], seq![na, nb])) by {
            assert(seq![o1].push(o2) =~= seq![o1, o2]);
        }
        assert(run(t2, seq![o1], seq![na]) == run(t3, seq![o1], seq![na, nb])) by {
            assert(seq![na].push(nb) =~= seq![na, nb]);
        }
        assert(run(t1, o, seq![na]) == run(t2, seq![o1], seq![na])) by {
            assert(o.push(o1) =~= seq![o1]);
        }
        assert(run(ts, o, e) == run(t1, o, seq![na])) by {
            assert(e.push(na) =~= seq![na]);
        }
        let inner = binary(o2, nb, nc);
        assert(nums.subrange(0, 1) =~= seq![na]);
        assert(seq![na].push(inner) =~= seq![na, inner]);
        assert(seq![na, inner].subrange(0, 0) =~= e);
        assert(e.push(binary(o1, na, inner)) =~= seq![binary(o1, na, inner)]);
        let done = seq![binary(o1, na, inner)];
        assert(fold(o1, seq![na, inner]) == Ok::<Seq<ExprModel>, ParseError>(done));
        assert(drain(o, done) == Ok::<Seq<ExprModel>, ParseError>(done));
        assert(drain(seq![o1], seq![na, inner]) == Ok::<Seq<ExprModel>, ParseError>(done));
        assert(fold(o2, nums) == Ok::<Seq<ExprModel>, ParseError>(seq![na, inner]));
        assert(drain(ops, nums) == Ok::<Seq<ExprModel>, ParseError>(done));
    } else {
        let ab = binary(o1, na, nb);
        let ops = seq![o2];
        let nums = seq![ab, nc];
        assert(ops.last() == o2);
        assert(ops.drop_last() =~= o);
        assert(run(t5, ops, nums) == Ok::<Stacks, ParseError>((ops, nums)));
        assert(run(t4, ops, seq![ab]) == run(t5, ops, nums)) by {
            assert(seq![ab].push(nc) =~= nums);
        }
        assert(run(t3, seq![o1], seq![na, nb]) == run(t4, ops, seq![ab])) by {
            assert(seq![na, nb].subrange(0, 0) =~= e);
            assert(e.push(ab) =~= seq![ab]);
            assert(seq![o1].drop_last().push(o2) =~= ops);
        }
        assert(run(t2, seq![o1], seq![na]) == run(t3, seq![o1], seq![na, nb])) by {
            assert(seq![na].push(nb) =~= seq![na, nb]);
        }
        assert(run(t1, o, seq![na]) == run(t2, seq![o1], seq![na])) by {
            assert(o.push(o1) =~= seq![o1]);
        }
        assert(run(ts, o, e) == run(t1, o, seq![na])) by {
            assert(e.push(na) =~= seq![na]);
        }
        assert(nums.subrange(0, 0) =~= e);
        assert(e.push(binary(o2, ab, nc)) =~= seq![binary(o2, ab, nc)]);
        let done = seq![binary(o2, ab, nc)];
        assert(fold(o2, nums) == Ok::<Seq<ExprModel>, ParseError>(done));
        assert(drain(o, done) == Ok::<Seq<ExprModel>, ParseError>(done));
        assert(drain(ops, nums) == Ok::<Seq<ExprModel>, ParseError>(done));
    }
}

/// A parenthesised operation is folded before the operator that follows it:
/// `(a o1 b) o2 c` is `o2` applied to `a o1 b` and `c`.
pub proof fn parentheses_fold_first(
    a: Seq<char>,
    o1: Operator,
    b: Seq<char>,
    o2: Operator,
    c: Seq<char>,
)
    requires
        is_arithmetic(o1),
        is_arithmetic(o2),
    ensures
        parse_tokens(
            seq![
                TokenModel::Op(Operator::LParen),
                TokenModel::Number(a),
                TokenModel::Op(o1),
                TokenModel::Number(b),
                TokenModel::Op(Operator::RParen),
                TokenModel::Op(o2),
                TokenModel::Number(c),
            ],
        ) == Ok::<ExprModel, ParseError>(
            binary(o2, binary(o1, ExprModel::Number(a), ExprModel::Number(b)), ExprModel::Number(c)),
        ),
{
    let (na, nb, nc) = (ExprModel::Number(a), ExprModel::Number(b), ExprModel::Number(c));
    let lp = Operator::LParen;
    let ts = seq![
        TokenModel::Op(lp),
        TokenModel::Number(a),
        TokenModel::Op(o1),
        TokenModel::Number(b),
        TokenModel::Op(Operator::RParen),
        TokenModel::Op(o2),
        TokenModel::Number(c),
    ];
    let t1 = ts.drop_first();
    let t2 = t1.drop_first();
    let t3 = t2.drop_first();
    let t4 = t3.drop_first();
    let t5 = t4.drop_first();
    let t6 = t5.drop_first();
    let t7 = t6.drop_first();
    assert(t7.len() == 0);
    let e = Seq::<ExprModel>::empty();
    let o = Seq::<Operator>::empty();
    let ab = binary(o1, na, nb);
    let done = seq![binary(o2, ab, nc)];
    assert(seq![o2].drop_last() =~= o);
    assert(seq![ab, nc].subrange(0, 0) =~= e);
    assert(e.push(binary(o2, ab, nc)) =~= done);
    assert(fold(o2, seq![ab, nc]) == Ok::<Seq<ExprModel>, ParseError>(done));
    assert(drain(o, done) == Ok::<Seq<ExprModel>, ParseError>(done));
    assert(drain(seq![o2], seq![ab, nc]) == Ok::<Seq<ExprModel>, ParseError>(done));
    assert(run(t7, seq![o2], seq![ab, nc]) == Ok::<Stacks, ParseError>((seq![o2], seq![ab, nc])));
    assert(run(t6, seq![o2], seq![ab]) == run(t7, seq![o2], seq![ab, nc])) by {
        assert(seq![ab].push(nc) =~= seq![ab, nc]);
    }
    assert(run(t5, o, seq![ab]) == run(t6, seq![o2], seq![ab])) by {
        assert(o.push(o2) =~= seq![o2]);
    }
    assert(run(t4, seq![lp, o1], seq![na, nb]) == run(t5, o, seq![ab])) by {
        assert(seq![lp, o1].last() == o1);
        assert(seq![lp, o1].drop_last() =~= seq![lp]);
        assert(seq![lp].last() == lp);
        assert(seq![lp].drop_last() =~= o);
        assert(seq![na, nb].subrange(0, 0) =~= e);
        assert(e.push(ab) =~= seq![ab]);
        assert(fold(o1, seq![na, nb]) == Ok::<Seq<ExprModel>, ParseError>(seq![ab]));
        assert(close_brace(seq![lp], seq![ab]) == Ok::<Stacks, ParseError>((o, seq![ab])));
        assert(close_brace(seq![lp, o1], seq![na, nb]) == Ok::<Stacks, ParseError>(
            (o, seq![ab]),
        ));
    }
    assert(run(t3, seq![lp, o1], seq![na]) == run(t4, seq![lp, o1], seq![na, nb])) by {
        assert(seq![na].push(nb) =~= seq![na, nb]);
    }
    assert(run(t2, seq![lp], seq![na]) == run(t3, seq![lp, o1], seq![na])) by {
        assert(seq![lp].last() == lp);
        assert(seq![lp].push(o1) =~= seq![lp, o1]);
    }
    assert(run(t1, seq![lp], e) == run(t2, seq![lp], seq![na])) by {
        assert(e.push(na) =~= seq![na]);
    }
    assert(run(ts, o, e) == run(t1, seq![lp], e)) by {
        assert(o.push(lp) =~= seq![lp]);
    }
}

/// A closing parenthesis with no opening one before it has no operator to
/// close.
pub proof fn unmatched_closing_parenthesis(rest: Seq<TokenModel>)
    ensures
        parse_tokens(seq![TokenModel::Op(Operator::RParen)] + rest) == Err::<ExprModel, ParseError>(
            ParseError::NoOperator,
        ),
{
    assert((seq![TokenModel::Op(Operator::RParen)] + rest)[0] == TokenModel::Op(Operator::RParen));
}

/// Two numbers that no operator joins leave more than one operand.
pub proof fn numbers_without_operator(a: Seq<char>, b: Seq<char>)
    ensures
        parse_tokens(seq![TokenModel::Number(a), TokenModel::Number(b)]) == Err::<
            ExprModel,
            ParseError,
        >(ParseError::StackNotEmpty),
{
    let ts = seq![TokenModel::Number(a), TokenModel::Number(b)];
    let o = Seq::<Operator>::empty();
    let e = Seq::<ExprModel>::empty();
    let nums = seq![ExprModel::Number(a), ExprModel::Number(b)];
    assert(ts.drop_first().drop_first().len() == 0);
    assert(ts.drop_first()[0] == TokenModel::Number(b));
    assert(run(ts.drop_first().drop_first(), o, nums) == Ok::<Stacks, ParseError>((o, nums)));
    assert(run(ts.drop_first(), o, seq![ExprModel::Number(a)]) == Ok::<Stacks, ParseError>(
        (o, nums),
    )) by {
        assert(seq![ExprModel::Number(a)].push(ExprModel::Number(b)) =~= nums);
    }
    assert(e.push(ExprModel::Number(a)) =~= seq![ExprModel::Number(a)]);
}

/// An operator with no right operand fails when it is folded.
pub proof fn operator_without_right_operand(a: Seq<char>, op: Operator)
    requires
        is_arithmetic(op),
    ensures
        parse_tokens(seq![TokenModel::Number(a), TokenModel::Op(op)]) == Err::<
            ExprModel,
            ParseError,
        >(ParseError::NoNumber),
{
    let ts = seq![TokenModel::Number(a), TokenModel::Op(op)];
    let o = Seq::<Operator>::empty();
    let e = Seq::<ExprModel>::empty();
    let na = seq![ExprModel::Number(a)];
    assert(ts.drop_first().drop_first().len() == 0);
    assert(o.push(op) =~= seq![op]);
    assert(seq![op].last() == op);
    assert(ts.drop_first()[0] == TokenModel::Op(op));
    assert(run(ts.drop_first().drop_first(), seq![op], na) == Ok::<Stacks, ParseError>(
        (seq![op], na),
    ));
    assert(run(ts.drop_first(), o, na) == Ok::<Stacks, ParseError>((seq![op], na)));
    assert(e.push(ExprModel::Number(a)) =~= na);
}

} // verus!
