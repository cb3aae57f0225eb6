use vstd::prelude::*;

use crate::error::TokenScanError;
use crate::tokens::{tokens_model, Operator, Token, TokenModel};

verus! {

/// A decimal digit `0`..=`9`.
pub open spec fn is_digit(c: char) -> bool {
    '0' <= c && c <= '9'
}

/// A character with Unicode's White_Space property.
pub open spec fn is_white_space(c: char) -> bool {
    ('\u{9}' <= c && c <= '\u{d}') || c == ' ' || c == '\u{85}' || c == '\u{a0}'
        || c == '\u{1680}' || ('\u{2000}' <= c && c <= '\u{200a}') || c == '\u{2028}'
        || c == '\u{2029}' || c == '\u{202f}' || c == '\u{205f}' || c == '\u{3000}'
}

/// The operator that a character stands for on its own, if any (`-` is
/// left out: it may also be the sign of a number).
pub open spec fn single_operator(c: char) -> Option<Operator> {
    if c == '+' {
        Some(Operator::Plus)
    } else if c == '*' {
        Some(Operator::Star)
    } else if c == '/' {
        Some(Operator::Slash)
    } else if c == '(' {
        Some(Operator::LParen)
    } else if c == ')' {
        Some(Operator::RParen)
    } else {
        None
    }
}

/// The end of the longest run of digits in `s` that starts at `i`.
pub open spec fn digits_end(s: Seq<char>, i: int) -> int
    decreases s.len() - i,
{
    if 0 <= i < s.len() && is_digit(s[i]) {
        digits_end(s, i + 1)
    } else {
        i
    }
}

/// Where the unsigned part of a number literal that starts at `body` ends:
/// a run of digits, then, where a `.` follows, the `.` and a second run of
/// digits, which must not be empty.
pub open spec fn number_end(s: Seq<char>, body: int) -> Result<int, TokenScanError> {
    let e = digits_end(s, body);
    if e < s.len() && s[e] == '.' {
        if e + 1 < s.len() && is_digit(s[e + 1]) {
            Ok(digits_end(s, e + 1))
        } else {
            Err(TokenScanError::InvalidNumberLiteral)
        }
    } else if e == body {
        Err(TokenScanError::InvalidNumberLiteral)
    } else {
        Ok(e)
    }
}

/// `t` in front of the tokens of a successful scan.
pub open spec fn prepend(
    t: TokenModel,
    r: Result<Seq<TokenModel>, TokenScanError>,
) -> Result<Seq<TokenModel>, TokenScanError> {
    match r {
        Ok(ts) => Ok(seq![t] + ts),
        Err(e) => Err(e),
    }
}

/// The tokens of `s` from position `i` on; `after_number` tells whether the
/// token scanned last was a number, which makes a `-` the binary operator.
pub open spec fn scan_from(s: Seq<char>, i: int, after_number: bool) -> Result<
    Seq<TokenModel>,
    TokenScanError,
>
    decreases s.len() - i,
    via scan_from_decreases
{
    if i < 0 || i >= s.len() {
        Ok(seq![])
    } else {
        let c = s[i];
        match single_operator(c) {
            Some(op) => prepend(TokenModel::Op(op), scan_from(s, i + 1, false)),
            None => {
                if c == '-' && after_number {
                    prepend(TokenModel::Op(Operator::Minus), scan_from(s, i + 1, false))
                } else if c == '-' || is_digit(c) {
                    let body = if c == '-' {
                        i + 1
                    } else {
                        i
                    };
                    match number_end(s, body) {
                        Ok(n) => prepend(
                            TokenModel::Number(s.subrange(i, n)),
                            scan_from(s, n, true),
                        ),
                        Err(e) => Err(e),
                    }
                } else if is_white_space(c) {
                    scan_from(s, i + 1, after_number)
                } else {
                    Err(TokenScanError::InvalidCharacter)
                }
            },
        }
    }
}

proof fn lemma_digits_end(s: Seq<char>, i: int)
    requires
        0 <= i <= s.len(),
    ensures
        i <= digits_end(s, i) <= s.len(),
        forall|k: int| i <= k < digits_end(s, i) ==> is_digit(#[trigger] s[k]),
        digits_end(s, i) < s.len() ==> !is_digit(s[digits_end(s, i)]),
    decreases s.len() - i,
{
    if i < s.len() && is_digit(s[i]) {
        lemma_digits_end(s, i + 1);
    }
}

proof fn lemma_number_end(s: Seq<char>, body: int)
    requires
        0 <= body <= s.len(),
    ensures
        number_end(s, body) is Ok ==> body < number_end(s, body)->Ok_0 <= s.len(),
{
    lemma_digits_end(s, body);
    let e = digits_end(s, body);
    if e + 1 < s.len() {
        lemma_digits_end(s, e + 1);
    }
}

#[via_fn]
proof fn scan_from_decreases(s: Seq<char>, i: int, after_number: bool) {
    if 0 <= i < s.len() {
        lemma_number_end(s, i);
        lemma_number_end(s, i + 1);
    }
}

/// The tokens of a whole line of text.
pub open spec fn scan(s: Seq<char>) -> Result<Seq<TokenModel>, TokenScanError> {
    scan_from(s, 0, false)
}

/// The tokens `pre` in front of those of a scan, where that scan succeeds.
pub open spec fn prefix_with(
    pre: Seq<TokenModel>,
    r: Result<Seq<TokenModel>, TokenScanError>,
) -> Result<Seq<TokenModel>, TokenScanError> {
    match r {
        Ok(ts) => Ok(pre + ts),
        Err(e) => Err(e),
    }
}

proof fn lemma_prefix_push(
    pre: Seq<TokenModel>,
    t: TokenModel,
    r: Result<Seq<TokenModel>, TokenScanError>,
)
    ensures
        prefix_with(pre, prepend(t, r)) == prefix_with(pre.push(t), r),
{
    if let Ok(ts) = r {
        assert(pre + (seq![t] + ts) =~= pre.push(t) + ts);
    }
}

fn is_digit_char(c: char) -> (r: bool)
    ensures
        r == is_digit(c),
{
    '0' <= c && c <= '9'
}

fn is_white_space_char(c: char) -> (r: bool)
    ensures
        r == is_white_space(c),
{
    ('\u{9}' <= c && c <= '\u{d}') || c == ' ' || c == '\u{85}' || c == '\u{a0}'
        || c == '\u{1680}' || ('\u{2000}' <= c && c <= '\u{200a}') || c == '\u{2028}'
        || c == '\u{2029}' || c == '\u{202f}' || c == '\u{205f}' || c == '\u{3000}'
}

fn operator_for(c: char) -> (r: Option<Operator>)
    ensures
        r == single_operator(c),
{
    if c == '+' {
        Some(Operator::Plus)
    } else if c == '*' {
        Some(Operator::Star)
    } else if c == '/' {
        Some(Operator::Slash)
    } else if c == '(' {
        Some(Operator::LParen)
    } else if c == ')' {
        Some(Operator::RParen)
    } else {
        None
    }
}

/// Splits one line of text into tokens. The lexeme being read is
/// `source[tail..head]`.
pub struct TokenScanner {
    source: Vec<char>,
    head: usize,
    tail: usize,
    tokens: Vec<Token>,
    after_number: bool,
}

impl TokenScanner {
    /// The text being scanned.
    pub closed spec fn source(&self) -> Seq<char> {
        self.source@
    }

    /// Nothing has been scanned yet.
    pub closed spec fn fresh(&self) -> bool {
        self.head == 0 && self.tail == 0 && self.tokens@.len() == 0 && !self.after_number
    }

    /// A scanner at the start of `source`.
    pub fn new(source: Vec<char>) -> (r: Self)
        ensures
            r.source() == source@,
            r.fresh(),
    {
        TokenScanner { source, head: 0, tail: 0, tokens: Vec::new(), after_number: false }
    }

    /// Moves `head` past the run of digits that starts there.
    fn advance_until_not_numeric(&mut self)
        requires
            old(self).head <= old(self).source@.len(),
        ensures
            final(self).source@ == old(self).source@,
            final(self).tail == old(self).tail,
            final(self).tokens@ == old(self).tokens@,
            final(self).after_number == old(self).after_number,
            final(self).head == digits_end(old(self).source@, old(self).head as int),
    {
        proof {
            lemma_digits_end(self.source@, self.head as int);
        }
        while self.head < self.source.len() && is_digit_char(self.source[self.head])
            invariant
                self.source@ == old(self).source@,
                self.tail == old(self).tail,
                self.tokens@ == old(self).tokens@,
                self.after_number == old(self).after_number,
                old(self).head <= self.head <= self.source@.len(),
                digits_end(self.source@, self.head as int) == digits_end(
                    self.source@,
                    old(self).head as int,
                ),
            decreases self.source@.len() - self.head,
        {
            self.head = self.head + 1;
        }
    }

    /// The lexeme `source[tail..head]`, after which `tail` moves up to `head`.
    fn consume(&mut self) -> (r: Vec<char>)
        requires
            old(self).tail <= old(self).head <= old(self).source@.len(),
        ensures
            r@ == old(self).source@.subrange(old(self).tail as int, old(self).head as int),
            final(self).source@ == old(self).source@,
            final(self).head == old(self).head,
            final(self).tail == old(self).head,
            final(self).tokens@ == old(self).tokens@,
            final(self).after_number == old(self).after_number,
    {
        let mut r: Vec<char> = Vec::new();
        let mut i: usize = self.tail;
        while i < self.head
            invariant
                self.tail <= i <= self.head <= self.source@.len(),
                r@ == self.source@.subrange(self.tail as int, i as int),
            decreases self.head - i,
        {
            r.push(self.source[i]);
            i = i + 1;
            assert(r@ =~= self.source@.subrange(self.tail as int, i as int));
        }
        self.tail = self.head;
        r
    }

    /// Reads the number literal that starts at `tail`, whose digits start at
    /// `body` (one past a leading `-`).
    fn try_consume_number(&mut self, body: usize) -> (r: Result<Token, TokenScanError>)
        requires
            old(self).tail <= body <= old(self).source@.len(),
        ensures
            final(self).source@ == old(self).source@,
            final(self).tokens@ == old(self).tokens@,
            final(self).after_number == old(self).after_number,
            match number_end(old(self).source@, body as int) {
                Ok(n) => r matches Ok(t) && t@ == TokenModel::Number(
                    old(self).source@.subrange(old(self).tail as int, n),
                ) && final(self).head == n && final(self).tail == n,
                Err(e) => r == Err::<Token, TokenScanError>(e),
            },
    {
        let ghost s = self.source@;
        self.head = body;
        self.advance_until_not_numeric();
        let e = self.head;
        proof {
            lemma_digits_end(s, body as int);
        }
        if e < self.source.len() && self.source[e] == '.' {
            if e + 1 < self.source.len() && is_digit_char(self.source[e + 1]) {
                self.head = e + 1;
                proof {
                    lemma_digits_end(s, e + 1);
                }
                self.advance_until_not_numeric();
            } else {
                return Err(TokenScanError::InvalidNumberLiteral);
            }
        } else if e == body {
            return Err(TokenScanError::InvalidNumberLiteral);
        }
        let text = self.consume();
        Ok(Token::Number(text))
    }

    /// Splits the whole text into tokens; the first character that fits no
    /// token ends the scan with an error.
    pub fn scan_tokens(self) -> (r: Result<Vec<Token>, TokenScanError>)
        requires
            self.fresh(),
        ensures
            match r {
                Ok(ts) => scan(self.source()) == Ok::<Seq<TokenModel>, TokenScanError>(
                    tokens_model(ts@),
                ),
                Err(e) => scan(self.source()) == Err::<Seq<TokenModel>, TokenScanError>(e),
            },
    {
        let mut sc = self;
        let ghost s = sc.source@;
        proof {
            assert(tokens_model(sc.tokens@) =~= seq![]);
            assert(seq![] + scan_from(s, 0, false)->Ok_0 =~= scan_from(s, 0, false)->Ok_0);
        }
        while sc.head < sc.source.len()
            invariant
                sc.source@ == s,
                s == self.source(),
                sc.tail == sc.head <= s.len(),
                scan(s) == prefix_with(
                    tokens_model(sc.tokens@),
                    scan_from(s, sc.head as int, sc.after_number),
                ),
            decreases s.len() - sc.head,
        {
            let i = sc.head;
            let c = sc.source[i];
            let ghost pre = tokens_model(sc.tokens@);
            match operator_for(c) {
                Some(op) => {
                    sc.head = i + 1;
                    sc.tail = sc.head;
                    sc.tokens.push(Token::Op(op));
                    sc.after_number = false;
                    proof {
                        lemma_prefix_push(pre, TokenModel::Op(op), scan_from(s, i + 1, false));
                        assert(tokens_model(sc.tokens@) =~= pre.push(TokenModel::Op(op)));
                    }
                },
                None => {
                    if c == '-' && sc.after_number {
                        sc.head = i + 1;
                        sc.tail = sc.head;
                        sc.tokens.push(Token::Op(Operator::Minus));
                        sc.after_number = false;
                        proof {
                            lemma_prefix_push(
                                pre,
                                TokenModel::Op(Operator::Minus),
                                scan_from(s, i + 1, false),
                            );
                            assert(tokens_model(sc.tokens@) =~= pre.push(
                                TokenModel::Op(Operator::Minus),
                            ));
                        }
                    } else if c == '-' || is_digit_char(c) {
                        let body = if c == '-' {
                            i + 1
                        } else {
                            i
                        };
                        proof {
                            lemma_number_end(s, body as int);
                        }
                        match sc.try_consume_number(body) {
                            Ok(t) => {
                                let ghost n = sc.head as int;
                                sc.tokens.push(t);
                                sc.after_number = true;
                                proof {
                                    lemma_prefix_push(
                                        pre,
                                        TokenModel::Number(s.subrange(i as int, n)),
                                        scan_from(s, n, true),
                                    );
                                    assert(tokens_model(sc.tokens@) =~= pre.push(
                                        TokenModel::Number(s.subrange(i as int, n)),
                                    ));
                                }
                            },
                            Err(e) => {
                                assert(scan_from(s, i as int, sc.after_number) == Err::<
                                    Seq<TokenModel>,
                                    TokenScanError,
                                >(e));
                                return Err(e);
                            },
                        }
                    } else if is_white_space_char(c) {
                        sc.head = i + 1;
                        sc.tail = sc.head;
                    } else {
                        assert(scan_from(s, i as int, sc.after_number) == Err::<
                            Seq<TokenModel>,
                            TokenScanError,
                        >(TokenScanError::InvalidCharacter));
                        return Err(TokenScanError::InvalidCharacter);
                    }
                },
            }
        }
        proof {
            assert(tokens_model(sc.tokens@) + seq![] =~= tokens_model(sc.tokens@));
        }
        Ok(sc.tokens)
    }
}

} // verus!
