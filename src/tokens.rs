use vstd::prelude::*;

verus! {

/// The operator vocabulary of an arithmetic expression.
#[derive(Debug, Clone, Copy, PartialEq, Eq, Structural)]
pub enum Operator {
    Plus,
    Minus,
    Star,
    Slash,
    LParen,
    RParen,
    Exponentiation,
}

/// Precedence tier of an operator: a higher tier folds later.
pub open spec fn weight_of(op: Operator) -> u8 {
    match op {
        Operator::Plus | Operator::Minus => 1,
        Operator::Star | Operator::Slash => 2,
        Operator::LParen | Operator::RParen => 0,
        Operator::Exponentiation => 3,
    }
}

impl Operator {
    /// The precedence tier of this operator.
    pub fn weight(&self) -> (r: u8)
        ensures
            r == weight_of(*self),
    {
        match self {
            Operator::Plus => 1,
            Operator::Minus => 1,
            Operator::Star => 2,
            Operator::Slash => 2,
            Operator::LParen => 0,
            Operator::RParen => 0,
            Operator::Exponentiation => 3,
        }
    }
}

/// The order of two weights.
pub open spec fn weight_order(a: Operator, b: Operator) -> core::cmp::Ordering {
    if weight_of(a) < weight_of(b) {
        core::cmp::Ordering::Less
    } else if weight_of(a) == weight_of(b) {
        core::cmp::Ordering::Equal
    } else {
        core::cmp::Ordering::Greater
    }
}

/// Operators are ordered by weight alone.
impl PartialOrd for Operator {
    fn partial_cmp(&self, other: &Operator) -> (r: Option<core::cmp::Ordering>) {
        let (a, b) = (self.weight(), other.weight());
        if a < b {
            Some(core::cmp::Ordering::Less)
        } else if a == b {
            Some(core::cmp::Ordering::Equal)
        } else {
            Some(core::cmp::Ordering::Greater)
        }
    }
}

impl vstd::std_specs::cmp::PartialOrdSpecImpl for Operator {
    open spec fn obeys_partial_cmp_spec() -> bool {
        true
    }

    open spec fn partial_cmp_spec(&self, other: &Operator) -> Option<core::cmp::Ordering> {
        Some(weight_order(*self, *other))
    }
}

} // verus!

verus! {

/// A token as a mathematical value: an operator, or the characters of a
/// number literal.
pub enum TokenModel {
    Op(Operator),
    Number(Seq<char>),
}

/// A lexical unit: an operator, or a number literal kept as its text
/// (an optional `-`, decimal digits, and an optional fractional part).
#[derive(Debug)]
pub enum Token {
    Op(Operator),
    Number(Vec<char>),
}

impl View for Token {
    type V = TokenModel;

    open spec fn view(&self) -> TokenModel {
        match self {
            Token::Op(op) => TokenModel::Op(*op),
            Token::Number(text) => TokenModel::Number(text@),
        }
    }
}

/// The models of a sequence of tokens.
pub open spec fn tokens_model(ts: Seq<Token>) -> Seq<TokenModel> {
    ts.map_values(|t: Token| t@)
}

fn same_text(a: &Vec<char>, b: &Vec<char>) -> (r: bool)
    ensures
        r == (a@ == b@),
{
    if a.len() != b.len() {
        return false;
    }
    let mut i: usize = 0;
    while i < a.len()
        invariant
            a@.len() == b@.len(),
            0 <= i <= a@.len(),
            forall|k: int| 0 <= k < i ==> a@[k] == b@[k],
        decreases a@.len() - i,
    {
        if a[i] != b[i] {
            return false;
        }
        i = i + 1;
    }
    assert(a@ =~= b@);
    true
}

impl PartialEq for Token {
    fn eq(&self, o: &Token) -> (r: bool) {
        match (self, o) {
            (Token::Op(x), Token::Op(y)) => *x == *y,
            (Token::Number(x), Token::Number(y)) => same_text(x, y),
            _ => false,
        }
    }
}

impl vstd::std_specs::cmp::PartialEqSpecImpl for Token {
    open spec fn obeys_eq_spec() -> bool {
        true
    }

    open spec fn eq_spec(&self, o: &Token) -> bool {
        self@ == o@
    }
}

} // verus!
