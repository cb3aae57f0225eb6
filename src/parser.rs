use vstd::prelude::*;

use crate::error::ParseError;
use crate::tokens::{tokens_model, weight_of, Operator, Token, TokenModel};

verus! {

/// An expression tree as a mathematical value.
pub enum ExprModel {
    Number(Seq<char>),
    Binary(Operator, Box<ExprModel>, Box<ExprModel>),
}

/// The result of a parse: a number literal, or an operator applied to a left
/// and a right operand.
#[derive(Debug)]
pub enum Expression {
    Number(Vec<char>),
    Binary(Operator, Box<Expression>, Box<Expression>),
}

impl View for Expression {
    type V = ExprModel;

    open spec fn view(&self) -> ExprModel
        decreases self,
    {
        match self {
            Expression::Number(text) => ExprModel::Number(text@),
            Expression::Binary(op, left, right) => ExprModel::Binary(
                *op,
                Box::new((**left)@),
                Box::new((**right)@),
            ),
        }
    }
}

/// The models of a stack of expressions.
pub open spec fn exprs_model(es: Seq<Expression>) -> Seq<ExprModel> {
    es.map_values(|e: Expression| e@)
}

/// An operator that a fold can apply to two numbers.
pub open spec fn is_arithmetic(op: Operator) -> bool {
    op == Operator::Plus || op == Operator::Minus || op == Operator::Star || op == Operator::Slash
}

/// Applies `op` to the two numbers on top of the stack: the one pushed earlier
/// is the left operand.
pub open spec fn fold(op: Operator, nums: Seq<ExprModel>) -> Result<Seq<ExprModel>, ParseError> {
    if nums.len() < 2 {
        Err(ParseError::NoNumber)
    } else if !is_arithmetic(op) {
        Err(ParseError::IncorrectOperator)
    } else {
        let first = nums[nums.len() - 2];
        let second = nums[nums.len() - 1];
        Ok(nums.subrange(0, nums.len() - 2).push(ExprModel::Binary(op, Box::new(first), Box::new(second))))
    }
}

/// The two stacks of a parse in progress: operators, and numbers.
pub type Stacks = (Seq<Operator>, Seq<ExprModel>);

/// Folds operators off the top of the stack down to the nearest `(`, which is
/// dropped; with no `(` there, the closing parenthesis has no match.
pub open spec fn close_brace(ops: Seq<Operator>, nums: Seq<ExprModel>) -> Result<Stacks, ParseError>
    decreases ops.len(),
{
    if ops.len() == 0 {
        Err(ParseError::NoOperator)
    } else if ops.last() == Operator::LParen {
        Ok((ops.drop_last(), nums))
    } else {
        match fold(ops.last(), nums) {
            Ok(n) => close_brace(ops.drop_last(), n),
            Err(e) => Err(e),
        }
    }
}

/// What one operator token does to the stacks. An operator of a higher
/// weight than the top one waits on the stack; otherwise the top is folded
/// once first.
pub open spec fn handle_operator(op: Operator, ops: Seq<Operator>, nums: Seq<ExprModel>) -> Result<
    Stacks,
    ParseError,
> {
    if op == Operator::LParen {
        Ok((ops.push(op), nums))
    } else if op == Operator::RParen {
        close_brace(ops, nums)
    } else if ops.len() == 0 || weight_of(ops.last()) < weight_of(op) {
        Ok((ops.push(op), nums))
    } else {
        match fold(ops.last(), nums) {
            Ok(n) => Ok((ops.drop_last().push(op), n)),
            Err(e) => Err(e),
        }
    }
}

/// What one token does to the stacks.
pub open spec fn step(t: TokenModel, ops: Seq<Operator>, nums: Seq<ExprModel>) -> Result<Stacks, ParseError> {
    match t {
        TokenModel::Number(text) => Ok((ops, nums.push(ExprModel::Number(text)))),
        TokenModel::Op(op) => handle_operator(op, ops, nums),
    }
}

/// The stacks after the tokens `ts`, taken from the front.
pub open spec fn run(ts: Seq<TokenModel>, ops: Seq<Operator>, nums: Seq<ExprModel>) -> Result<Stacks, ParseError>
    decreases ts.len(),
{
    if ts.len() == 0 {
        Ok((ops, nums))
    } else {
        match step(ts[0], ops, nums) {
            Ok(st) => run(ts.drop_first(), st.0, st.1),
            Err(e) => Err(e),
        }
    }
}

/// Folds every operator left on the stack, from the top down.
pub open spec fn drain(ops: Seq<Operator>, nums: Seq<ExprModel>) -> Result<Seq<ExprModel>, ParseError>
    decreases ops.len(),
{
    if ops.len() == 0 {
        Ok(nums)
    } else {
        match fold(ops.last(), nums) {
            Ok(n) => drain(ops.drop_last(), n),
            Err(e) => Err(e),
        }
    }
}

/// The one expression left once the operators are drained.
pub open spec fn finish(ops: Seq<Operator>, nums: Seq<ExprModel>) -> Result<ExprModel, ParseError> {
    match drain(ops, nums) {
        Ok(n) => if n.len() == 0 {
            Err(ParseError::NoNumber)
        } else if n.len() > 1 {
            Err(ParseError::StackNotEmpty)
        } else {
            Ok(n[0])
        },
        Err(e) => Err(e),
    }
}

/// The result of parsing the tokens `ts` from stacks `ops` and `nums`.
pub open spec fn parse_from(ts: Seq<TokenModel>, ops: Seq<Operator>, nums: Seq<ExprModel>) -> Result<
    ExprModel,
    ParseError,
> {
    match run(ts, ops, nums) {
        Ok(st) => finish(st.0, st.1),
        Err(e) => Err(e),
    }
}

/// The expression that a token sequence stands for.
pub open spec fn parse_tokens(ts: Seq<TokenModel>) -> Result<ExprModel, ParseError> {
    parse_from(ts, seq![], seq![])
}

/// Evaluates a token sequence with two stacks, one of pending operators and
/// one of operands.
pub struct ExpressionParser {
    tokens: Vec<Token>,
    operators: Vec<Operator>,
    numbers: Vec<Expression>,
}

impl ExpressionParser {
    /// The tokens not yet read, first one first.
    pub closed spec fn pending(&self) -> Seq<TokenModel> {
        tokens_model(self.tokens@)
    }

    /// The operator stack, top last.
    pub closed spec fn operators(&self) -> Seq<Operator> {
        self.operators@
    }

    /// The operand stack, top last.
    pub closed spec fn numbers(&self) -> Seq<ExprModel> {
        exprs_model(self.numbers@)
    }

    /// A parser of `tokens`, with both stacks empty.
    pub fn new(tokens: Vec<Token>) -> (r: Self)
        ensures
            r.pending() == tokens_model(tokens@),
            r.operators() == Seq::<Operator>::empty(),
            r.numbers() == Seq::<ExprModel>::empty(),
    {
        let r = ExpressionParser { tokens, operators: Vec::new(), numbers: Vec::new() };
        assert(r.numbers() =~= Seq::<ExprModel>::empty());
        r
    }

    /// Reads every pending token, drains the operator stack and returns the
    /// one expression that is left.
    pub fn parse(&mut self) -> (r: Result<Expression, ParseError>)
        ensures
            match r {
                Ok(e) => parse_from(old(self).pending(), old(self).operators(), old(self).numbers())
                    == Ok::<ExprModel, ParseError>(e@),
                Err(x) => parse_from(old(self).pending(), old(self).operators(), old(self).numbers())
                    == Err::<ExprModel, ParseError>(x),
            },
    {
        let ghost goal = parse_from(self.pending(), self.operators(), self.numbers());
        while self.tokens.len() > 0
            invariant
                goal == parse_from(self.pending(), self.operators(), self.numbers()),
                goal == parse_from(old(self).pending(), old(self).operators(), old(self).numbers()),
            decreases self.tokens@.len(),
        {
            let ghost ts = self.pending();
            let t = self.tokens.remove(0);
            assert(self.pending() =~= ts.drop_first());
            assert(ts[0] == t@);
            match t {
                Token::Op(op) => {
                    let ghost ops = self.operators();
                    let ghost nums = self.numbers();
                    match self.handle_operator(op) {
                        Ok(()) => {},
                        Err(e) => {
                            assert(run(ts, ops, nums) == Err::<Stacks, ParseError>(e));
                            return Err(e);
                        },
                    }
                },
                Token::Number(text) => {
                    let ghost nums = self.numbers();
                    self.numbers.push(Expression::Number(text));
                    assert(self.numbers() =~= nums.push(ExprModel::Number(text@)));
                },
            }
        }
        assert(self.pending() =~= Seq::<TokenModel>::empty());
        match self.empty_operation_stack() {
            Ok(()) => {},
            Err(e) => {
                return Err(e);
            },
        }
        if self.numbers.len() == 0 {
            return Err(ParseError::NoNumber);
        }
        if self.numbers.len() > 1 {
            return Err(ParseError::StackNotEmpty);
        }
        let result = self.numbers.pop();
        match result {
            Some(e) => Ok(e),
            None => Err(ParseError::NoNumber),
        }
    }

    /// Folds every operator left on the stack.
    fn empty_operation_stack(&mut self) -> (r: Result<(), ParseError>)
        ensures
            match drain(old(self).operators(), old(self).numbers()) {
                Ok(n) => r is Ok && final(self).numbers() == n && final(self).operators().len() == 0,
                Err(e) => r == Err::<(), ParseError>(e),
            },
            final(self).pending() == old(self).pending(),
    {
        while self.operators.len() > 0
            invariant
                drain(old(self).operators(), old(self).numbers()) == drain(
                    self.operators(),
                    self.numbers(),
                ),
                self.pending() == old(self).pending(),
            decreases self.operators@.len(),
        {
            match self.perform_operation() {
                Ok(()) => {},
                Err(e) => {
                    return Err(e);
                },
            }
        }
        Ok(())
    }

    /// Routes one operator: `(` waits, `)` closes a brace, and any other
    /// either waits above a lower one or folds the top first.
    fn handle_operator(&mut self, operator: Operator) -> (r: Result<(), ParseError>)
        ensures
            match handle_operator(operator, old(self).operators(), old(self).numbers()) {
                Ok(st) => r is Ok && final(self).operators() == st.0 && final(self).numbers()
                    == st.1,
                Err(e) => r == Err::<(), ParseError>(e),
            },
            final(self).pending() == old(self).pending(),
    {
        if operator == Operator::LParen {
            self.operators.push(operator);
            return Ok(());
        }
        if operator == Operator::RParen {
            return self.perform_all_until_brace();
        }
        let n = self.operators.len();
        if n == 0 || self.operators[n - 1] < operator {
            self.operators.push(operator);
            Ok(())
        } else {
            self.perform_and_push_new_if_ok(operator)
        }
    }

    /// Folds down to the nearest `(` and drops it.
    fn perform_all_until_brace(&mut self) -> (r: Result<(), ParseError>)
        ensures
            match close_brace(old(self).operators(), old(self).numbers()) {
                Ok(st) => r is Ok && final(self).operators() == st.0 && final(self).numbers()
                    == st.1,
                Err(e) => r == Err::<(), ParseError>(e),
            },
            final(self).pending() == old(self).pending(),
    {
        loop
            invariant
                close_brace(old(self).operators(), old(self).numbers()) == close_brace(
                    self.operators(),
                    self.numbers(),
                ),
                self.pending() == old(self).pending(),
            decreases self.operators@.len(),
        {
            let n = self.operators.len();
            if n == 0 {
                return Err(ParseError::NoOperator);
            }
            if self.operators[n - 1] == Operator::LParen {
                self.operators.pop();
                return Ok(());
            }
            match self.perform_operation() {
                Ok(()) => {},
                Err(e) => {
                    return Err(e);
                },
            }
        }
    }

    /// Folds the top operator, then pushes `new_operator` if that worked.
    fn perform_and_push_new_if_ok(&mut self, new_operator: Operator) -> (r: Result<(), ParseError>)
        requires
            old(self).operators().len() > 0,
        ensures
            match fold(old(self).operators().last(), old(self).numbers()) {
                Ok(n) => r is Ok && final(self).operators() == old(self).operators().drop_last().push(
                    new_operator,
                ) && final(self).numbers() == n,
                Err(e) => r == Err::<(), ParseError>(e),
            },
            final(self).pending() == old(self).pending(),
    {
        match self.perform_operation() {
            Ok(()) => {},
            Err(e) => {
                return Err(e);
            },
        }
        self.operators.push(new_operator);
        Ok(())
    }

    /// Pops the top operator and applies it to the two numbers on top.
    fn perform_operation(&mut self) -> (r: Result<(), ParseError>)
        requires
            old(self).operators().len() > 0,
        ensures
            final(self).operators() == old(self).operators().drop_last(),
            final(self).pending() == old(self).pending(),
            match fold(old(self).operators().last(), old(self).numbers()) {
                Ok(n) => r is Ok && final(self).numbers() == n,
                Err(e) => r == Err::<(), ParseError>(e),
            },
    {
        let ghost nums = self.numbers@;
        let operator = match self.operators.pop() {
            Some(op) => op,
            None => {
                return Err(ParseError::NoOperator);
            },
        };
        if self.numbers.len() < 2 {
            return Err(ParseError::NoNumber);
        }
        let second = match self.numbers.pop() {
            Some(e) => e,
            None => {
                return Err(ParseError::NoNumber);
            },
        };
        let first = match self.numbers.pop() {
            Some(e) => e,
            None => {
                return Err(ParseError::NoNumber);
            },
        };
        match operator {
            Operator::Plus | Operator::Minus | Operator::Star | Operator::Slash => {},
            _ => {
                return Err(ParseError::IncorrectOperator);
            },
        }
        let folded = Expression::Binary(operator, Box::new(first), Box::new(second));
        self.numbers.push(folded);
        proof {
            let m = exprs_model(nums);
            assert(self.numbers@ =~= nums.subrange(0, nums.len() - 2).push(folded));
            assert(exprs_model(self.numbers@) =~= m.subrange(0, m.len() - 2).push(folded@));
        }
        Ok(())
    }
}

} // verus!
