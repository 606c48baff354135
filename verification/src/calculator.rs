//! The calculator's input line: the tokens that the keypad builds, and how
//! each key edits them. Evaluating the line is floating point, done by the
//! caller, which hands the outcome back for the `=` key.
use crate::decimal::{decimal, push_decimal};
use vstd::prelude::*;

verus! {

/// A key of the calculator.
#[derive(Clone, Copy, Debug, PartialEq, Eq, Structural)]
pub enum Operation {
    Number(u8),
    Remove,
    Clear,
    Add,
    Mul,
    Div,
    Sub,
    Dot,
    Results,
}

/// A token of the input line.
#[derive(Clone, Debug)]
pub enum Token {
    Plus,
    Minus,
    Mul,
    Div,
    /// A number as typed: digits and dots.
    Number(Vec<u8>),
}

/// Why a line could not be evaluated.
#[derive(Clone, Copy, Debug, PartialEq, Eq, Structural)]
pub enum EvalError {
    /// A number does not parse.
    ParseError,
    /// An operator where a number belongs, or the line ends too soon.
    UnexpectedToken,
    /// The result is not a normal number.
    Inf,
}

/// The longest a number grows by typing.
pub const MAX_NUMBER_LEN: usize = 15;

/// What a token is: its kind (0 to 3 for `+ - * /`, 4 for a number) and,
/// for a number, its text.
pub open spec fn token_view(t: Token) -> (int, Seq<u8>) {
    match t {
        Token::Plus => (0, Seq::empty()),
        Token::Minus => (1, Seq::empty()),
        Token::Mul => (2, Seq::empty()),
        Token::Div => (3, Seq::empty()),
        Token::Number(n) => (4, n@),
    }
}

/// The text of a token.
pub open spec fn token_text(t: (int, Seq<u8>)) -> Seq<u8> {
    if t.0 == 0 {
        seq![0x2Bu8]
    } else if t.0 == 1 {
        seq![0x2Du8]
    } else if t.0 == 2 {
        seq![0x2Au8]
    } else if t.0 == 3 {
        seq![0x2Fu8]
    } else {
        t.1
    }
}

/// The line as shown: each token's text followed by a space.
pub open spec fn line_text(ts: Seq<(int, Seq<u8>)>) -> Seq<u8>
    decreases ts.len(),
{
    if ts.len() == 0 {
        Seq::empty()
    } else {
        line_text(ts.drop_last()) + token_text(ts.last()) + seq![0x20u8]
    }
}

/// The operator token a key adds.
pub open spec fn op_kind(op: Operation) -> int {
    match op {
        Operation::Add => 0,
        Operation::Sub => 1,
        Operation::Mul => 2,
        _ => 3,
    }
}

/// The tokens after the key `op` on the tokens `ts`, where `evaluated` is
/// the outcome of evaluating `ts`: an operator follows only a number; `C`
/// empties the line; the back key takes the last character of a number
/// (the number goes with its last character) or the last operator; the dot
/// and a digit extend a number shorter than the limit, and a digit starts a
/// number after an operator or on an empty line; `=` replaces the line with
/// the result's text.
pub open spec fn execute_spec(ts: Seq<(int, Seq<u8>)>, op: Operation, evaluated: Result<Seq<u8>, EvalError>)
    -> Result<Seq<(int, Seq<u8>)>, EvalError>
{
    let last_is_number = ts.len() > 0 && ts.last().0 == 4;
    match op {
        Operation::Results => match evaluated {
            Ok(text) => Ok(seq![(4int, text)]),
            Err(e) => Err(e),
        },
        Operation::Clear => Ok(Seq::empty()),
        Operation::Remove => if ts.len() == 0 {
            Ok(ts)
        } else if last_is_number && ts.last().1.len() > 1 {
            Ok(ts.drop_last().push((4int, ts.last().1.drop_last())))
        } else {
            Ok(ts.drop_last())
        },
        Operation::Dot => if last_is_number && ts.last().1.len() < MAX_NUMBER_LEN {
            Ok(ts.drop_last().push((4int, ts.last().1.push(0x2Eu8))))
        } else {
            Ok(ts)
        },
        Operation::Number(d) => if last_is_number {
            if ts.last().1.len() < MAX_NUMBER_LEN {
                Ok(ts.drop_last().push((4int, ts.last().1.push((d + 0x30) as u8))))
            } else {
                Ok(ts)
            }
        } else {
            Ok(ts.push((4int, decimal(d as nat))))
        },
        _ => if last_is_number {
            Ok(ts.push((op_kind(op), Seq::empty())))
        } else {
            Ok(ts)
        },
    }
}

/// The calculator's line of tokens.
#[derive(Debug)]
pub struct LexerData {
    pub tokens: Vec<Token>,
}

impl LexerData {
    /// The tokens, as kinds and texts.
    pub open spec fn view(&self) -> Seq<(int, Seq<u8>)> {
        Seq::new(self.tokens@.len(), |i: int| token_view(self.tokens@[i]))
    }

    /// An empty line.
    pub fn new() -> (r: Self)
        ensures
            r.view().len() == 0,
    {
        LexerData { tokens: Vec::new() }
    }

    /// The line as shown: each token's text followed by a space.
    pub fn view_to(&self) -> (r: Vec<u8>)
        ensures
            r@ == line_text(self.view()),
    {
        let mut out: Vec<u8> = Vec::new();
        let mut k: usize = 0;
        while k < self.tokens.len()
            invariant
                0 <= k <= self.tokens@.len(),
                out@ == line_text(self.view().subrange(0, k as int)),
            decreases self.tokens@.len() - k,
        {
            let ghost before = out@;
            match &self.tokens[k] {
                Token::Plus => out.push(0x2B),
                Token::Minus => out.push(0x2D),
                Token::Mul => out.push(0x2A),
                Token::Div => out.push(0x2F),
                Token::Number(n) => crate::process_mem::append_bytes(&mut out, n),
            }
            out.push(0x20);
            proof {
                let s = self.view().subrange(0, k as int + 1);
                assert(s.drop_last() =~= self.view().subrange(0, k as int));
                assert(s.last() == token_view(self.tokens@[k as int]));
                assert(out@ =~= before + token_text(s.last()) + seq![0x20u8]);
            }
            k = k + 1;
        }
        assert(self.view().subrange(0, self.tokens@.len() as int) =~= self.view());
        out
    }

    fn last_number_len(&self) -> (r: Option<usize>)
        ensures
            r is Some <==> (self.view().len() > 0 && self.view().last().0 == 4),
            r matches Some(l) ==> l == self.view().last().1.len(),
    {
        let n = self.tokens.len();
        if n == 0 {
            return None;
        }
        match &self.tokens[n - 1] {
            Token::Number(s) => Some(s.len()),
            _ => None,
        }
    }

    fn pop_number(&mut self) -> (r: Vec<u8>)
        requires
            old(self).view().len() > 0,
            old(self).view().last().0 == 4,
        ensures
            r@ == old(self).view().last().1,
            final(self).view() == old(self).view().drop_last(),
    {
        let ghost ts = self.view();
        let t = self.tokens.pop().unwrap();
        assert(self.view() =~= ts.drop_last());
        assert(token_view(t) == ts.last());
        match t {
            Token::Number(n) => n,
            _ => Vec::new(),
        }
    }

    fn add_op(&mut self, t: Token)
        requires
            !(t is Number),
        ensures
            final(self).view() == (if old(self).view().len() > 0 && old(self).view().last().0 == 4 {
                old(self).view().push(token_view(t))
            } else {
                old(self).view()
            }),
    {
        if self.last_number_len().is_some() {
            self.tokens.push(t);
            assert(self.view() =~= old(self).view().push(token_view(t)));
        }
    }

    /// Edits the line for the key `op`; `evaluated` is the outcome of
    /// evaluating the line as it stands, used by the `=` key. See [`execute_spec`].
    pub fn execute(&mut self, op: &Operation, evaluated: Result<Vec<u8>, EvalError>) -> (r: Result<(), EvalError>)
        requires
            op matches Operation::Number(d) ==> ((old(self).view().len() > 0 && old(self).view().last().0 == 4
                && old(self).view().last().1.len() < MAX_NUMBER_LEN) ==> d + 0x30 <= 0xFF),
        ensures
            ({
                let ev = match evaluated {
                    Ok(t) => Ok(t@),
                    Err(e) => Err(e),
                };
                match execute_spec(old(self).view(), *op, ev) {
                    Ok(ts) => r is Ok && final(self).view() == ts,
                    Err(e) => r == Err::<(), EvalError>(e) && final(self).view() == old(self).view(),
                }
            }),
    {
        let ghost ts = self.view();
        match op {
            Operation::Results => {
                match evaluated {
                    Ok(text) => {
                        self.tokens = Vec::new();
                        self.tokens.push(Token::Number(text));
                        assert(self.view() =~= seq![(4int, self.tokens@[0].view_number())]);
                    },
                    Err(e) => return Err(e),
                }
            },
            Operation::Add => self.add_op(Token::Plus),
            Operation::Div => self.add_op(Token::Div),
            Operation::Mul => self.add_op(Token::Mul),
            Operation::Sub => self.add_op(Token::Minus),
            Operation::Clear => {
                self.tokens = Vec::new();
                assert(self.view() =~= Seq::<(int, Seq<u8>)>::empty());
            },
            Operation::Remove => {
                match self.tokens.pop() {
                    Some(Token::Number(n)) => {
                        let mut n = n;
                        if n.len() > 1 {
                            n.pop();
                            self.tokens.push(Token::Number(n));
                            assert(self.view() =~= ts.drop_last().push((4int, ts.last().1.drop_last())));
                        } else {
                            assert(self.view() =~= ts.drop_last());
                        }
                    },
                    Some(_) => {
                        assert(self.view() =~= ts.drop_last());
                    },
                    None => {},
                }
            },
            Operation::Dot => {
                match self.last_number_len() {
                    Some(len) => if len < MAX_NUMBER_LEN {
                        let n = self.pop_number();
                        let mut n = n;
                        n.push(0x2E);
                        self.tokens.push(Token::Number(n));
                        assert(self.view() =~= ts.drop_last().push((4int, ts.last().1.push(0x2Eu8))));
                    },
                    None => {},
                }
            },
            Operation::Number(digit) => {
                match self.last_number_len() {
                    Some(len) => if len < MAX_NUMBER_LEN {
                        let n = self.pop_number();
                        let mut n = n;
                        n.push(*digit + 0x30);
                        self.tokens.push(Token::Number(n));
                        assert(self.view() =~= ts.drop_last().push((4int, ts.last().1.push((*digit + 0x30) as u8))));
                    },
                    None => {
                        let mut text: Vec<u8> = Vec::new();
                        push_decimal(&mut text, *digit as u64);
                        assert(text@ =~= decimal(*digit as nat));
                        self.tokens.push(Token::Number(text));
                        assert(self.view() =~= ts.push((4int, decimal(*digit as nat))));
                    },
                }
            },
        }
        Ok(())
    }
}

impl Token {
    /// The token's text: its operator sign, or the number as typed.
    pub fn as_str(&self) -> (r: Vec<u8>)
        ensures
            r@ == token_text(token_view(*self)),
    {
        match self {
            Token::Mul => vec![0x2Au8],
            Token::Plus => vec![0x2Bu8],
            Token::Minus => vec![0x2Du8],
            Token::Div => vec![0x2Fu8],
            Token::Number(n) => {
                let mut out: Vec<u8> = Vec::new();
                crate::process_mem::append_bytes(&mut out, n);
                assert(out@ =~= n@);
                out
            },
        }
    }

    /// The text of a number token.
    pub open spec fn view_number(self) -> Seq<u8> {
        match self {
            Token::Number(n) => n@,
            _ => Seq::empty(),
        }
    }
}

/// The back key takes back a digit key: a digit that went into the line
/// (extending a number there, shorter than the limit, or starting a new one)
/// leaves it again.
pub proof fn law_back_key_undoes_digit(ts: Seq<(int, Seq<u8>)>, d: u8, evaluated: Result<Seq<u8>, EvalError>)
    requires
        d < 10,
        ts.len() > 0 && ts.last().0 == 4 ==> 1 <= ts.last().1.len() < MAX_NUMBER_LEN,
    ensures
        execute_spec(ts, Operation::Number(d), evaluated) matches Ok(t1) && execute_spec(t1, Operation::Remove, evaluated)
            == Ok::<Seq<(int, Seq<u8>)>, EvalError>(ts),
{
    if ts.len() > 0 && ts.last().0 == 4 {
        let t1 = ts.drop_last().push((4int, ts.last().1.push((d + 0x30) as u8)));
        assert(t1.last().1.drop_last() =~= ts.last().1);
        assert(t1.drop_last().push((4int, t1.last().1.drop_last())) =~= ts);
    } else {
        assert(decimal(d as nat).len() == 1);
        assert(ts.push((4int, decimal(d as nat))).drop_last() =~= ts);
    }
}

/// The back key takes back an operator key that followed a number.
pub proof fn law_back_key_undoes_operator(ts: Seq<(int, Seq<u8>)>, op: Operation, evaluated: Result<Seq<u8>, EvalError>)
    requires
        ts.len() > 0,
        ts.last().0 == 4,
        op is Add || op is Sub || op is Mul || op is Div,
    ensures
        execute_spec(ts, op, evaluated) matches Ok(t1) && execute_spec(t1, Operation::Remove, evaluated) == Ok::<
            Seq<(int, Seq<u8>)>,
            EvalError,
        >(ts),
{
    assert(ts.push((op_kind(op), Seq::<u8>::empty())).drop_last() =~= ts);
}

/// A well-formed line: every operator follows a number, so the line starts
/// with a number and no two operators are neighbours.
pub open spec fn line_ok(ts: Seq<(int, Seq<u8>)>) -> bool {
    forall|i: int| 0 <= i < ts.len() && (#[trigger] ts[i]).0 != 4 ==> i > 0 && ts[i - 1].0 == 4
}

/// Every key keeps a well-formed line well formed; only `=` can fail, when
/// the evaluation fails, and then the line stays; a successful `=` leaves a
/// single number.
pub proof fn law_keys_keep_line_well_formed(
    ts: Seq<(int, Seq<u8>)>,
    op: Operation,
    evaluated: Result<Seq<u8>, EvalError>,
)
    requires
        line_ok(ts),
    ensures
        execute_spec(ts, op, evaluated) matches Ok(t) ==> line_ok(t),
        execute_spec(ts, op, evaluated) is Err <==> (op is Results && evaluated is Err),
        op is Results && evaluated is Ok ==> (execute_spec(ts, op, evaluated) matches Ok(t) && t.len() == 1
            && t[0].0 == 4),
{
    let last_is_number = ts.len() > 0 && ts.last().0 == 4;
    match execute_spec(ts, op, evaluated) {
        Ok(t) => {
            assert forall|i: int| 0 <= i < t.len() && (#[trigger] t[i]).0 != 4 implies i > 0 && t[i - 1].0 == 4 by {
                if i < ts.len() - 1 {
                    assert(t[i] == ts[i]);
                    assert(t[i - 1] == ts[i - 1]) by {
                        if i > 0 {
                            assert(t[i - 1] == ts[i - 1]);
                        }
                    }
                } else if i < ts.len() {
                    if t[i] == ts[i] && (i == 0 || t[i - 1] == ts[i - 1]) {
                    } else {
                        assert(t[i].0 == 4);
                    }
                } else {
                    assert(last_is_number);
                    assert(t[i - 1] == ts[i - 1]);
                }
            }
        },
        Err(_) => {},
    }
}


/// After a number, each operator key appends its own sign to the shown
/// line: `+` for Add, `-` for Sub, `*` for Mul and `/` for Div, followed by
/// a space; the tokens before stay as they were.
pub proof fn law_operator_key_shows_its_sign(
    ts: Seq<(int, Seq<u8>)>,
    op: Operation,
    evaluated: Result<Seq<u8>, EvalError>,
)
    requires
        ts.len() > 0,
        ts.last().0 == 4,
        op is Add || op is Sub || op is Mul || op is Div,
    ensures
        ({
            let sign: u8 = match op {
                Operation::Add => 0x2Bu8,
                Operation::Sub => 0x2Du8,
                Operation::Mul => 0x2Au8,
                _ => 0x2Fu8,
            };
            execute_spec(ts, op, evaluated) matches Ok(t) && t.drop_last() == ts && token_text(t.last()) == seq![sign]
                && line_text(t) == line_text(ts) + seq![sign, 0x20u8]
        }),
{
    let t = ts.push((op_kind(op), Seq::<u8>::empty()));
    assert(t.drop_last() =~= ts);
    let sign: u8 = match op {
        Operation::Add => 0x2Bu8,
        Operation::Sub => 0x2Du8,
        Operation::Mul => 0x2Au8,
        _ => 0x2Fu8,
    };
    assert(token_text(t.last()) =~= seq![sign]);
    assert(line_text(t) =~= line_text(ts) + seq![sign, 0x20u8]);
}
} // verus!
