use vstd::prelude::*;
use vstd::string::*;

use crate::error::ParseError;
use crate::lexer::{binding, front, get_bq, lex, Lexer, Token};

verus! {

/// An expression tree: an atom, or an operator applied to two owned subtrees.
#[derive(Debug)]
pub enum Expression {
    Atom(String),
    Op(char, Box<(Expression, Expression)>),
}

/// The mathematical shape of an expression tree.
pub enum Term {
    Atom(Seq<char>),
    Op(char, Box<Term>, Box<Term>),
}

impl Expression {
    pub open spec fn view(&self) -> Term
        decreases self,
    {
        match self {
            Expression::Atom(s) => Term::Atom(s@),
            Expression::Op(op, operands) => Term::Op(
                *op,
                Box::new(operands.0.view()),
                Box::new(operands.1.view()),
            ),
        }
    }
}

/// Relies on `String::push`: appends one character.
#[verifier::external_body]
fn push_char(s: &mut String, c: char)
    ensures
        final(s)@ == old(s)@.push(c),
{
    s.push(c)
}

/// The longest run of atom tokens at the front of `ts`: its characters, and
/// the tokens after it.
pub open spec fn atom_run(ts: Seq<Token>) -> (Seq<char>, Seq<Token>)
    decreases ts.len(),
{
    if ts.len() > 0 {
        match ts[0] {
            Token::Atom(c) => {
                let (cs, rest) = atom_run(ts.drop_first());
                (seq![c] + cs, rest)
            },
            _ => (Seq::empty(), ts),
        }
    } else {
        (Seq::empty(), ts)
    }
}

/// The left-hand side that starts an expression: an atom, or a `+` or `-`
/// sign followed by an atom; with the tokens after it.
pub open spec fn parse_lhs(ts: Seq<Token>) -> Result<(Term, Seq<Token>), ParseError> {
    match front(ts) {
        Token::Atom(c) => {
            let (cs, rest) = atom_run(ts.drop_first());
            Ok((Term::Atom(seq![c] + cs), rest))
        },
        Token::Op(op) => {
            if op == '+' || op == '-' {
                match front(ts.drop_first()) {
                    Token::Atom(c) => {
                        let (cs, rest) = atom_run(ts.drop_first().drop_first());
                        Ok((Term::Atom(seq![op, c] + cs), rest))
                    },
                    t => Err(ParseError::UnexpectedToken(t)),
                }
            } else {
                Err(ParseError::UnexpectedToken(Token::Op(op)))
            }
        },
        Token::Eof => Err(ParseError::UnexpectedToken(Token::Eof)),
    }
}

/// Precedence climbing: an expression whose operators all bind tighter than
/// `min_bq`, with the tokens after it.
pub open spec fn parse_expr(ts: Seq<Token>, min_bq: u8) -> Result<(Term, Seq<Token>), ParseError>
    decreases ts.len(), 1int,
{
    match parse_lhs(ts) {
        Err(e) => Err(e),
        Ok((lhs, rest)) => if rest.len() < ts.len() {
            climb(rest, lhs, min_bq)
        } else {
            Err(ParseError::UnexpectedToken(Token::Eof))
        },
    }
}

/// The operator loop of precedence climbing, from left-hand side `lhs`.
pub open spec fn climb(ts: Seq<Token>, lhs: Term, min_bq: u8) -> Result<(Term, Seq<Token>), ParseError>
    decreases ts.len(), 0int,
{
    match front(ts) {
        Token::Eof => Ok((lhs, ts)),
        Token::Atom(c) => Err(ParseError::UnexpectedToken(Token::Atom(c))),
        Token::Op(op) => match binding(op) {
            None => Err(ParseError::UnknownOperator(op)),
            Some(bq) => if bq <= min_bq {
                Ok((lhs, ts))
            } else {
                match parse_expr(ts.drop_first(), bq) {
                    Err(e) => Err(e),
                    Ok((rhs, rest)) => if rest.len() < ts.len() {
                        climb(rest, Term::Op(op, Box::new(lhs), Box::new(rhs)), min_bq)
                    } else {
                        Err(ParseError::UnexpectedToken(Token::Eof))
                    },
                }
            },
        },
    }
}

/// The expression tree of a line of text.
pub open spec fn parse_text(s: Seq<char>) -> Result<Term, ParseError> {
    match lex(s) {
        Err(c) => Err(ParseError::InvalidCharacter(c)),
        Ok(ts) => match parse_expr(ts, 0) {
            Err(e) => Err(e),
            Ok((t, _)) => Ok(t),
        },
    }
}

/// The text form of a tree: an atom is its text, an operator node is
/// `(op(left right))`.
pub open spec fn render(t: Term) -> Seq<char>
    decreases t,
{
    match t {
        Term::Atom(s) => s,
        Term::Op(op, l, r) => seq!['(', op, '('] + render(*l) + seq![' '] + render(*r) + seq![')', ')'],
    }
}

pub open spec fn view_result(r: Result<Expression, ParseError>) -> Result<Term, ParseError> {
    match r {
        Ok(e) => Ok(e@),
        Err(err) => Err(err),
    }
}

proof fn lemma_atom_run_len(ts: Seq<Token>)
    ensures
        atom_run(ts).1.len() <= ts.len(),
    decreases ts.len(),
{
    if ts.len() > 0 {
        lemma_atom_run_len(ts.drop_first());
    }
}

/// Parsing consumes at least one token; the operator loop none or more.
proof fn lemma_parse_consumes(ts: Seq<Token>, min_bq: u8)
    ensures
        parse_expr(ts, min_bq) matches Ok((_, rest)) ==> rest.len() < ts.len(),
    decreases ts.len(), 1int,
{
    if let Ok((lhs, rest)) = parse_lhs(ts) {
        if rest.len() < ts.len() {
            lemma_climb_consumes(rest, lhs, min_bq);
        }
    }
}

proof fn lemma_climb_consumes(ts: Seq<Token>, lhs: Term, min_bq: u8)
    ensures
        climb(ts, lhs, min_bq) matches Ok((_, rest)) ==> rest.len() <= ts.len(),
    decreases ts.len(), 0int,
{
    if let Token::Op(op) = front(ts) {
        if let Some(bq) = binding(op) {
            if bq > min_bq {
                if let Ok((rhs, rest)) = parse_expr(ts.drop_first(), bq) {
                    if rest.len() < ts.len() {
                        lemma_climb_consumes(rest, Term::Op(op, Box::new(lhs), Box::new(rhs)), min_bq);
                    }
                }
            }
        }
    }
}

impl Expression {
    /// Parses one line of text into an expression tree.
    pub fn from_str(input: &str) -> (r: Result<Self, ParseError>)
        ensures
            view_result(r) == parse_text(input@),
    {
        match Lexer::new(input) {
            Ok(mut lexer) => parse_to_expression(&mut lexer, 0),
            Err(e) => Err(e),
        }
    }

    /// The text form of the tree, operators first and fully bracketed.
    pub fn to_string(&self) -> (r: String)
        ensures
            r@ == render(self@),
        decreases self,
    {
        match self {
            Expression::Atom(it) => it.clone(),
            Expression::Op(op, operands) => {
                let left = operands.0.to_string();
                let right = operands.1.to_string();
                let mut out = String::new();
                push_char(&mut out, '(');
                push_char(&mut out, *op);
                push_char(&mut out, '(');
                out.append(left.as_str());
                push_char(&mut out, ' ');
                out.append(right.as_str());
                push_char(&mut out, ')');
                push_char(&mut out, ')');
                assert(out@ =~= render(self@));
                out
            },
        }
    }

    /// Whether the root of the tree is the `=` operator.
    pub fn is_assignment(&self) -> (r: bool)
        ensures
            r == (self@ matches Term::Op(op, _, _) && op == '='),
    {
        match self {
            Expression::Op(op, _) => *op == '=',
            Expression::Atom(_) => false,
        }
    }
}

fn parse_to_expression(lexer: &mut Lexer, min_bq: u8) -> (r: Result<Expression, ParseError>)
    ensures
        match parse_expr(old(lexer)@, min_bq) {
            Ok((t, rest)) => r matches Ok(e) && e@ == t && final(lexer)@ == rest,
            Err(err) => r matches Err(e) && e == err,
        },
    decreases old(lexer)@.len(),
{
    let ghost ts = lexer@;
    let mut lhs = match lexer.next() {
        Token::Atom(c) => {
            let mut it = String::new();
            push_char(&mut it, c);
            handle_atom_lhs(lexer, &mut it);
            assert(it@ =~= seq![c] + atom_run(ts.drop_first()).0);
            proof {
                lemma_atom_run_len(ts.drop_first());
            }
            assert(parse_lhs(ts) == Ok::<(Term, Seq<Token>), ParseError>((Term::Atom(it@), lexer@)));
            Expression::Atom(it)
        },
        Token::Op(op) => {
            if op != '+' && op != '-' {
                return Err(ParseError::UnexpectedToken(Token::Op(op)));
            }
            let mut it = String::new();
            push_char(&mut it, op);
            match handle_op_lhs(lexer, &mut it) {
                Ok(()) => {},
                Err(e) => return Err(e),
            }
            let ghost c = front(ts.drop_first())->Atom_0;
            assert(it@ =~= seq![op, c] + atom_run(ts.drop_first().drop_first()).0);
            proof {
                lemma_atom_run_len(ts.drop_first().drop_first());
            }
            assert(parse_lhs(ts) == Ok::<(Term, Seq<Token>), ParseError>((Term::Atom(it@), lexer@)));
            Expression::Atom(it)
        },
        Token::Eof => return Err(ParseError::UnexpectedToken(Token::Eof)),
    };
    loop
        invariant
            ts == old(lexer)@,
            lexer@.len() < ts.len(),
            climb(lexer@, lhs@, min_bq) == parse_expr(ts, min_bq),
        ensures
            parse_expr(ts, min_bq) == Ok::<(Term, Seq<Token>), ParseError>((lhs@, lexer@)),
        decreases lexer@.len(),
    {
        let ghost cur = lexer@;
        let op = match lexer.peek() {
            Token::Eof => break,
            Token::Op(op) => op,
            t => return Err(ParseError::UnexpectedToken(t)),
        };
        let bq = match get_bq(op) {
            Ok(bq) => bq,
            Err(e) => return Err(e),
        };
        if bq <= min_bq {
            break;
        }
        lexer.next();
        let rhs = match parse_to_expression(lexer, bq) {
            Ok(rhs) => rhs,
            Err(e) => return Err(e),
        };
        proof {
            lemma_parse_consumes(cur.drop_first(), bq);
        }
        let ghost l = lhs@;
        lhs = Expression::Op(op, Box::new((lhs, rhs)));
        assert(lhs@ == Term::Op(op, Box::new(l), Box::new(rhs@)));
    }
    Ok(lhs)
}

/// Appends the run of atom tokens at the front of the lexer to `it`.
fn handle_atom_lhs(lexer: &mut Lexer, it: &mut String)
    ensures
        final(it)@ == old(it)@ + atom_run(old(lexer)@).0,
        final(lexer)@ == atom_run(old(lexer)@).1,
    decreases old(lexer)@.len(),
{
    match lexer.peek() {
        Token::Atom(_) => {
            if let Token::Atom(a) = lexer.next() {
                push_char(it, a);
            }
            handle_atom_lhs(lexer, it);
            assert(final(it)@ =~= old(it)@ + atom_run(old(lexer)@).0);
        },
        _ => {
            assert(old(it)@ + atom_run(old(lexer)@).0 =~= old(it)@);
        },
    }
}

/// After a sign, appends the atom run that must follow it to `it`.
fn handle_op_lhs(lexer: &mut Lexer, it: &mut String) -> (r: Result<(), ParseError>)
    ensures
        match front(old(lexer)@) {
            Token::Atom(c) => r is Ok && final(it)@ == old(it)@ + seq![c] + atom_run(
                old(lexer)@.drop_first(),
            ).0 && final(lexer)@ == atom_run(old(lexer)@.drop_first()).1,
            t => r == Err::<(), ParseError>(ParseError::UnexpectedToken(t)),
        },
{
    match lexer.peek() {
        Token::Atom(_) => {
            if let Token::Atom(a) = lexer.next() {
                push_char(it, a);
            }
            handle_atom_lhs(lexer, it);
            Ok(())
        },
        t => Err(ParseError::UnexpectedToken(t)),
    }
}

} // verus!
