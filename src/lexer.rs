use vstd::prelude::*;
use vstd::string::*;

use crate::error::ParseError;

verus! {

/// One classified character of the input.
#[derive(Clone, Copy, Debug, PartialEq, Eq, Structural)]
pub enum Token {
    Atom(char),
    Op(char),
    Eof,
}

/// Characters that make up atoms: digits, ASCII letters and the decimal point.
pub open spec fn is_atom_char(c: char) -> bool {
    ('0' <= c && c <= '9') || ('a' <= c && c <= 'z') || ('A' <= c && c <= 'Z') || c == '.'
}

/// The six operator characters.
pub open spec fn is_op_char(c: char) -> bool {
    c == '+' || c == '-' || c == '*' || c == '/' || c == '^' || c == '='
}

/// Whether `c` has the Unicode White_Space property.
pub uninterp spec fn white_space(c: char) -> bool;

/// Relies on `char::is_whitespace`: true exactly for the characters with the
/// Unicode White_Space property, which depends on the character alone.
#[verifier::external_body]
fn is_whitespace(c: char) -> (r: bool)
    ensures
        r == white_space(c),
{
    c.is_whitespace()
}

/// The tokens of `s`, left to right, or the first character that is not
/// allowed. Whitespace gives no token.
pub open spec fn lex(s: Seq<char>) -> Result<Seq<Token>, char>
    decreases s.len(),
{
    if s.len() == 0 {
        Ok(Seq::empty())
    } else {
        match lex(s.drop_last()) {
            Err(c) => Err(c),
            Ok(ts) => {
                let c = s.last();
                if is_atom_char(c) {
                    Ok(ts.push(Token::Atom(c)))
                } else if is_op_char(c) {
                    Ok(ts.push(Token::Op(c)))
                } else if white_space(c) {
                    Ok(ts)
                } else {
                    Err(c)
                }
            },
        }
    }
}

/// An error in a prefix is the error of the whole text.
proof fn lemma_lex_err_prefix(s: Seq<char>, i: int)
    requires
        0 <= i <= s.len(),
        lex(s.subrange(0, i)) is Err,
    ensures
        lex(s) == lex(s.subrange(0, i)),
    decreases s.len() - i,
{
    if i < s.len() {
        assert(s.subrange(0, i + 1).drop_last() =~= s.subrange(0, i));
        lemma_lex_err_prefix(s, i + 1);
    } else {
        assert(s.subrange(0, i) =~= s);
    }
}

/// The binding quantity of an operator: higher binds tighter.
pub open spec fn binding(op: char) -> Option<u8> {
    if op == '=' {
        Some(1u8)
    } else if op == '+' || op == '-' {
        Some(2u8)
    } else if op == '*' || op == '/' {
        Some(3u8)
    } else if op == '^' {
        Some(4u8)
    } else {
        None
    }
}

/// The token at the front of `ts`, or `Eof` when there is none.
pub open spec fn front(ts: Seq<Token>) -> Token {
    if ts.len() > 0 {
        ts[0]
    } else {
        Token::Eof
    }
}

/// A cursor over the tokens of one line of input.
#[derive(Debug)]
pub struct Lexer {
    /// The tokens not yet consumed, the next one last.
    tokens: Vec<Token>,
}

impl View for Lexer {
    type V = Seq<Token>;

    /// The tokens not yet consumed, in input order.
    closed spec fn view(&self) -> Seq<Token> {
        self.tokens@.reverse()
    }
}

impl Lexer {
    /// Splits `input` into tokens; fails on the first character that is not
    /// whitespace, an atom character or an operator.
    pub fn new(input: &str) -> (r: Result<Self, ParseError>)
        ensures
            match lex(input@) {
                Ok(ts) => r matches Ok(l) && l@ == ts,
                Err(c) => r == Err::<Self, ParseError>(ParseError::InvalidCharacter(c)),
            },
    {
        let n = input.unicode_len();
        let mut ts: Vec<Token> = Vec::new();
        let mut i: usize = 0;
        while i < n
            invariant
                n == input@.len(),
                i <= n,
                lex(input@.subrange(0, i as int)) == Ok::<Seq<Token>, char>(ts@),
            decreases n - i,
        {
            let c = input.get_char(i);
            assert(input@.subrange(0, i + 1).drop_last() =~= input@.subrange(0, i as int));
            if ('0' <= c && c <= '9') || ('a' <= c && c <= 'z') || ('A' <= c && c <= 'Z') || c
                == '.' {
                ts.push(Token::Atom(c));
            } else if c == '+' || c == '-' || c == '*' || c == '/' || c == '^' || c == '=' {
                ts.push(Token::Op(c));
            } else if !is_whitespace(c) {
                proof {
                    lemma_lex_err_prefix(input@, i + 1);
                }
                return Err(ParseError::InvalidCharacter(c));
            }
            i = i + 1;
        }
        assert(input@.subrange(0, n as int) =~= input@);
        let mut tokens: Vec<Token> = Vec::new();
        let mut j: usize = ts.len();
        while j > 0
            invariant
                j <= ts@.len(),
                tokens@ =~= ts@.subrange(j as int, ts@.len() as int).reverse(),
            decreases j,
        {
            j = j - 1;
            tokens.push(ts[j]);
        }
        Ok(Lexer { tokens })
    }

    /// Consumes the next token; `Eof` once all are consumed.
    pub fn next(&mut self) -> (t: Token)
        ensures
            t == front(old(self)@),
            final(self)@ == if old(self)@.len() > 0 {
                old(self)@.drop_first()
            } else {
                old(self)@
            },
    {
        match self.tokens.pop() {
            Some(t) => {
                assert(final(self)@ =~= old(self)@.drop_first());
                t
            },
            None => Token::Eof,
        }
    }

    /// The next token, without consuming it.
    pub fn peek(&self) -> (t: Token)
        ensures
            t == front(self@),
    {
        let n = self.tokens.len();
        if n > 0 {
            self.tokens[n - 1]
        } else {
            Token::Eof
        }
    }
}

/// The binding quantity of an operator character.
pub fn get_bq(op: char) -> (r: Result<u8, ParseError>)
    ensures
        match binding(op) {
            Some(b) => r == Ok::<u8, ParseError>(b),
            None => r == Err::<u8, ParseError>(ParseError::UnknownOperator(op)),
        },
{
    match op {
        '=' => Ok(1),
        '+' | '-' => Ok(2),
        '*' | '/' => Ok(3),
        '^' => Ok(4),
        _ => Err(ParseError::UnknownOperator(op)),
    }
}

} // verus!
