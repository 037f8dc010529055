use vstd::prelude::*;

use crate::error::ParseError;
use crate::eval::{is_digit, kind_of, AtomKind};
use crate::lexer::{is_atom_char, lex, Token};
use crate::parser::{atom_run, climb, parse_lhs, parse_text, view_result, Expression, Term};

verus! {

/// `ts` holds one atom token for each character of `s`.
pub open spec fn atoms_of(ts: Seq<Token>, s: Seq<char>) -> bool {
    ts.len() == s.len() && forall|i: int| 0 <= i < s.len() ==> #[trigger] ts[i] == Token::Atom(s[i])
}

proof fn lemma_lex_atoms(s: Seq<char>)
    requires
        forall|i: int| 0 <= i < s.len() ==> is_atom_char(#[trigger] s[i]),
    ensures
        lex(s) matches Ok(ts) && atoms_of(ts, s),
    decreases s.len(),
{
    if s.len() > 0 {
        let p = s.drop_last();
        lemma_lex_atoms(p);
        assert(is_atom_char(s[s.len() - 1]));
        let ts = lex(p)->Ok_0;
        assert(lex(s) == Ok::<Seq<Token>, char>(ts.push(Token::Atom(s.last()))));
        assert forall|i: int| 0 <= i < s.len() implies #[trigger] ts.push(Token::Atom(s.last()))[i]
            == Token::Atom(s[i]) by {
            if i < p.len() {
                assert(ts[i] == Token::Atom(p[i]));
            }
        }
    }
}

proof fn lemma_atom_run_all(ts: Seq<Token>, s: Seq<char>)
    requires
        atoms_of(ts, s),
    ensures
        atom_run(ts) == (s, Seq::<Token>::empty()),
    decreases s.len(),
{
    if s.len() > 0 {
        assert(ts[0] == Token::Atom(s[0]));
        assert forall|i: int| 0 <= i < s.len() - 1 implies #[trigger] ts.drop_first()[i]
            == Token::Atom(s.drop_first()[i]) by {
            assert(ts[i + 1] == Token::Atom(s[i + 1]));
        }
        lemma_atom_run_all(ts.drop_first(), s.drop_first());
        assert(seq![s[0]] + s.drop_first() =~= s);
    } else {
        assert(ts =~= Seq::<Token>::empty());
    }
}

/// A text made only of digits parses to the single atom holding that text,
/// which the evaluator reads as a numeric literal.
pub proof fn lemma_digits_parse_to_literal(n: Seq<char>)
    requires
        n.len() > 0,
        forall|i: int| 0 <= i < n.len() ==> is_digit(#[trigger] n[i]),
    ensures
        parse_text(n) == Ok::<Term, ParseError>(Term::Atom(n)),
        kind_of(n) == AtomKind::Number,
{
    assert forall|i: int| 0 <= i < n.len() implies is_atom_char(#[trigger] n[i]) by {
        assert(is_digit(n[i]));
    }
    lemma_lex_atoms(n);
    let ts = lex(n)->Ok_0;
    assert(ts[0] == Token::Atom(n[0]));
    assert forall|i: int| 0 <= i < n.len() - 1 implies #[trigger] ts.drop_first()[i]
        == Token::Atom(n.drop_first()[i]) by {
        assert(ts[i + 1] == Token::Atom(n[i + 1]));
    }
    lemma_atom_run_all(ts.drop_first(), n.drop_first());
    assert(seq![n[0]] + n.drop_first() =~= n);
    assert(parse_lhs(ts) == Ok::<(Term, Seq<Token>), ParseError>(
        (Term::Atom(n), Seq::<Token>::empty()),
    ));
    assert(climb(Seq::<Token>::empty(), Term::Atom(n), 0) == Ok::<(Term, Seq<Token>), ParseError>(
        (Term::Atom(n), Seq::<Token>::empty()),
    ));
    assert(is_digit(n[0]));
}

/// Parsing depends on the text alone: two results of `Expression::from_str`
/// on the same text are the same tree, or the same error.
pub proof fn lemma_parse_deterministic(
    s: Seq<char>,
    first: Result<Expression, ParseError>,
    second: Result<Expression, ParseError>,
)
    requires
        view_result(first) == parse_text(s),
        view_result(second) == parse_text(s),
    ensures
        view_result(first) == view_result(second),
{
}

proof fn lemma_lex_sign(sign: char, a: Seq<char>)
    requires
        sign == '+' || sign == '-',
        forall|i: int| 0 <= i < a.len() ==> is_atom_char(#[trigger] a[i]),
    ensures
        lex(seq![sign] + a) matches Ok(ts) && ts.len() > 0 && ts[0] == Token::Op(sign) && atoms_of(
            ts.drop_first(),
            a,
        ),
    decreases a.len(),
{
    let s = seq![sign] + a;
    if a.len() > 0 {
        let p = a.drop_last();
        assert(s.drop_last() =~= seq![sign] + p);
        lemma_lex_sign(sign, p);
        assert(is_atom_char(a[a.len() - 1]));
        let ts = lex(seq![sign] + p)->Ok_0;
        assert(s.last() == a.last());
        assert(lex(s) == Ok::<Seq<Token>, char>(ts.push(Token::Atom(a.last()))));
        let us = ts.push(Token::Atom(a.last()));
        assert forall|i: int| 0 <= i < a.len() implies #[trigger] us.drop_first()[i] == Token::Atom(
            a[i],
        ) by {
            if i < p.len() {
                assert(ts.drop_first()[i] == Token::Atom(p[i]));
            }
        }
    } else {
        assert(s.drop_last() =~= Seq::<char>::empty());
        assert(lex(Seq::<char>::empty()) == Ok::<Seq<Token>, char>(Seq::empty()));
    }
}

/// A `+` or `-` sign followed by atom characters parses to one atom that
/// holds the sign, not to an operator node.
pub proof fn lemma_sign_is_part_of_atom(sign: char, a: Seq<char>)
    requires
        sign == '+' || sign == '-',
        a.len() > 0,
        forall|i: int| 0 <= i < a.len() ==> is_atom_char(#[trigger] a[i]),
    ensures
        parse_text(seq![sign] + a) == Ok::<Term, ParseError>(Term::Atom(seq![sign] + a)),
{
    let s = seq![sign] + a;
    lemma_lex_sign(sign, a);
    let ts = lex(s)->Ok_0;
    let us = ts.drop_first();
    assert(us[0] == Token::Atom(a[0]));
    assert forall|i: int| 0 <= i < a.len() - 1 implies #[trigger] us.drop_first()[i]
        == Token::Atom(a.drop_first()[i]) by {
        assert(us[i + 1] == Token::Atom(a[i + 1]));
    }
    lemma_atom_run_all(us.drop_first(), a.drop_first());
    assert(seq![sign, a[0]] + a.drop_first() =~= s);
    assert(parse_lhs(ts) == Ok::<(Term, Seq<Token>), ParseError>(
        (Term::Atom(s), Seq::<Token>::empty()),
    ));
    assert(climb(Seq::<Token>::empty(), Term::Atom(s), 0) == Ok::<(Term, Seq<Token>), ParseError>(
        (Term::Atom(s), Seq::<Token>::empty()),
    ));
}

} // verus!
