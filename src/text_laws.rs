use vstd::prelude::*;
use crate::lexer::{
    is_letter, is_num_char, is_num_start, is_space, is_word_char, lex_from, run_end, Lexeme,
};
use crate::text::{is_atom, render, tok_text};
use crate::token::Tok;

verus! {

/// The lexeme that a written token stands for.
pub open spec fn lexeme_of(t: Tok<String>) -> Lexeme {
    match t {
        Tok::Number(s) => Tok::Number(s@),
        Tok::Word(w) => Tok::Word(w),
        Tok::ParenOpen => Tok::ParenOpen,
        Tok::ParenClose => Tok::ParenClose,
        Tok::Comma => Tok::Comma,
    }
}

/// A token whose text the lexer reads back as one lexeme: a number's text is
/// a run of number characters that starts like a number, a word is a run of
/// word characters that starts with a letter.
pub open spec fn plain(t: Tok<String>) -> bool {
    match t {
        Tok::Number(s) => s@.len() > 0 && is_num_start(s@[0]) && forall|i: int|
            0 <= i < s@.len() ==> is_num_char(#[trigger] s@[i]),
        Tok::Word(w) => w.len() > 0 && is_letter(w[0]) && forall|i: int|
            0 <= i < w.len() ==> is_word_char(#[trigger] w[i]),
        _ => true,
    }
}

/// The separator written in front of token `k`.
pub open spec fn sep(ss: Seq<Tok<String>>, k: int) -> Seq<char> {
    if k > 0 && is_atom(ss[k - 1]) && is_atom(ss[k]) {
        " "@
    } else {
        seq![]
    }
}

proof fn lemma_render_step(ss: Seq<Tok<String>>, k: int)
    requires
        0 <= k < ss.len(),
    ensures
        render(ss.subrange(0, k + 1)) == render(ss.subrange(0, k)) + sep(ss, k) + tok_text(ss[k]),
{
    let s = ss.subrange(0, k + 1);
    assert(s.drop_last() =~= ss.subrange(0, k));
    if k > 0 {
        assert(s.drop_last().last() == ss[k - 1]);
    }
}

proof fn lemma_render_prefix(ss: Seq<Tok<String>>, j: int)
    requires
        0 <= j <= ss.len(),
    ensures
        render(ss.subrange(0, j)).len() <= render(ss).len(),
        render(ss).subrange(0, render(ss.subrange(0, j)).len() as int) == render(
            ss.subrange(0, j),
        ),
    decreases ss.len(),
{
    if j == ss.len() {
        assert(ss.subrange(0, j) =~= ss);
        assert(render(ss).subrange(0, render(ss).len() as int) =~= render(ss));
    } else {
        let d = ss.drop_last();
        assert(d.subrange(0, j) =~= ss.subrange(0, j));
        lemma_render_prefix(d, j);
        let p = render(ss.subrange(0, j));
        assert(render(ss).subrange(0, p.len() as int) =~= render(d).subrange(0, p.len() as int));
    }
}

proof fn lemma_run(s: Seq<char>, p: int, e: int, word: bool)
    requires
        0 <= p <= e <= s.len(),
        forall|i: int| p <= i < e ==> (if word { is_word_char(s[i]) } else { is_num_char(s[i]) }),
        e == s.len() || !(if word { is_word_char(s[e]) } else { is_num_char(s[e]) }),
    ensures
        run_end(s, p, word) == e,
    decreases e - p,
{
    if p < e {
        lemma_run(s, p + 1, e, word);
    }
}

proof fn lemma_punct_text()
    ensures
        "("@ == seq!['('],
        ")"@ == seq![')'],
        ","@ == seq![','],
        " "@ == seq![' '],
{
    reveal_strlit("(");
    reveal_strlit(")");
    reveal_strlit(",");
    reveal_strlit(" ");
    assert("("@ =~= seq!['(']);
    assert(")"@ =~= seq![')']);
    assert(","@ =~= seq![',']);
    assert(" "@ =~= seq![' ']);
}

/// Lexing from the start of token `k`'s slot in the written text gives the
/// lexemes of tokens `k` on.
proof fn lemma_lex_from_slot(ss: Seq<Tok<String>>, k: int)
    requires
        0 <= k <= ss.len(),
        forall|i: int| 0 <= i < ss.len() ==> plain(#[trigger] ss[i]),
    ensures
        lex_from(render(ss), render(ss.subrange(0, k)).len() as int) == Ok::<
            Seq<Lexeme>,
            crate::grammar::ParseError,
        >(ss.subrange(k, ss.len() as int).map_values(|t: Tok<String>| lexeme_of(t))),
    decreases ss.len() - k,
{
    let s = render(ss);
    let n = ss.len() as int;
    lemma_punct_text();
    if k == n {
        assert(ss.subrange(0, k) =~= ss);
        assert(ss.subrange(k, n).map_values(|t: Tok<String>| lexeme_of(t)) =~= Seq::<Lexeme>::empty());
    } else {
        lemma_lex_from_slot(ss, k + 1);
        lemma_render_step(ss, k);
        lemma_render_prefix(ss, k + 1);
        let a = render(ss.subrange(0, k)).len() as int;
        let t = tok_text(ss[k]);
        let sp = sep(ss, k);
        let q = a + sp.len();
        let b = render(ss.subrange(0, k + 1)).len() as int;
        assert(b == q + t.len());
        let full = render(ss.subrange(0, k + 1));
        assert(s.subrange(0, b) == full);
        assert forall|i: int| 0 <= i < t.len() implies s[q + i] == t[i] by {
            assert(s.subrange(0, b)[q + i] == s[q + i]);
            assert(full[q + i] == t[i]);
        }
        if sp.len() > 0 {
            assert(s.subrange(0, b)[a] == s[a]);
            assert(s[a] == ' ');
        }
        // What follows the token: end of text, a space, or punctuation.
        if k + 1 < n {
            lemma_render_step(ss, k + 1);
            lemma_render_prefix(ss, k + 2);
            let next = render(ss.subrange(0, k + 2));
            let t2 = tok_text(ss[k + 1]);
            let sp2 = sep(ss, k + 1);
            assert(t2.len() > 0);
            assert(s.subrange(0, next.len() as int) == next);
            assert(s.subrange(0, next.len() as int)[b] == s[b]);
            if sp2.len() > 0 {
                assert(next[b] == ' ');
            } else {
                assert(next[b] == t2[0]);
            }
        } else {
            assert(ss.subrange(0, n) =~= ss);
        }
        let rest = ss.subrange(k + 1, n).map_values(|t: Tok<String>| lexeme_of(t));
        assert(ss.subrange(k, n).map_values(|t: Tok<String>| lexeme_of(t)) =~= seq![
            lexeme_of(ss[k]),
        ] + rest);
        assert(plain(ss[k]));
        match ss[k] {
            Tok::Word(w) => {
                assert forall|i: int| q + 1 <= i < b implies is_word_char(s[i]) by {
                    assert(s[q + (i - q)] == t[i - q]);
                }
                lemma_run(s, q + 1, b, true);
                assert(s.subrange(q, b) =~= w);
            },
            Tok::Number(x) => {
                assert forall|i: int| q + 1 <= i < b implies is_num_char(s[i]) by {
                    assert(s[q + (i - q)] == t[i - q]);
                }
                lemma_run(s, q + 1, b, false);
                assert(s.subrange(q, b) =~= x@);
            },
            _ => {},
        }
        assert(t.len() > 0);
        assert(s[q] == t[0]);
        if sp.len() > 0 {
            assert(lex_from(s, a) == lex_from(s, q));
        }
        assert(q < s.len());
        match ss[k] {
            Tok::Word(w) => {
                assert(is_letter(s[q]));
                assert(lex_from(s, q) == crate::lexer::lex_cons(
                    Tok::Word(s.subrange(q, b)),
                    lex_from(s, b),
                ));
            },
            Tok::Number(x) => {
                assert(is_num_start(s[q]) && !is_letter(s[q]) && !is_space(s[q]));
                assert(lex_from(s, q) == crate::lexer::lex_cons(
                    Tok::Number(s.subrange(q, b)),
                    lex_from(s, b),
                ));
            },
            _ => {
                assert(b == q + 1);
            },
        }
    }
}

/// The lexer reads the written text of plain tokens back as exactly those
/// tokens.
pub proof fn lemma_lex_render(ss: Seq<Tok<String>>)
    requires
        forall|i: int| 0 <= i < ss.len() ==> plain(#[trigger] ss[i]),
    ensures
        lex_from(render(ss), 0) == Ok::<Seq<Lexeme>, crate::grammar::ParseError>(
            ss.map_values(|t: Tok<String>| lexeme_of(t)),
        ),
{
    lemma_lex_from_slot(ss, 0);
    assert(ss.subrange(0, 0) =~= Seq::<Tok<String>>::empty());
    assert(ss.subrange(0, ss.len() as int) =~= ss);
}

} // verus!
