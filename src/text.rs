use vstd::prelude::*;
use vstd::string::*;
use crate::token::{toks_view, Tok, Token};
use crate::types::{Geometry, LineString};
use crate::writer::geom_toks;

verus! {

/// The text of one token whose numbers are already text.
pub open spec fn tok_text(t: Tok<String>) -> Seq<char> {
    match t {
        Tok::Number(s) => s@,
        Tok::Word(w) => w,
        Tok::ParenOpen => "("@,
        Tok::ParenClose => ")"@,
        Tok::Comma => ","@,
    }
}

/// Numbers and words need a space between them; punctuation needs none.
pub open spec fn is_atom<T>(t: Tok<T>) -> bool {
    t is Number || t is Word
}

/// Tokens as single-line text: a space between two adjacent numbers or
/// words, nothing anywhere else.
pub open spec fn render(ts: Seq<Tok<String>>) -> Seq<char>
    decreases ts.len(),
{
    if ts.len() == 0 {
        seq![]
    } else {
        let pre = ts.drop_last();
        render(pre) + (if pre.len() > 0 && is_atom(pre.last()) && is_atom(ts.last()) {
            " "@
        } else {
            seq![]
        }) + tok_text(ts.last())
    }
}

/// Writes tokens whose numbers are already text.
pub fn write_tokens(toks: &Vec<Token<String>>) -> (r: String)
    ensures
        r@ == render(toks_view(toks@)),
{
    let ghost ts = toks_view(toks@);
    let mut out = String::new();
    let n = toks.len();
    let mut i: usize = 0;
    assert(ts.subrange(0, 0) =~= Seq::<Tok<String>>::empty());
    while i < n
        invariant
            n == toks@.len() == ts.len(),
            ts == toks_view(toks@),
            i <= n,
            out@ == render(ts.subrange(0, i as int)),
        decreases n - i,
    {
        let ghost before = out@;
        let sep = i > 0 && match (&toks[i - 1], &toks[i]) {
            (Token::Number(_), Token::Number(_)) | (Token::Number(_), Token::Word(_)) | (
                Token::Word(_),
                Token::Number(_),
            ) | (Token::Word(_), Token::Word(_)) => true,
            _ => false,
        };
        if sep {
            out.append(" ");
        }
        let ghost mid = out@;
        match &toks[i] {
            Token::Number(s) => out.append(s.as_str()),
            Token::Word(w) => out.append(w.as_str()),
            Token::ParenOpen => out.append("("),
            Token::ParenClose => out.append(")"),
            Token::Comma => out.append(","),
        }
        proof {
            let s = ts.subrange(0, i + 1);
            assert(s.drop_last() =~= ts.subrange(0, i as int));
            assert(s.last() == ts[i as int]);
            assert(out@ == mid + tok_text(ts[i as int]));
            if i > 0 {
                assert(s.drop_last().last() == ts[i - 1]);
            }
            assert(out@ =~= render(s));
        }
        i += 1;
    }
    assert(ts.subrange(0, n as int) =~= ts);
    out
}

/// Each number of `ts` became its `Display` text in `ss`; every other
/// token is kept.
pub open spec fn displayed<T: core::fmt::Display>(ts: Seq<Token<T>>, ss: Seq<Token<String>>) -> bool {
    &&& ts.len() == ss.len()
    &&& forall|i: int|
        0 <= i < ts.len() ==> match (#[trigger] ts[i], ss[i]) {
            (Token::Number(x), Token::Number(s)) => vstd::string::to_string_from_display_ensures::<
                T,
            >(&x, s),
            (Token::Word(a), Token::Word(b)) => a@ == b@,
            (Token::ParenOpen, Token::ParenOpen) => true,
            (Token::ParenClose, Token::ParenClose) => true,
            (Token::Comma, Token::Comma) => true,
            _ => false,
        }
}

/// Writes tokens, each number by its `Display` text.
pub fn render_tokens<T: core::fmt::Display>(toks: &Vec<Token<T>>) -> (r: String)
    ensures
        exists|ss: Seq<Token<String>>| displayed(toks@, ss) && r@ == render(toks_view(ss)),
{
    let mut ss: Vec<Token<String>> = Vec::new();
    let n = toks.len();
    let mut i: usize = 0;
    while i < n
        invariant
            n == toks@.len(),
            i <= n,
            displayed(toks@.subrange(0, i as int), ss@),
        decreases n - i,
    {
        let t = match &toks[i] {
            Token::Number(x) => Token::Number(x.to_string()),
            Token::Word(w) => Token::Word(w.clone()),
            Token::ParenOpen => Token::ParenOpen,
            Token::ParenClose => Token::ParenClose,
            Token::Comma => Token::Comma,
        };
        ss.push(t);
        i += 1;
        assert forall|j: int| 0 <= j < i implies match (
            #[trigger] toks@.subrange(0, i as int)[j],
            ss@[j],
        ) {
            (Token::Number(x), Token::Number(s)) => vstd::string::to_string_from_display_ensures::<
                T,
            >(&x, s),
            (Token::Word(a), Token::Word(b)) => a@ == b@,
            (Token::ParenOpen, Token::ParenOpen) => true,
            (Token::ParenClose, Token::ParenClose) => true,
            (Token::Comma, Token::Comma) => true,
            _ => false,
        } by {
            if j < i - 1 {
                assert(toks@.subrange(0, i as int)[j] == toks@.subrange(0, i - 1)[j]);
            }
        }
    }
    assert(toks@.subrange(0, n as int) =~= toks@);
    write_tokens(&ss)
}

impl<T: Copy + core::fmt::Display> Geometry<T> {
    /// The canonical WKT text of this geometry.
    pub fn wkt_string(&self) -> (r: String)
        ensures
            exists|ts: Seq<Token<T>>, ss: Seq<Token<String>>|
                toks_view(ts) == geom_toks(self@) && displayed(ts, ss) && r@ == render(
                    toks_view(ss),
                ),
    {
        let toks = self.to_tokens();
        render_tokens(&toks)
    }
}

impl<T: Copy + core::fmt::Display> LineString<T> {
    /// The canonical WKT text of this line string: `LINESTRING EMPTY`, or
    /// the keyword, its dimension suffix and the comma-separated
    /// coordinates in parentheses.
    pub fn wkt_string(&self) -> (r: String)
        ensures
            exists|ts: Seq<Token<T>>, ss: Seq<Token<String>>|
                toks_view(ts) == geom_toks(crate::types::Geom::LineString(self@)) && displayed(
                    ts,
                    ss,
                ) && r@ == render(toks_view(ss)),
            self@.len() == 0 ==> r@ == "LINESTRING EMPTY"@,
    {
        let toks = self.to_tokens();
        let r = render_tokens(&toks);
        proof {
            if self@.len() == 0 {
                let ss = choose|ss: Seq<Token<String>>|
                    displayed(toks@, ss) && r@ == render(toks_view(ss));
                let tv = toks_view(toks@);
                assert(tv == seq![Tok::<T>::Word("LINESTRING"@), Tok::<T>::Word("EMPTY"@)]);
                assert(toks@[0]@ == tv[0]);
                assert(toks@[1]@ == tv[1]);
                let sv = toks_view(ss);
                assert(sv.len() == 2);
                assert(sv[0] == Tok::<String>::Word("LINESTRING"@));
                assert(sv[1] == Tok::<String>::Word("EMPTY"@));
                assert(sv.drop_last().drop_last() =~= Seq::<Tok<String>>::empty());
                assert(sv.drop_last() =~= seq![sv[0]]);
                reveal_strlit("LINESTRING");
                reveal_strlit("EMPTY");
                reveal_strlit(" ");
                reveal_strlit("LINESTRING EMPTY");
                let one = sv.drop_last();
                assert(one.last() == sv[0]);
                assert(render(one.drop_last()) == Seq::<char>::empty());
                assert(render(one) =~= "LINESTRING"@);
                assert(r@ =~= "LINESTRING EMPTY"@);
            }
        }
        r
    }
}

} // verus!
