use vstd::prelude::*;
use vstd::string::*;
use crate::grammar::ParseError;
use crate::grammar::parse_all;
use crate::parser::parse_tokens;
use crate::token::{toks_view, Tok, Token};
use crate::types::Geometry;

verus! {

pub open spec fn is_space(c: char) -> bool {
    c == ' ' || c == '\t' || c == '\n' || c == '\r'
}

pub open spec fn is_letter(c: char) -> bool {
    ('a' <= c && c <= 'z') || ('A' <= c && c <= 'Z')
}

pub open spec fn is_digit(c: char) -> bool {
    '0' <= c && c <= '9'
}

pub open spec fn is_word_char(c: char) -> bool {
    is_letter(c) || is_digit(c) || c == '_'
}

pub open spec fn is_num_start(c: char) -> bool {
    is_digit(c) || c == '-' || c == '+' || c == '.'
}

pub open spec fn is_num_char(c: char) -> bool {
    is_digit(c) || c == '-' || c == '+' || c == '.' || c == 'e' || c == 'E'
}

/// The end of the run of characters from `i` on that `word` (or, if not
/// `word`, number) characters continue.
pub open spec fn run_end(s: Seq<char>, i: int, word: bool) -> int
    decreases s.len() - i,
{
    if i < s.len() && (if word { is_word_char(s[i]) } else { is_num_char(s[i]) }) {
        run_end(s, i + 1, word)
    } else {
        i
    }
}

/// A lexeme: a token whose number is still its text.
pub type Lexeme = Tok<Seq<char>>;

/// Puts a lexeme in front of the lexemes that follow it.
pub open spec fn lex_cons(t: Lexeme, r: Result<Seq<Lexeme>, ParseError>) -> Result<
    Seq<Lexeme>,
    ParseError,
> {
    match r {
        Ok(ls) => Ok(seq![t] + ls),
        Err(e) => Err(e),
    }
}

/// The lexemes of `s` from index `i` on. Spaces separate lexemes and are
/// dropped; a word starts with a letter, a number with a digit, a sign or a
/// point; any other character is refused.
pub open spec fn lex_from(s: Seq<char>, i: int) -> Result<Seq<Lexeme>, ParseError>
    decreases s.len() - i,
{
    if i < 0 || i >= s.len() {
        Ok(seq![])
    } else {
        let c = s[i];
        if is_space(c) {
            lex_from(s, i + 1)
        } else if c == '(' {
            lex_cons(Tok::ParenOpen, lex_from(s, i + 1))
        } else if c == ')' {
            lex_cons(Tok::ParenClose, lex_from(s, i + 1))
        } else if c == ',' {
            lex_cons(Tok::Comma, lex_from(s, i + 1))
        } else if is_letter(c) {
            let j = run_end(s, i + 1, true);
            if !(i < j <= s.len()) {
                Err(ParseError::Mismatch)
            } else {
                lex_cons(Tok::Word(s.subrange(i, j)), lex_from(s, j))
            }
        } else if is_num_start(c) {
            let j = run_end(s, i + 1, false);
            if !(i < j <= s.len()) {
                Err(ParseError::Mismatch)
            } else {
                lex_cons(Tok::Number(s.subrange(i, j)), lex_from(s, j))
            }
        } else {
            Err(ParseError::Mismatch)
        }
    }
}

/// The lexemes that tokens with textual numbers stand for.
pub open spec fn lexemes_view(v: Seq<Token<String>>) -> Seq<Lexeme> {
    v.map_values(
        |t: Token<String>|
            match t {
                Token::Number(n) => Tok::Number(n@),
                Token::Word(w) => Tok::Word(w@),
                Token::ParenOpen => Tok::ParenOpen,
                Token::ParenClose => Tok::ParenClose,
                Token::Comma => Tok::Comma,
            },
    )
}

proof fn lemma_run_end(s: Seq<char>, i: int, word: bool)
    requires
        0 <= i <= s.len(),
    ensures
        i <= run_end(s, i, word) <= s.len(),
    decreases s.len() - i,
{
    if i < s.len() && (if word { is_word_char(s[i]) } else { is_num_char(s[i]) }) {
        lemma_run_end(s, i + 1, word);
    }
}

fn scan_run(s: &str, n: usize, i: usize, word: bool) -> (j: usize)
    requires
        n == s@.len(),
        i <= n,
    ensures
        j == run_end(s@, i as int, word),
        i <= j <= n,
{
    let mut j = i;
    while j < n
        invariant
            n == s@.len(),
            i <= j <= n,
            run_end(s@, i as int, word) == run_end(s@, j as int, word),
        decreases n - j,
    {
        let c = s.get_char(j);
        let more = if word {
            ('a' <= c && c <= 'z') || ('A' <= c && c <= 'Z') || ('0' <= c && c <= '9') || c == '_'
        } else {
            ('0' <= c && c <= '9') || c == '-' || c == '+' || c == '.' || c == 'e' || c == 'E'
        };
        if !more {
            return j;
        }
        j += 1;
    }
    j
}

/// Splits text into lexemes, numbers kept as their text.
pub fn lex(s: &str) -> (r: Result<Vec<Token<String>>, ParseError>)
    ensures
        match r {
            Ok(v) => lex_from(s@, 0) == Ok::<Seq<Lexeme>, ParseError>(lexemes_view(v@)),
            Err(e) => lex_from(s@, 0) == Err::<Seq<Lexeme>, ParseError>(e),
        },
{
    let n = s.unicode_len();
    let mut out: Vec<Token<String>> = Vec::new();
    let mut i: usize = 0;
    assert(lexemes_view(out@) + Seq::<Lexeme>::empty() =~= Seq::<Lexeme>::empty());
    while i < n
        invariant
            n == s@.len(),
            i <= n,
            lex_from(s@, 0) == match lex_from(s@, i as int) {
                Ok(ls) => Ok(lexemes_view(out@) + ls),
                Err(e) => Err::<Seq<Lexeme>, ParseError>(e),
            },
        decreases n - i,
    {
        let ghost before = out@;
        let c = s.get_char(i);
        if c == ' ' || c == '\t' || c == '\n' || c == '\r' {
            i += 1;
        } else {
            let t: Token<String>;
            let j: usize;
            if c == '(' {
                t = Token::ParenOpen;
                j = i + 1;
            } else if c == ')' {
                t = Token::ParenClose;
                j = i + 1;
            } else if c == ',' {
                t = Token::Comma;
                j = i + 1;
            } else if ('a' <= c && c <= 'z') || ('A' <= c && c <= 'Z') {
                j = scan_run(s, n, i + 1, true);
                proof {
                    lemma_run_end(s@, i + 1, true);
                }
                t = Token::Word(String::from_str(s.substring_char(i, j)));
            } else if ('0' <= c && c <= '9') || c == '-' || c == '+' || c == '.' {
                j = scan_run(s, n, i + 1, false);
                proof {
                    lemma_run_end(s@, i + 1, false);
                }
                t = Token::Number(String::from_str(s.substring_char(i, j)));
            } else {
                return Err(ParseError::Mismatch);
            }
            out.push(t);
            proof {
                assert(lexemes_view(out@) =~= lexemes_view(before).push(lexemes_view(out@).last()));
                match lex_from(s@, j as int) {
                    Ok(ls) => {
                        assert(lexemes_view(out@) + ls =~= lexemes_view(before) + (seq![
                            lexemes_view(out@).last(),
                        ] + ls));
                    },
                    Err(_) => {},
                }
            }
            i = j;
        }
    }
    assert(lexemes_view(out@) + Seq::<Lexeme>::empty() =~= lexemes_view(out@));
    Ok(out)
}

/// The text lexed, and a number stands among its lexemes: only then can a
/// number's text be refused.
pub open spec fn has_number(r: Result<Seq<Lexeme>, ParseError>) -> bool {
    r matches Ok(ls) && exists|i: int| 0 <= i < ls.len() && #[trigger] ls[i] is Number
}

/// A token agrees with a lexeme: a number stands where a number's text
/// stood, and every other token is the lexeme itself.
pub open spec fn shape_eq<T>(l: Lexeme, t: Tok<T>) -> bool {
    match (l, t) {
        (Tok::Number(_), Tok::Number(_)) => true,
        (Tok::Word(a), Tok::Word(b)) => a == b,
        (Tok::ParenOpen, Tok::ParenOpen) => true,
        (Tok::ParenClose, Tok::ParenClose) => true,
        (Tok::Comma, Tok::Comma) => true,
        _ => false,
    }
}

/// Tokens agree one for one with lexemes.
pub open spec fn same_shape<T>(ls: Seq<Lexeme>, ts: Seq<Tok<T>>) -> bool {
    &&& ls.len() == ts.len()
    &&& forall|i: int| 0 <= i < ls.len() ==> shape_eq(#[trigger] ls[i], ts[i])
}

/// Relies on `str::parse` through the coordinate type's `FromStr`: the value
/// of a number's text, or `None` where the type refuses that text.
#[verifier::external_body]
fn parse_number<T: core::str::FromStr>(s: &str) -> (r: Option<T>) {
    s.parse::<T>().ok()
}

/// Splits text into tokens, converting each number's text to the
/// coordinate type.
pub fn tokenize<T: core::str::FromStr>(s: &str) -> (r: Result<Vec<Token<T>>, ParseError>)
    ensures
        match r {
            Ok(v) => lex_from(s@, 0) matches Ok(ls) && same_shape(ls, toks_view(v@)),
            Err(e) => lex_from(s@, 0) == Err::<Seq<Lexeme>, ParseError>(e) || (e
                == ParseError::MalformedNumber && has_number(lex_from(s@, 0))),
        },
{
    let lexed = match lex(s) {
        Ok(v) => v,
        Err(e) => return Err(e),
    };
    let ghost ls = lexemes_view(lexed@);
    let n = lexed.len();
    let mut out: Vec<Token<T>> = Vec::new();
    let mut i: usize = 0;
    while i < n
        invariant
            n == lexed@.len() == ls.len(),
            ls == lexemes_view(lexed@),
            lex_from(s@, 0) == Ok::<Seq<Lexeme>, ParseError>(ls),
            i <= n,
            out@.len() == i,
            forall|k: int| 0 <= k < i ==> shape_eq(#[trigger] ls[k], toks_view(out@)[k]),
        decreases n - i,
    {
        let t = match &lexed[i] {
            Token::Number(text) => match parse_number::<T>(text.as_str()) {
                Some(x) => Token::Number(x),
                None => {
                    assert(ls[i as int] is Number);
                    return Err(ParseError::MalformedNumber);
                },
            },
            Token::Word(w) => Token::Word(w.clone()),
            Token::ParenOpen => Token::ParenOpen,
            Token::ParenClose => Token::ParenClose,
            Token::Comma => Token::Comma,
        };
        out.push(t);
        i += 1;
    }
    Ok(out)
}

/// A parsed WKT text: its geometry.
pub struct Wkt<T> {
    pub item: Geometry<T>,
}

impl<T: core::str::FromStr + Copy> Wkt<T> {
    /// Parses one WKT geometry from text.
    pub fn from_str(s: &str) -> (r: Result<Wkt<T>, ParseError>)
        ensures
            match r {
                Ok(w) => exists|ts: Seq<Tok<T>>|
                    lex_from(s@, 0) matches Ok(ls) && same_shape(ls, ts) && #[trigger] parse_all(ts) == Ok::<
                        crate::types::Geom<T>,
                        ParseError,
                    >(w.item@),
                Err(e) => {
                    ||| e == ParseError::MalformedNumber && has_number(lex_from(s@, 0))
                    ||| lex_from(s@, 0) == Err::<Seq<Lexeme>, ParseError>(e)
                    ||| exists|ts: Seq<Tok<T>>|
                        lex_from(s@, 0) matches Ok(ls) && same_shape(ls, ts) && #[trigger] parse_all(ts)
                            == Err::<crate::types::Geom<T>, ParseError>(e)
                },
            },
    {
        let toks = match tokenize::<T>(s) {
            Ok(v) => v,
            Err(e) => return Err(e),
        };
        match parse_tokens(&toks) {
            Ok(g) => Ok(Wkt { item: g }),
            Err(e) => Err(e),
        }
    }
}

} // verus!
