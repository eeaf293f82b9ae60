use vstd::prelude::*;

verus! {

/// A lexical token of WKT text: a number already converted to the
/// coordinate type, a bare word, or one of the three punctuation marks.
pub enum Token<T> {
    Number(T),
    Word(String),
    ParenOpen,
    ParenClose,
    Comma,
}

/// The mathematical model of a token: a word is its sequence of characters.
pub enum Tok<T> {
    Number(T),
    Word(Seq<char>),
    ParenOpen,
    ParenClose,
    Comma,
}

impl<T> View for Token<T> {
    type V = Tok<T>;

    open spec fn view(&self) -> Tok<T> {
        match self {
            Token::Number(n) => Tok::Number(*n),
            Token::Word(w) => Tok::Word(w@),
            Token::ParenOpen => Tok::ParenOpen,
            Token::ParenClose => Tok::ParenClose,
            Token::Comma => Tok::Comma,
        }
    }
}

/// The models of a sequence of tokens.
pub open spec fn toks_view<T>(v: Seq<Token<T>>) -> Seq<Tok<T>> {
    v.map_values(|t: Token<T>| t@)
}

/// The code of a character after ASCII upper-casing; other characters keep
/// their code.
pub open spec fn upper(c: char) -> u32 {
    if 'a' <= c && c <= 'z' {
        (c as u32 - 32) as u32
    } else {
        c as u32
    }
}

/// A word matches a keyword (given in upper case) without regard to ASCII case.
pub open spec fn word_is(w: Seq<char>, kw: Seq<char>) -> bool {
    &&& w.len() == kw.len()
    &&& forall|i: int| 0 <= i < w.len() ==> upper(#[trigger] w[i]) == kw[i] as u32
}

fn upper_char(c: char) -> (r: u32)
    ensures
        r == upper(c),
{
    if 'a' <= c && c <= 'z' {
        c as u32 - 32
    } else {
        c as u32
    }
}

/// Compares a word with an upper-case keyword, ignoring ASCII case.
pub fn word_matches(w: &str, kw: &str) -> (r: bool)
    ensures
        r == word_is(w@, kw@),
{
    let n = w.unicode_len();
    if n != kw.unicode_len() {
        return false;
    }
    let mut i: usize = 0;
    while i < n
        invariant
            n == w@.len(),
            n == kw@.len(),
            i <= n,
            forall|j: int| 0 <= j < i ==> upper(#[trigger] w@[j]) == kw@[j] as u32,
        decreases n - i,
    {
        if upper_char(w.get_char(i)) != kw.get_char(i) as u32 {
            return false;
        }
        i += 1;
    }
    true
}

} // verus!
