//! The CSS tokenizer, stated by a spec function from characters to tokens.
use vstd::prelude::*;

use crate::text::{chars_of, push_char};

verus! {

/// A token of CSS source text.
///
/// `Number` holds the digits and dots of a numeric token as they were written;
/// turning them into a floating-point value is left to the caller.
#[derive(Debug, Clone, PartialEq)]
pub enum CssToken {
    HashToken(String),
    Delim(char),
    Number(String),
    Colon,
    SemiColon,
    OpenParenthesis,
    CloseParenthesis,
    OpenCurly,
    CloseCurly,
    Ident(String),
    StringToken(String),
    AtKeyword(String),
}

/// The mathematical value of a `CssToken`: its kind and its text as characters.
pub enum TokenView {
    HashToken(Seq<char>),
    Delim(char),
    Number(Seq<char>),
    Colon,
    SemiColon,
    OpenParenthesis,
    CloseParenthesis,
    OpenCurly,
    CloseCurly,
    Ident(Seq<char>),
    StringToken(Seq<char>),
    AtKeyword(Seq<char>),
}

impl View for CssToken {
    type V = TokenView;

    open spec fn view(&self) -> TokenView {
        match self {
            CssToken::HashToken(s) => TokenView::HashToken(s@),
            CssToken::Delim(c) => TokenView::Delim(*c),
            CssToken::Number(s) => TokenView::Number(s@),
            CssToken::Colon => TokenView::Colon,
            CssToken::SemiColon => TokenView::SemiColon,
            CssToken::OpenParenthesis => TokenView::OpenParenthesis,
            CssToken::CloseParenthesis => TokenView::CloseParenthesis,
            CssToken::OpenCurly => TokenView::OpenCurly,
            CssToken::CloseCurly => TokenView::CloseCurly,
            CssToken::Ident(s) => TokenView::Ident(s@),
            CssToken::StringToken(s) => TokenView::StringToken(s@),
            CssToken::AtKeyword(s) => TokenView::AtKeyword(s@),
        }
    }
}

/// The views of a sequence of tokens.
pub open spec fn tokens_view(v: Seq<CssToken>) -> Seq<TokenView> {
    v.map_values(|t: CssToken| t@)
}

pub open spec fn is_ascii_letter(c: char) -> bool {
    ('a' <= c && c <= 'z') || ('A' <= c && c <= 'Z')
}

pub open spec fn is_ascii_digit(c: char) -> bool {
    '0' <= c && c <= '9'
}

/// Characters that may continue an identifier (and a hash token).
pub open spec fn is_ident_char(c: char) -> bool {
    is_ascii_letter(c) || is_ascii_digit(c) || c == '-' || c == '_'
}

/// Characters that start an identifier.
pub open spec fn is_ident_start(c: char) -> bool {
    is_ascii_letter(c) || c == '_'
}

pub open spec fn is_number_char(c: char) -> bool {
    is_ascii_digit(c) || c == '.'
}

pub open spec fn is_quote(c: char) -> bool {
    c == '"' || c == '\''
}

/// Characters that separate tokens and produce none.
pub open spec fn is_css_whitespace(c: char) -> bool {
    c == ' ' || c == '\n' || c == '\t' || c == '\r'
}

/// The kinds of character runs that the tokenizer reads.
pub enum Run {
    Ident,
    Number,
    UntilQuote,
}

pub open spec fn in_run(k: Run, c: char) -> bool {
    match k {
        Run::Ident => is_ident_char(c),
        Run::Number => is_number_char(c),
        Run::UntilQuote => !is_quote(c),
    }
}

/// The end of the longest run of characters of kind `k` that starts at `i`.
pub open spec fn run_end(s: Seq<char>, i: int, k: Run) -> int
    decreases s.len() - i,
{
    if 0 <= i < s.len() && in_run(k, s[i]) {
        run_end(s, i + 1, k)
    } else {
        i
    }
}

pub proof fn lemma_run_end(s: Seq<char>, i: int, k: Run)
    requires
        0 <= i <= s.len(),
    ensures
        i <= run_end(s, i, k) <= s.len(),
        forall|j: int| i <= j < run_end(s, i, k) ==> in_run(k, #[trigger] s[j]),
        run_end(s, i, k) < s.len() ==> !in_run(k, s[run_end(s, i, k)]),
    decreases s.len() - i,
{
    if i < s.len() && in_run(k, s[i]) {
        lemma_run_end(s, i + 1, k);
    }
}

/// One step of the tokenizer at position `i` (`0 <= i < s.len()`): the token it
/// produces, if any, and the position after it.
pub open spec fn lex_step(s: Seq<char>, i: int) -> (Option<TokenView>, int) {
    let c = s[i];
    if is_css_whitespace(c) {
        (None, i + 1)
    } else if c == '(' {
        (Some(TokenView::OpenParenthesis), i + 1)
    } else if c == ')' {
        (Some(TokenView::CloseParenthesis), i + 1)
    } else if c == ':' {
        (Some(TokenView::Colon), i + 1)
    } else if c == ';' {
        (Some(TokenView::SemiColon), i + 1)
    } else if c == '{' {
        (Some(TokenView::OpenCurly), i + 1)
    } else if c == '}' {
        (Some(TokenView::CloseCurly), i + 1)
    } else if is_quote(c) {
        let e = run_end(s, i + 1, Run::UntilQuote);
        (
            Some(TokenView::StringToken(s.subrange(i + 1, e))),
            if e < s.len() {
                e + 1
            } else {
                e
            },
        )
    } else if is_ascii_digit(c) {
        let e = run_end(s, i + 1, Run::Number);
        (Some(TokenView::Number(s.subrange(i, e))), e)
    } else if c == '#' {
        let e = run_end(s, i + 1, Run::Ident);
        (Some(TokenView::HashToken(s.subrange(i, e))), e)
    } else if c == '-' || is_ident_start(c) {
        let e = run_end(s, i + 1, Run::Ident);
        (Some(TokenView::Ident(s.subrange(i, e))), e)
    } else if c == '@' && i + 1 < s.len() && is_ident_start(s[i + 1]) {
        let e = run_end(s, i + 2, Run::Ident);
        (Some(TokenView::AtKeyword(s.subrange(i + 1, e))), e)
    } else {
        (Some(TokenView::Delim(c)), i + 1)
    }
}

pub proof fn lemma_lex_step_advances(s: Seq<char>, i: int)
    requires
        0 <= i < s.len(),
    ensures
        i < lex_step(s, i).1 <= s.len(),
{
    if i + 1 <= s.len() {
        lemma_run_end(s, i + 1, Run::UntilQuote);
        lemma_run_end(s, i + 1, Run::Number);
        lemma_run_end(s, i + 1, Run::Ident);
    }
    if i + 2 <= s.len() {
        lemma_run_end(s, i + 2, Run::Ident);
    }
}

/// The tokens of `s` from position `i` on.
pub open spec fn lex(s: Seq<char>, i: int) -> Seq<TokenView>
    decreases s.len() - i,
{
    if 0 <= i < s.len() {
        proof {
            lemma_lex_step_advances(s, i);
        }
        match lex_step(s, i).0 {
            Some(t) => seq![t] + lex(s, lex_step(s, i).1),
            None => lex(s, lex_step(s, i).1),
        }
    } else {
        Seq::empty()
    }
}

/// The tokens of a whole CSS text.
pub open spec fn tokenize(s: Seq<char>) -> Seq<TokenView> {
    lex(s, 0)
}

/// A tokenizer over CSS source text; it hands out the tokens one at a time.
#[derive(Debug)]
pub struct CssTokenizer {
    input: Vec<char>,
    pos: usize,
}

impl View for CssTokenizer {
    type V = Seq<TokenView>;

    /// The tokens not yet handed out.
    closed spec fn view(&self) -> Seq<TokenView> {
        lex(self.input@, self.pos as int)
    }
}

fn run_end_exec(input: &Vec<char>, i: usize, k: Run) -> (e: usize)
    requires
        i <= input.len(),
    ensures
        e == run_end(input@, i as int, k),
{
    let mut j = i;
    while j < input.len()
        invariant
            i <= j <= input.len(),
            run_end(input@, j as int, k) == run_end(input@, i as int, k),
        decreases input.len() - j,
    {
        let c = input[j];
        let inside = match k {
            Run::Ident => ('a' <= c && c <= 'z') || ('A' <= c && c <= 'Z') || ('0' <= c && c
                <= '9') || c == '-' || c == '_',
            Run::Number => ('0' <= c && c <= '9') || c == '.',
            Run::UntilQuote => !(c == '"' || c == '\''),
        };
        if !inside {
            return j;
        }
        j = j + 1;
    }
    j
}

/// The characters `input[from..to]` as a `String`.
pub(crate) fn string_from(input: &Vec<char>, from: usize, to: usize) -> (s: String)
    requires
        from <= to <= input.len(),
    ensures
        s@ == input@.subrange(from as int, to as int),
{
    let mut s = String::new();
    let mut j = from;
    while j < to
        invariant
            from <= j <= to <= input.len(),
            s@ == input@.subrange(from as int, j as int),
        decreases to - j,
    {
        push_char(&mut s, input[j]);
        assert(input@.subrange(from as int, j + 1) =~= input@.subrange(from as int, j as int).push(
            input@[j as int],
        ));
        j = j + 1;
    }
    s
}

fn lex_step_exec(input: &Vec<char>, i: usize) -> (res: (Option<CssToken>, usize))
    requires
        i < input.len(),
    ensures
        res.1 == lex_step(input@, i as int).1,
        match res.0 {
            Some(t) => lex_step(input@, i as int).0 == Some(t@),
            None => lex_step(input@, i as int).0 is None,
        },
{
    let c = input[i];
    let n = input.len();
    if c == ' ' || c == '\n' || c == '\t' || c == '\r' {
        (None, i + 1)
    } else if c == '(' {
        (Some(CssToken::OpenParenthesis), i + 1)
    } else if c == ')' {
        (Some(CssToken::CloseParenthesis), i + 1)
    } else if c == ':' {
        (Some(CssToken::Colon), i + 1)
    } else if c == ';' {
        (Some(CssToken::SemiColon), i + 1)
    } else if c == '{' {
        (Some(CssToken::OpenCurly), i + 1)
    } else if c == '}' {
        (Some(CssToken::CloseCurly), i + 1)
    } else if c == '"' || c == '\'' {
        let e = run_end_exec(input, i + 1, Run::UntilQuote);
        proof {
            lemma_run_end(input@, i + 1, Run::UntilQuote);
        }
        let text = string_from(input, i + 1, e);
        let next = if e < n {
            e + 1
        } else {
            e
        };
        (Some(CssToken::StringToken(text)), next)
    } else if '0' <= c && c <= '9' {
        let e = run_end_exec(input, i + 1, Run::Number);
        proof {
            lemma_run_end(input@, i + 1, Run::Number);
        }
        (Some(CssToken::Number(string_from(input, i, e))), e)
    } else if c == '#' {
        let e = run_end_exec(input, i + 1, Run::Ident);
        proof {
            lemma_run_end(input@, i + 1, Run::Ident);
        }
        (Some(CssToken::HashToken(string_from(input, i, e))), e)
    } else if c == '-' || ('a' <= c && c <= 'z') || ('A' <= c && c <= 'Z') || c == '_' {
        let e = run_end_exec(input, i + 1, Run::Ident);
        proof {
            lemma_run_end(input@, i + 1, Run::Ident);
        }
        (Some(CssToken::Ident(string_from(input, i, e))), e)
    } else if c == '@' && i + 1 < n && (('a' <= input[i + 1] && input[i + 1] <= 'z') || ('A'
        <= input[i + 1] && input[i + 1] <= 'Z') || input[i + 1] == '_') {
        let e = run_end_exec(input, i + 2, Run::Ident);
        proof {
            lemma_run_end(input@, i + 2, Run::Ident);
        }
        (Some(CssToken::AtKeyword(string_from(input, i + 1, e))), e)
    } else {
        (Some(CssToken::Delim(c)), i + 1)
    }
}

impl CssTokenizer {
    #[verifier::type_invariant]
    closed spec fn inv(self) -> bool {
        self.pos <= self.input.len()
    }

    /// A tokenizer over `css`, positioned at its start.
    pub fn new(css: String) -> (t: Self)
        ensures
            t@ == tokenize(css@),
    {
        let input = chars_of(css.as_str());
        CssTokenizer { input, pos: 0 }
    }

    /// Hands out the next token, or `None` when every token has been handed out.
    pub fn next_token(&mut self) -> (r: Option<CssToken>)
        ensures
            r is None <==> old(self)@.len() == 0,
            r is None ==> final(self)@ == old(self)@,
            r matches Some(t) ==> old(self)@ == seq![t@] + final(self)@,
    {
        proof {
            use_type_invariant(&*self);
        }
        loop
            invariant
                self.pos <= self.input.len(),
                lex(self.input@, self.pos as int) == old(self)@,
            decreases self.input.len() - self.pos,
        {
            if self.pos >= self.input.len() {
                return None;
            }
            let (t, j) = lex_step_exec(&self.input, self.pos);
            proof {
                lemma_lex_step_advances(self.input@, self.pos as int);
            }
            self.pos = j;
            if let Some(t) = t {
                return Some(t);
            }
        }
    }
}

/// A token that holds text holds some, except a string token; a hash token's
/// text starts with `#`.
pub open spec fn token_text_ok(t: TokenView) -> bool {
    match t {
        TokenView::HashToken(v) => v.len() > 0 && v[0] == '#',
        TokenView::Ident(v) => v.len() > 0,
        TokenView::AtKeyword(v) => v.len() > 0,
        TokenView::Number(v) => v.len() > 0,
        _ => true,
    }
}

/// Every token that the tokenizer produces from position `i` has well-formed
/// text.
pub proof fn lemma_lex_tokens_ok(s: Seq<char>, i: int)
    requires
        0 <= i,
    ensures
        forall|j: int| 0 <= j < lex(s, i).len() ==> token_text_ok(#[trigger] lex(s, i)[j]),
    decreases s.len() - i,
{
    if i < s.len() {
        lemma_lex_step_advances(s, i);
        let next = lex_step(s, i).1;
        lemma_lex_tokens_ok(s, next);
        if i + 1 <= s.len() {
            lemma_run_end(s, i + 1, Run::Number);
            lemma_run_end(s, i + 1, Run::Ident);
        }
        if i + 2 <= s.len() {
            lemma_run_end(s, i + 2, Run::Ident);
        }
        match lex_step(s, i).0 {
            Some(t) => {
                assert(token_text_ok(t));
                assert forall|j: int| 0 <= j < lex(s, i).len() implies token_text_ok(
                    #[trigger] lex(s, i)[j],
                ) by {
                    if j > 0 {
                        assert(lex(s, i)[j] == lex(s, next)[j - 1]);
                    }
                }
            },
            None => {},
        }
    }
}

} // verus!
