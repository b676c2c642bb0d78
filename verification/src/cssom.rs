//! The style sheet model and the parser that builds it from tokens.
//!
//! The parser is stated by spec functions over a token sequence and a position;
//! each gives what the parser builds, or `None` where it would panic or never
//! return.
use vstd::prelude::*;

use crate::text::chars_of;
use crate::token::{string_from, tokens_view, CssToken, CssTokenizer, TokenView};

verus! {

/// A component value of a declaration is a single token.
pub type ComponentValue = CssToken;

/// A style sheet: its qualified rules, in source order.
#[derive(Debug, Clone, PartialEq)]
pub struct StyleSheet {
    pub rules: Vec<QualifiedRule>,
}

/// A selector and the declarations of its block.
#[derive(Debug, Clone, PartialEq)]
pub struct QualifiedRule {
    pub selector: Selector,
    pub declarations: Vec<Declaration>,
}

/// The selectors that the parser understands.
#[derive(Debug, Clone, PartialEq, Eq)]
pub enum Selector {
    TypeSelector(String),
    ClassSelector(String),
    IdSelector(String),
    /// A selector that the parser skipped over, or could not read: a
    /// delimiter other than `.`, or a `.` without a class name after it.
    UnknownSelector,
}

/// A property and its value.
#[derive(Debug, Clone, PartialEq)]
pub struct Declaration {
    pub property: String,
    pub value: ComponentValue,
}

pub enum SelectorView {
    TypeSelector(Seq<char>),
    ClassSelector(Seq<char>),
    IdSelector(Seq<char>),
    UnknownSelector,
}

pub struct DeclarationView {
    pub property: Seq<char>,
    pub value: TokenView,
}

pub struct RuleView {
    pub selector: SelectorView,
    pub declarations: Seq<DeclarationView>,
}

impl View for Selector {
    type V = SelectorView;

    open spec fn view(&self) -> SelectorView {
        match self {
            Selector::TypeSelector(s) => SelectorView::TypeSelector(s@),
            Selector::ClassSelector(s) => SelectorView::ClassSelector(s@),
            Selector::IdSelector(s) => SelectorView::IdSelector(s@),
            Selector::UnknownSelector => SelectorView::UnknownSelector,
        }
    }
}

impl View for Declaration {
    type V = DeclarationView;

    open spec fn view(&self) -> DeclarationView {
        DeclarationView { property: self.property@, value: self.value@ }
    }
}

pub open spec fn decls_view(v: Seq<Declaration>) -> Seq<DeclarationView> {
    v.map_values(|d: Declaration| d@)
}

impl View for QualifiedRule {
    type V = RuleView;

    open spec fn view(&self) -> RuleView {
        RuleView { selector: self.selector@, declarations: decls_view(self.declarations@) }
    }
}

pub open spec fn rules_view(v: Seq<QualifiedRule>) -> Seq<RuleView> {
    v.map_values(|r: QualifiedRule| r@)
}

impl View for StyleSheet {
    type V = Seq<RuleView>;

    open spec fn view(&self) -> Seq<RuleView> {
        rules_view(self.rules@)
    }
}

// The parser, stated over a token sequence `t` and a position `p` in it.  Each
// function gives `Some` of what the parser builds and the position after it, or
// `None` where the parser panics or never returns.
/// Reading an identifier at `p`.
pub open spec fn parse_ident(t: Seq<TokenView>, p: int) -> Option<(Seq<char>, int)> {
    if 0 <= p < t.len() {
        match t[p] {
            TokenView::Ident(s) => Some((s, p + 1)),
            _ => None,
        }
    } else {
        None
    }
}

/// Reading a declaration at `p`: `name : value`.
pub open spec fn parse_declaration(t: Seq<TokenView>, p: int) -> Option<
    (Option<DeclarationView>, int),
> {
    if p >= t.len() {
        Some((None, p))
    } else {
        match parse_ident(t, p) {
            None => None,
            Some((name, q)) => if q >= t.len() {
                Some((None, q))
            } else if t[q] is Colon {
                if q + 1 < t.len() {
                    Some((Some(DeclarationView { property: name, value: t[q + 1] }), q + 2))
                } else {
                    None
                }
            } else {
                Some((None, q + 1))
            },
        }
    }
}

pub open spec fn prepend_decl(d: Option<DeclarationView>, ds: Seq<DeclarationView>) -> Seq<
    DeclarationView,
> {
    match d {
        Some(d) => seq![d] + ds,
        None => ds,
    }
}

/// Reading the declarations of a block, from `p` up to and past its `}`.
pub open spec fn parse_declarations(t: Seq<TokenView>, p: int) -> Option<
    (Seq<DeclarationView>, int),
>
    decreases t.len() - p,
{
    if 0 <= p < t.len() {
        match t[p] {
            TokenView::CloseCurly => Some((Seq::empty(), p + 1)),
            TokenView::SemiColon => parse_declarations(t, p + 1),
            TokenView::Ident(_) => match parse_declaration(t, p) {
                None => None,
                Some((d, q)) => match parse_declarations(t, q) {
                    None => None,
                    Some((ds, r)) => Some((prepend_decl(d, ds), r)),
                },
            },
            _ => parse_declarations(t, p + 1),
        }
    } else {
        Some((Seq::empty(), p))
    }
}

/// The first position at or after `p` that holds `{`.
pub open spec fn find_open_curly(t: Seq<TokenView>, p: int) -> Option<int>
    decreases t.len() - p,
{
    if 0 <= p < t.len() {
        if t[p] is OpenCurly {
            Some(p)
        } else {
            find_open_curly(t, p + 1)
        }
    } else {
        None
    }
}

/// A character that UTF-8 encodes in one byte.
pub open spec fn is_one_byte(c: char) -> bool {
    (c as u32) < 128
}

/// Reading a selector at `p`. A delimiter other than `.`, or a `.` without an
/// identifier after it, is a parse error: it is read as the unknown selector.
pub open spec fn parse_selector(t: Seq<TokenView>, p: int) -> Option<(SelectorView, int)> {
    if 0 <= p < t.len() {
        match t[p] {
            TokenView::HashToken(v) => if v.len() > 0 && is_one_byte(v[0]) {
                Some((SelectorView::IdSelector(v.skip(1)), p + 1))
            } else {
                None
            },
            TokenView::Delim(c) => if c == '.' {
                match parse_ident(t, p + 1) {
                    Some((s, q)) => Some((SelectorView::ClassSelector(s), q)),
                    None => Some((SelectorView::UnknownSelector, p + 1)),
                }
            } else {
                Some((SelectorView::UnknownSelector, p + 1))
            },
            TokenView::Ident(s) => if p + 1 < t.len() && t[p + 1] is Colon {
                match find_open_curly(t, p + 1) {
                    Some(q) => Some((SelectorView::TypeSelector(s), q)),
                    None => None,
                }
            } else {
                Some((SelectorView::TypeSelector(s), p + 1))
            },
            TokenView::AtKeyword(_) => match find_open_curly(t, p + 1) {
                Some(q) => Some((SelectorView::UnknownSelector, q)),
                None => None,
            },
            _ => Some(
                (
                    SelectorView::UnknownSelector,
                    if p + 1 < t.len() {
                        p + 2
                    } else {
                        p + 1
                    },
                ),
            ),
        }
    } else {
        None
    }
}

/// The selector that a rule has before any selector is read.
pub open spec fn initial_selector() -> SelectorView {
    SelectorView::TypeSelector(Seq::empty())
}

/// Reading a qualified rule at `p`, whose selector read so far is `sel`.
pub open spec fn parse_qualified_rule(t: Seq<TokenView>, p: int, sel: SelectorView) -> Option<
    (Option<RuleView>, int),
>
    decreases t.len() - p,
{
    if 0 <= p < t.len() {
        if t[p] is OpenCurly {
            match parse_declarations(t, p + 1) {
                Some((ds, q)) => Some((Some(RuleView { selector: sel, declarations: ds }), q)),
                None => None,
            }
        } else {
            match parse_selector(t, p) {
                None => None,
                Some((s, q)) => {
                    proof {
                        lemma_parse_selector_advances(t, p);
                    }
                    parse_qualified_rule(t, q, s)
                },
            }
        }
    } else {
        Some((None, p))
    }
}

/// Reading the rules of a style sheet from `p` to its end.
pub open spec fn parse_rules(t: Seq<TokenView>, p: int) -> Option<Seq<RuleView>>
    decreases t.len() - p,
{
    if 0 <= p < t.len() {
        match parse_qualified_rule(t, p, initial_selector()) {
            None => None,
            Some((r, q)) => {
                proof {
                    lemma_parse_qualified_rule_advances(t, p, initial_selector());
                }
                if t[p] is AtKeyword {
                    parse_rules(t, q)
                } else {
                    match r {
                        Some(rule) => match parse_rules(t, q) {
                            Some(rs) => Some(seq![rule] + rs),
                            None => None,
                        },
                        None => Some(Seq::empty()),
                    }
                }
            },
        }
    } else {
        Some(Seq::empty())
    }
}

/// The rules of the style sheet written as the text `css`, where parsing it
/// returns.
pub open spec fn parse_css(css: Seq<char>) -> Option<Seq<RuleView>> {
    parse_rules(crate::token::tokenize(css), 0)
}

pub proof fn lemma_find_open_curly(t: Seq<TokenView>, p: int)
    requires
        0 <= p,
    ensures
        find_open_curly(t, p) matches Some(q) ==> p <= q < t.len() && t[q] is OpenCurly,
    decreases t.len() - p,
{
    if 0 <= p < t.len() && !(t[p] is OpenCurly) {
        lemma_find_open_curly(t, p + 1);
    }
}

pub proof fn lemma_parse_selector_advances(t: Seq<TokenView>, p: int)
    requires
        0 <= p < t.len(),
    ensures
        parse_selector(t, p) matches Some((s, q)) ==> p < q <= t.len(),
{
    lemma_find_open_curly(t, p + 1);
}

pub proof fn lemma_parse_declarations_advances(t: Seq<TokenView>, p: int)
    requires
        0 <= p <= t.len(),
    ensures
        parse_declarations(t, p) matches Some((ds, q)) ==> p <= q <= t.len() && (p < t.len()
            ==> p < q),
    decreases t.len() - p,
{
    if p < t.len() {
        match t[p] {
            TokenView::CloseCurly => {},
            TokenView::SemiColon => lemma_parse_declarations_advances(t, p + 1),
            TokenView::Ident(_) => match parse_declaration(t, p) {
                None => {},
                Some((d, q)) => lemma_parse_declarations_advances(t, q),
            },
            _ => lemma_parse_declarations_advances(t, p + 1),
        }
    }
}

pub proof fn lemma_parse_qualified_rule_advances(t: Seq<TokenView>, p: int, sel: SelectorView)
    requires
        0 <= p <= t.len(),
    ensures
        parse_qualified_rule(t, p, sel) matches Some((r, q)) ==> {
            &&& p <= q <= t.len()
            &&& p < t.len() ==> p < q
            &&& r is None ==> q == t.len()
        },
    decreases t.len() - p,
{
    if p < t.len() {
        if t[p] is OpenCurly {
            lemma_parse_declarations_advances(t, p + 1);
        } else {
            lemma_parse_selector_advances(t, p);
            match parse_selector(t, p) {
                None => {},
                Some((s, q)) => lemma_parse_qualified_rule_advances(t, q, s),
            }
        }
    }
}

/// A declaration `name : value` in a block is kept, whatever kind of token its
/// value is, ahead of the declarations that follow it.
pub proof fn lemma_declaration_kept(t: Seq<TokenView>, p: int, name: Seq<char>)
    requires
        0 <= p,
        p + 2 < t.len(),
        t[p] == TokenView::Ident(name),
        t[p + 1] is Colon,
    ensures
        parse_declaration(t, p) == Some(
            (Some(DeclarationView { property: name, value: t[p + 2] }), p + 3),
        ),
        parse_declarations(t, p) == match parse_declarations(t, p + 3) {
            Some((ds, q)) => Some(
                (seq![DeclarationView { property: name, value: t[p + 2] }] + ds, q),
            ),
            None => None::<(Seq<DeclarationView>, int)>,
        },
{
}

/// A copy of `t` with the same view.
pub fn copy_token(t: &CssToken) -> (r: CssToken)
    ensures
        r@ == t@,
{
    match t {
        CssToken::HashToken(s) => CssToken::HashToken(s.clone()),
        CssToken::Delim(c) => CssToken::Delim(*c),
        CssToken::Number(s) => CssToken::Number(s.clone()),
        CssToken::Colon => CssToken::Colon,
        CssToken::SemiColon => CssToken::SemiColon,
        CssToken::OpenParenthesis => CssToken::OpenParenthesis,
        CssToken::CloseParenthesis => CssToken::CloseParenthesis,
        CssToken::OpenCurly => CssToken::OpenCurly,
        CssToken::CloseCurly => CssToken::CloseCurly,
        CssToken::Ident(s) => CssToken::Ident(s.clone()),
        CssToken::StringToken(s) => CssToken::StringToken(s.clone()),
        CssToken::AtKeyword(s) => CssToken::AtKeyword(s.clone()),
    }
}

fn is_open_curly(t: &CssToken) -> (b: bool)
    ensures
        b == (t@ is OpenCurly),
{
    match t {
        CssToken::OpenCurly => true,
        _ => false,
    }
}

/// A parser that builds a style sheet from the tokens of a tokenizer.
#[derive(Debug)]
pub struct CssParser {
    tokens: Vec<CssToken>,
    pos: usize,
}

impl CssParser {
    #[verifier::type_invariant]
    closed spec fn inv(self) -> bool {
        self.pos <= self.tokens.len()
    }

    /// All the tokens that the parser was made with.
    pub closed spec fn token_seq(&self) -> Seq<TokenView> {
        tokens_view(self.tokens@)
    }

    /// The position of the next token to read.
    pub closed spec fn position(&self) -> int {
        self.pos as int
    }

    /// A parser over every token that `t` has still to hand out.
    pub fn new(t: CssTokenizer) -> (p: Self)
        ensures
            p.token_seq() == t@,
            p.position() == 0,
    {
        let mut t = t;
        let ghost all = t@;
        let mut tokens: Vec<CssToken> = Vec::new();
        loop
            invariant
                tokens_view(tokens@) + t@ == all,
            ensures
                tokens_view(tokens@) == all,
            decreases t@.len(),
        {
            match t.next_token() {
                Some(tok) => {
                    tokens.push(tok);
                    assert(tokens_view(tokens@) =~= tokens_view(tokens@.drop_last()).push(tok@));
                    assert(tokens_view(tokens@) + t@ =~= all);
                },
                None => {
                    assert(tokens_view(tokens@) =~= all);
                    break ;
                },
            }
        }
        CssParser { tokens, pos: 0 }
    }

    fn consume_ident(&mut self) -> (r: Option<String>)
        ensures
            final(self).token_seq() == old(self).token_seq(),
            match parse_ident(old(self).token_seq(), old(self).position()) {
                Some((s, q)) => r matches Some(v) && v@ == s && final(self).position() == q,
                None => r is None,
            },
    {
        proof {
            use_type_invariant(&*self);
        }
        if self.pos >= self.tokens.len() {
            return None;
        }
        let p = self.pos;
        let s = match &self.tokens[p] {
            CssToken::Ident(ident) => ident.clone(),
            _ => {
                return None;
            },
        };
        self.pos = p + 1;
        Some(s)
    }

    fn consume_component_value(&mut self) -> (v: ComponentValue)
        requires
            old(self).position() < old(self).token_seq().len(),
        ensures
            final(self).token_seq() == old(self).token_seq(),
            v@ == old(self).token_seq()[old(self).position()],
            final(self).position() == old(self).position() + 1,
    {
        proof {
            use_type_invariant(&*self);
        }
        let p = self.pos;
        let v = copy_token(&self.tokens[p]);
        self.pos = p + 1;
        v
    }

    fn consume_declaration(&mut self) -> (r: Option<Option<Declaration>>)
        ensures
            final(self).token_seq() == old(self).token_seq(),
            match parse_declaration(old(self).token_seq(), old(self).position()) {
                Some((d, q)) => r matches Some(x) && final(self).position() == q && match x {
                    Some(x) => d == Some(x@),
                    None => d is None,
                },
                None => r is None,
            },
    {
        proof {
            use_type_invariant(&*self);
        }
        if self.pos >= self.tokens.len() {
            return Some(None);
        }
        let property = match self.consume_ident() {
            Some(p) => p,
            None => {
                return None;
            },
        };
        proof {
            use_type_invariant(&*self);
        }
        if self.pos >= self.tokens.len() {
            return Some(None);
        }
        let is_colon = match &self.tokens[self.pos] {
            CssToken::Colon => true,
            _ => false,
        };
        self.pos = self.pos + 1;
        if !is_colon {
            return Some(None);
        }
        if self.pos >= self.tokens.len() {
            return None;
        }
        let value = self.consume_component_value();
        Some(Some(Declaration { property, value }))
    }

    fn consume_list_of_declarations(&mut self) -> (r: Option<Vec<Declaration>>)
        ensures
            final(self).token_seq() == old(self).token_seq(),
            match parse_declarations(old(self).token_seq(), old(self).position()) {
                Some((ds, q)) => r matches Some(v) && decls_view(v@) == ds && final(self).position()
                    == q,
                None => r is None,
            },
    {
        let ghost t = self.token_seq();
        let ghost p0 = self.position();
        let mut declarations: Vec<Declaration> = Vec::new();
        loop
            invariant
                t == old(self).token_seq(),
                p0 == old(self).position(),
                self.token_seq() == t,
                parse_declarations(t, self.position()) is None ==> parse_declarations(t, p0) is None,
                parse_declarations(t, self.position()) matches Some((rest, q)) ==> parse_declarations(
                    t,
                    p0,
                ) == Some((decls_view(declarations@) + rest, q)),
            decreases t.len() - self.position(),
        {
            proof {
                use_type_invariant(&*self);
            }
            let ghost p = self.position();
            if self.pos >= self.tokens.len() {
                assert(decls_view(declarations@) + Seq::<DeclarationView>::empty() =~= decls_view(
                    declarations@,
                ));
                return Some(declarations);
            }
            match &self.tokens[self.pos] {
                CssToken::CloseCurly => {
                    self.pos = self.pos + 1;
                    assert(decls_view(declarations@) + Seq::<DeclarationView>::empty()
                        =~= decls_view(declarations@));
                    return Some(declarations);
                },
                CssToken::SemiColon => {
                    self.pos = self.pos + 1;
                },
                CssToken::Ident(_) => {
                    let d = self.consume_declaration();
                    match d {
                        None => {
                            return None;
                        },
                        Some(d) => {
                            proof {
                                lemma_parse_declarations_advances(t, p);
                            }
                            match d {
                                Some(d) => {
                                    let ghost before = decls_view(declarations@);
                                    declarations.push(d);
                                    assert(decls_view(declarations@) =~= before.push(d@));
                                    assert forall|rest: Seq<DeclarationView>|
                                        #![trigger before + (seq![d@] + rest)]
                                        decls_view(declarations@) + rest =~= before + (seq![d@]
                                            + rest) by {}
                                },
                                None => {},
                            }
                        },
                    }
                },
                _ => {
                    self.pos = self.pos + 1;
                },
            }
        }
    }

    fn consume_selector(&mut self) -> (r: Option<Selector>)
        ensures
            final(self).token_seq() == old(self).token_seq(),
            match parse_selector(old(self).token_seq(), old(self).position()) {
                Some((sel, q)) => r matches Some(v) && v@ == sel && final(self).position() == q,
                None => r is None,
            },
    {
        proof {
            use_type_invariant(&*self);
        }
        if self.pos >= self.tokens.len() {
            return None;
        }
        let p = self.pos;
        let token = copy_token(&self.tokens[p]);
        self.pos = p + 1;
        match token {
            CssToken::HashToken(value) => {
                let cs = chars_of(value.as_str());
                if cs.len() == 0 || (cs[0] as u32) >= 128 {
                    return None;
                }
                Some(Selector::IdSelector(string_from(&cs, 1, cs.len())))
            },
            CssToken::Delim(delim) => {
                if delim == '.' && self.pos < self.tokens.len() && match &self.tokens[self.pos] {
                    CssToken::Ident(_) => true,
                    _ => false,
                } {
                    return match self.consume_ident() {
                        Some(class) => Some(Selector::ClassSelector(class)),
                        None => None,
                    };
                }
                Some(Selector::UnknownSelector)
            },
            CssToken::Ident(ident) => {
                if self.pos < self.tokens.len() && match &self.tokens[self.pos] {
                    CssToken::Colon => true,
                    _ => false,
                } {
                    if !self.skip_to_open_curly() {
                        return None;
                    }
                }
                Some(Selector::TypeSelector(ident))
            },
            CssToken::AtKeyword(_keyword) => {
                if !self.skip_to_open_curly() {
                    return None;
                }
                Some(Selector::UnknownSelector)
            },
            _ => {
                if self.pos < self.tokens.len() {
                    self.pos = self.pos + 1;
                }
                Some(Selector::UnknownSelector)
            },
        }
    }

    /// Moves to the next `{`; says whether there is one.
    fn skip_to_open_curly(&mut self) -> (found: bool)
        ensures
            final(self).token_seq() == old(self).token_seq(),
            found == find_open_curly(old(self).token_seq(), old(self).position()) is Some,
            found ==> find_open_curly(old(self).token_seq(), old(self).position()) == Some(
                final(self).position(),
            ),
    {
        let ghost t = self.token_seq();
        let ghost p0 = self.position();
        proof {
            use_type_invariant(&*self);
        }
        while self.pos < self.tokens.len() && !is_open_curly(&self.tokens[self.pos])
            invariant
                t == old(self).token_seq(),
                p0 == old(self).position(),
                self.token_seq() == t,
                self.pos <= self.tokens.len(),
                find_open_curly(t, self.position()) == find_open_curly(t, p0),
            decreases t.len() - self.position(),
        {
            self.pos = self.pos + 1;
        }
        self.pos < self.tokens.len()
    }

    fn consume_qualified_rule(&mut self) -> (r: Option<Option<QualifiedRule>>)
        ensures
            final(self).token_seq() == old(self).token_seq(),
            match parse_qualified_rule(
                old(self).token_seq(),
                old(self).position(),
                initial_selector(),
            ) {
                Some((rule, q)) => r matches Some(x) && final(self).position() == q && match x {
                    Some(x) => rule == Some(x@),
                    None => rule is None,
                },
                None => r is None,
            },
    {
        let ghost t = self.token_seq();
        let ghost p0 = self.position();
        let mut rule = QualifiedRule::new();
        loop
            invariant
                t == old(self).token_seq(),
                p0 == old(self).position(),
                self.token_seq() == t,
                rule.declarations@.len() == 0,
                parse_qualified_rule(t, self.position(), rule.selector@) == parse_qualified_rule(
                    t,
                    p0,
                    initial_selector(),
                ),
            decreases t.len() - self.position(),
        {
            proof {
                use_type_invariant(&*self);
            }
            if self.pos >= self.tokens.len() {
                return Some(None);
            }
            if is_open_curly(&self.tokens[self.pos]) {
                self.pos = self.pos + 1;
                match self.consume_list_of_declarations() {
                    Some(ds) => {
                        rule.declarations = ds;
                        return Some(Some(rule));
                    },
                    None => {
                        return None;
                    },
                }
            } else {
                let ghost p = self.position();
                proof {
                    lemma_parse_selector_advances(t, p);
                }
                match self.consume_selector() {
                    Some(sel) => {
                        rule.selector = sel;
                    },
                    None => {
                        return None;
                    },
                }
            }
        }
    }

    fn consume_list_of_rules(&mut self) -> (r: Option<Vec<QualifiedRule>>)
        ensures
            final(self).token_seq() == old(self).token_seq(),
            match parse_rules(old(self).token_seq(), old(self).position()) {
                Some(rs) => r matches Some(v) && rules_view(v@) == rs && final(self).position()
                    == old(self).token_seq().len(),
                None => r is None,
            },
    {
        let ghost t = self.token_seq();
        let ghost p0 = self.position();
        let mut rules: Vec<QualifiedRule> = Vec::new();
        loop
            invariant
                t == old(self).token_seq(),
                p0 == old(self).position(),
                self.token_seq() == t,
                parse_rules(t, self.position()) is None ==> parse_rules(t, p0) is None,
                parse_rules(t, self.position()) matches Some(rest) ==> parse_rules(t, p0) == Some(
                    rules_view(rules@) + rest,
                ),
            decreases t.len() - self.position(),
        {
            proof {
                use_type_invariant(&*self);
            }
            let ghost p = self.position();
            if self.pos >= self.tokens.len() {
                assert(rules_view(rules@) + Seq::<RuleView>::empty() =~= rules_view(rules@));
                return Some(rules);
            }
            let at_keyword = match &self.tokens[self.pos] {
                CssToken::AtKeyword(_) => true,
                _ => false,
            };
            proof {
                lemma_parse_qualified_rule_advances(t, p, initial_selector());
            }
            let rule = self.consume_qualified_rule();
            match rule {
                None => {
                    return None;
                },
                Some(rule) => {
                    if !at_keyword {
                        match rule {
                            Some(r) => {
                                let ghost before = rules_view(rules@);
                                rules.push(r);
                                assert(rules_view(rules@) =~= before.push(r@));
                                assert forall|rest: Seq<RuleView>|
                                    #![trigger before + (seq![r@] + rest)]
                                    rules_view(rules@) + rest =~= before + (seq![r@] + rest) by {}
                            },
                            None => {
                                assert(rules_view(rules@) + Seq::<RuleView>::empty()
                                    =~= rules_view(rules@));
                                return Some(rules);
                            },
                        }
                    }
                },
            }
        }
    }

    /// Parses the tokens from the current position to the end into a style
    /// sheet.
    pub fn parse_stylesheet(&mut self) -> (sheet: StyleSheet)
        requires
            parse_rules(old(self).token_seq(), old(self).position()) is Some,
        ensures
            final(self).token_seq() == old(self).token_seq(),
            final(self).position() == old(self).token_seq().len(),
            parse_rules(old(self).token_seq(), old(self).position()) == Some(sheet@),
    {
        let mut sheet = StyleSheet::new();
        match self.consume_list_of_rules() {
            Some(rules) => {
                sheet.rules = rules;
            },
            None => {},
        }
        sheet
    }

    /// Parses the tokens from the current position to the end into a style
    /// sheet; `None` on the token sequences on which `parse_stylesheet` would
    /// not return (see `parse_rules`).
    pub fn try_parse_stylesheet(&mut self) -> (r: Option<StyleSheet>)
        ensures
            final(self).token_seq() == old(self).token_seq(),
            match parse_rules(old(self).token_seq(), old(self).position()) {
                Some(rs) => r matches Some(sheet) && sheet@ == rs && final(self).position()
                    == old(self).token_seq().len(),
                None => r is None,
            },
    {
        match self.consume_list_of_rules() {
            Some(rules) => {
                let mut sheet = StyleSheet::new();
                sheet.rules = rules;
                Some(sheet)
            },
            None => None,
        }
    }
}

impl Clone for CssParser {
    /// A parser over the same tokens, at the same position.
    fn clone(&self) -> (r: Self)
        ensures
            r.token_seq() == self.token_seq(),
            r.position() == self.position(),
    {
        proof {
            use_type_invariant(self);
        }
        let mut tokens: Vec<CssToken> = Vec::new();
        let mut i: usize = 0;
        while i < self.tokens.len()
            invariant
                i <= self.tokens.len(),
                tokens@.len() == i,
                forall|j: int| 0 <= j < i ==> (#[trigger] tokens@[j])@ == self.tokens@[j]@,
            decreases self.tokens.len() - i,
        {
            tokens.push(copy_token(&self.tokens[i]));
            i = i + 1;
        }
        assert(tokens_view(tokens@) =~= tokens_view(self.tokens@));
        CssParser { tokens, pos: self.pos }
    }
}

impl StyleSheet {
    /// An empty style sheet.
    pub fn new() -> (s: Self)
        ensures
            s@ == Seq::<RuleView>::empty(),
    {
        let s = StyleSheet { rules: Vec::new() };
        assert(s@ =~= Seq::<RuleView>::empty());
        s
    }
}

impl QualifiedRule {
    /// A rule with an empty type selector and no declarations.
    pub fn new() -> (r: Self)
        ensures
            r.selector@ == initial_selector(),
            r.declarations@.len() == 0,
            r@.declarations == Seq::<DeclarationView>::empty(),
    {
        let r = QualifiedRule { selector: Selector::TypeSelector(String::new()), declarations: Vec::new() };
        assert(r@.declarations =~= Seq::<DeclarationView>::empty());
        r
    }
}

impl Declaration {
    /// A declaration with an empty property and an empty identifier as value.
    pub fn new() -> (d: Self)
        ensures
            d@.property == Seq::<char>::empty(),
            d@.value == TokenView::Ident(Seq::empty()),
    {
        Declaration { property: String::new(), value: CssToken::Ident(String::new()) }
    }
}

} // verus!
