//! Computed styles: colors, display types, font sizes, and defaulting.
use vstd::prelude::*;

use crate::dom::{ElementKind, NodeKind, NodeView};

verus! {

/// A color: the name it was given by, if any, and its `#rrggbb` code.
#[derive(Debug, Clone, PartialEq)]
pub struct Color {
    name: Option<String>,
    code: String,
}

pub struct ColorView {
    pub name: Option<Seq<char>>,
    pub code: Seq<char>,
}

impl View for Color {
    type V = ColorView;

    closed spec fn view(&self) -> ColorView {
        ColorView {
            name: match self.name {
                Some(n) => Some(n@),
                None => None,
            },
            code: self.code@,
        }
    }
}

/// The named colors and their codes.
pub open spec fn color_table() -> Seq<(Seq<char>, Seq<char>)> {
    seq![
        ("black"@, "#000000"@),
        ("silver"@, "#c0c0c0"@),
        ("gray"@, "#808080"@),
        ("white"@, "#ffffff"@),
        ("maroon"@, "#800000"@),
        ("red"@, "#ff0000"@),
        ("purple"@, "#800080"@),
        ("fuchsia"@, "#ff00ff"@),
        ("green"@, "#008000"@),
        ("lime"@, "#00ff00"@),
        ("olive"@, "#808000"@),
        ("yellow"@, "#ffff00"@),
        ("navy"@, "#000080"@),
        ("blue"@, "#0000ff"@),
        ("teal"@, "#008080"@),
        ("aqua"@, "#00ffff"@),
        ("orange"@, "#ffa500"@),
        ("lightgray"@, "#d3d3d3"@),
    ]
}

/// The second component of the first pair of `t` whose first component is `key`
/// (`by_second` swaps the roles of the components).
pub open spec fn table_lookup(t: Seq<(Seq<char>, Seq<char>)>, key: Seq<char>, by_second: bool) -> Option<
    Seq<char>,
>
    decreases t.len(),
{
    if t.len() == 0 {
        None
    } else if (if by_second {
        t[0].1
    } else {
        t[0].0
    }) == key {
        Some(
            if by_second {
                t[0].0
            } else {
                t[0].1
            },
        )
    } else {
        table_lookup(t.drop_first(), key, by_second)
    }
}

/// The color named `name`, if the table has it.
pub open spec fn color_from_name(name: Seq<char>) -> Option<ColorView> {
    match table_lookup(color_table(), name, false) {
        Some(code) => Some(ColorView { name: Some(name), code }),
        None => None,
    }
}

/// The color with code `code`, if the table has it.
pub open spec fn color_from_code(code: Seq<char>) -> Option<ColorView> {
    match table_lookup(color_table(), code, true) {
        Some(name) => Some(ColorView { name: Some(name), code }),
        None => None,
    }
}

pub open spec fn white_view() -> ColorView {
    ColorView { name: Some("white"@), code: "#ffffff"@ }
}

pub open spec fn black_view() -> ColorView {
    ColorView { name: Some("black"@), code: "#000000"@ }
}

fn color_table_exec() -> (t: Vec<(String, String)>)
    ensures
        t@.len() == color_table().len(),
        forall|i: int|
            0 <= i < t@.len() ==> (#[trigger] t@[i]).0@ == color_table()[i].0 && t@[i].1@
                == color_table()[i].1,
{
    broadcast use vstd::string::group_string_axioms;

    let t = vec![
        ("black".to_string(), "#000000".to_string()),
        ("silver".to_string(), "#c0c0c0".to_string()),
        ("gray".to_string(), "#808080".to_string()),
        ("white".to_string(), "#ffffff".to_string()),
        ("maroon".to_string(), "#800000".to_string()),
        ("red".to_string(), "#ff0000".to_string()),
        ("purple".to_string(), "#800080".to_string()),
        ("fuchsia".to_string(), "#ff00ff".to_string()),
        ("green".to_string(), "#008000".to_string()),
        ("lime".to_string(), "#00ff00".to_string()),
        ("olive".to_string(), "#808000".to_string()),
        ("yellow".to_string(), "#ffff00".to_string()),
        ("navy".to_string(), "#000080".to_string()),
        ("blue".to_string(), "#0000ff".to_string()),
        ("teal".to_string(), "#008080".to_string()),
        ("aqua".to_string(), "#00ffff".to_string()),
        ("orange".to_string(), "#ffa500".to_string()),
        ("lightgray".to_string(), "#d3d3d3".to_string()),
    ];
    t
}

fn lookup_exec(key: &String, by_second: bool) -> (r: Option<String>)
    ensures
        match r {
            Some(s) => table_lookup(color_table(), key@, by_second) == Some(s@),
            None => table_lookup(color_table(), key@, by_second) is None,
        },
{
    let t = color_table_exec();
    let ghost spec_t = color_table();
    let mut i: usize = 0;
    assert(spec_t.skip(0) =~= spec_t);
    while i < t.len()
        invariant
            i <= t@.len() == spec_t.len(),
            spec_t == color_table(),
            forall|j: int|
                0 <= j < t@.len() ==> (#[trigger] t@[j]).0@ == spec_t[j].0 && t@[j].1@
                    == spec_t[j].1,
            table_lookup(spec_t.skip(i as int), key@, by_second) == table_lookup(
                spec_t,
                key@,
                by_second,
            ),
        decreases t.len() - i,
    {
        assert(spec_t.skip(i as int).drop_first() =~= spec_t.skip(i + 1));
        assert(spec_t.skip(i as int)[0] == spec_t[i as int]);
        let (a, b) = &t[i];
        let probe = if by_second {
            b
        } else {
            a
        };
        if *probe == *key {
            return Some(
                if by_second {
                    a.clone()
                } else {
                    b.clone()
                },
            );
        }
        i = i + 1;
    }
    assert(spec_t.skip(i as int).len() == 0);
    None
}

impl Color {
    /// The color named `name`, where the table of named colors has it.
    pub fn from_name(name: &str) -> (c: Option<Color>)
        ensures
            match c {
                Some(c) => color_from_name(name@) == Some(c@),
                None => color_from_name(name@) is None,
            },
    {
        broadcast use vstd::string::group_string_axioms;

        let n = name.to_string();
        match lookup_exec(&n, false) {
            Some(code) => Some(Color { name: Some(n), code }),
            None => None,
        }
    }

    /// The color with the code `code`, where the table of named colors has it.
    pub fn from_code(code: &str) -> (c: Option<Color>)
        ensures
            match c {
                Some(c) => color_from_code(code@) == Some(c@),
                None => color_from_code(code@) is None,
            },
    {
        broadcast use vstd::string::group_string_axioms;

        let k = code.to_string();
        match lookup_exec(&k, true) {
            Some(name) => Some(Color { name: Some(name), code: k }),
            None => None,
        }
    }

    pub fn white() -> (c: Color)
        ensures
            c@ == white_view(),
    {
        broadcast use vstd::string::group_string_axioms;

        Color { name: Some("white".to_string()), code: "#ffffff".to_string() }
    }

    pub fn black() -> (c: Color)
        ensures
            c@ == black_view(),
    {
        broadcast use vstd::string::group_string_axioms;

        Color { name: Some("black".to_string()), code: "#000000".to_string() }
    }

    /// The `#rrggbb` code of this color.
    pub fn code(&self) -> (s: String)
        ensures
            s@ == self@.code,
    {
        self.code.clone()
    }

    /// A copy of this color.
    pub fn copy(&self) -> (c: Color)
        ensures
            c@ == self@,
    {
        Color {
            name: match &self.name {
                Some(n) => Some(n.clone()),
                None => None,
            },
            code: self.code.clone(),
        }
    }

    /// Whether the two colors have the same name and code.
    pub fn same_as(&self, other: &Color) -> (b: bool)
        ensures
            b == (self@ == other@),
    {
        let names = match (&self.name, &other.name) {
            (Some(a), Some(b)) => *a == *b,
            (None, None) => true,
            _ => false,
        };
        names && self.code == other.code
    }
}

/// How an element takes part in layout.
#[derive(Debug, Clone, Copy, PartialEq, Eq, Structural)]
pub enum DisplayType {
    Block,
    Inline,
    DisplayNone,
}

/// The display type that the value `s` of the `display` property names.
pub open spec fn display_from_name(s: Seq<char>) -> Option<DisplayType> {
    if s == "block"@ {
        Some(DisplayType::Block)
    } else if s == "inline"@ {
        Some(DisplayType::Inline)
    } else if s == "none"@ {
        Some(DisplayType::DisplayNone)
    } else {
        None
    }
}

/// The elements laid out as blocks unless a style says otherwise.
pub open spec fn is_block_element(k: ElementKind) -> bool {
    k == ElementKind::Body || k == ElementKind::H1 || k == ElementKind::H2 || k == ElementKind::P
}

/// The initial display type of a node.
pub open spec fn display_default(node: NodeView) -> DisplayType {
    match node {
        NodeView::Document => DisplayType::Block,
        NodeView::Element(k, _) => if is_block_element(k) {
            DisplayType::Block
        } else {
            DisplayType::Inline
        },
        NodeView::Text(_) => DisplayType::Inline,
    }
}

impl DisplayType {
    /// The display type named by `s` (`block`, `inline` or `none`).
    pub fn from_str(s: &str) -> (d: Option<DisplayType>)
        ensures
            d == display_from_name(s@),
    {
        broadcast use vstd::string::group_string_axioms;

        let v = s.to_string();
        if v == "block".to_string() {
            Some(DisplayType::Block)
        } else if v == "inline".to_string() {
            Some(DisplayType::Inline)
        } else if v == "none".to_string() {
            Some(DisplayType::DisplayNone)
        } else {
            None
        }
    }

    /// The initial display type of `node`.
    pub fn default_for(node: &NodeKind) -> (d: DisplayType)
        ensures
            d == display_default(node@),
    {
        match node {
            NodeKind::Document => DisplayType::Block,
            NodeKind::Element(e) => {
                if e.kind == ElementKind::Body || e.kind == ElementKind::H1 || e.kind
                    == ElementKind::H2 || e.kind == ElementKind::P {
                    DisplayType::Block
                } else {
                    DisplayType::Inline
                }
            },
            NodeKind::Text(_) => DisplayType::Inline,
        }
    }
}

/// The font sizes of text.
#[derive(Debug, Clone, Copy, PartialEq, Eq, Structural)]
pub enum FontSize {
    Medium,
    XLarge,
    XXLarge,
}

/// The initial font size of a node: headings are larger.
pub open spec fn font_size_default(node: NodeView) -> FontSize {
    match node {
        NodeView::Element(k, _) => if k == ElementKind::H1 {
            FontSize::XXLarge
        } else if k == ElementKind::H2 {
            FontSize::XLarge
        } else {
            FontSize::Medium
        },
        _ => FontSize::Medium,
    }
}

impl FontSize {
    /// The initial font size of `node`.
    pub fn default_for(node: &NodeKind) -> (f: FontSize)
        ensures
            f == font_size_default(node@),
    {
        match node {
            NodeKind::Element(e) => {
                if e.kind == ElementKind::H1 {
                    FontSize::XXLarge
                } else if e.kind == ElementKind::H2 {
                    FontSize::XLarge
                } else {
                    FontSize::Medium
                }
            },
            _ => FontSize::Medium,
        }
    }
}

/// The values of the CSS properties of a layout object; `None` where no value
/// has been given yet.
#[derive(Debug, Clone, PartialEq)]
pub struct ComputedStyle {
    background_color: Option<Color>,
    color: Option<Color>,
    display: Option<DisplayType>,
    font_size: Option<FontSize>,
}

pub struct StyleView {
    pub background_color: Option<ColorView>,
    pub color: Option<ColorView>,
    pub display: Option<DisplayType>,
    pub font_size: Option<FontSize>,
}

pub open spec fn color_opt_view(c: Option<Color>) -> Option<ColorView> {
    match c {
        Some(c) => Some(c@),
        None => None,
    }
}

impl View for ComputedStyle {
    type V = StyleView;

    closed spec fn view(&self) -> StyleView {
        StyleView {
            background_color: color_opt_view(self.background_color),
            color: color_opt_view(self.color),
            display: self.display,
            font_size: self.font_size,
        }
    }
}

/// A style with no property set.
pub open spec fn empty_style() -> StyleView {
    StyleView { background_color: None, color: None, display: None, font_size: None }
}

/// A style in which every property has a value.
pub open spec fn is_complete(s: StyleView) -> bool {
    &&& s.background_color is Some
    &&& s.color is Some
    &&& s.display is Some
    &&& s.font_size is Some
}

/// A style that has a value for every property that a child may inherit.
pub open spec fn has_inherited_values(s: StyleView) -> bool {
    &&& s.background_color is Some
    &&& s.color is Some
    &&& s.font_size is Some
}

pub open spec fn or_default<T>(o: Option<T>, d: T) -> T {
    match o {
        Some(v) => v,
        None => d,
    }
}

/// A property left unset takes the parent's value where that differs from the
/// initial value.
pub open spec fn inherit<T>(own: Option<T>, parent: T, initial: T) -> Option<T> {
    if own is None && parent != initial {
        Some(parent)
    } else {
        own
    }
}

/// The style `s` after defaulting: inheriting from the parent's style,
/// then giving each property still unset its initial value.
pub open spec fn defaulted(s: StyleView, node: NodeView, parent: Option<StyleView>) -> StyleView {
    let t = match parent {
        Some(p) => StyleView {
            background_color: inherit(
                s.background_color,
                p.background_color->0,
                white_view(),
            ),
            color: inherit(s.color, p.color->0, black_view()),
            display: s.display,
            font_size: inherit(s.font_size, p.font_size->0, FontSize::Medium),
        },
        None => s,
    };
    StyleView {
        background_color: Some(or_default(t.background_color, white_view())),
        color: Some(or_default(t.color, black_view())),
        display: Some(or_default(t.display, display_default(node))),
        font_size: Some(or_default(t.font_size, font_size_default(node))),
    }
}

impl ComputedStyle {
    /// A style with no property set.
    pub fn new() -> (s: Self)
        ensures
            s@ == empty_style(),
    {
        ComputedStyle { background_color: None, color: None, display: None, font_size: None }
    }

    /// A copy of this style.
    pub fn copy(&self) -> (s: Self)
        ensures
            s@ == self@,
    {
        ComputedStyle {
            background_color: match &self.background_color {
                Some(c) => Some(c.copy()),
                None => None,
            },
            color: match &self.color {
                Some(c) => Some(c.copy()),
                None => None,
            },
            display: self.display,
            font_size: self.font_size,
        }
    }

    pub fn set_background_color(&mut self, color: Color)
        ensures
            final(self)@ == (StyleView { background_color: Some(color@), ..old(self)@ }),
    {
        self.background_color = Some(color);
    }

    pub fn background_color(&self) -> (c: Color)
        requires
            self@.background_color is Some,
        ensures
            c@ == self@.background_color->0,
    {
        match &self.background_color {
            Some(c) => c.copy(),
            None => Color::white(),
        }
    }

    pub fn set_color(&mut self, color: Color)
        ensures
            final(self)@ == (StyleView { color: Some(color@), ..old(self)@ }),
    {
        self.color = Some(color);
    }

    pub fn color(&self) -> (c: Color)
        requires
            self@.color is Some,
        ensures
            c@ == self@.color->0,
    {
        match &self.color {
            Some(c) => c.copy(),
            None => Color::black(),
        }
    }

    pub fn set_display(&mut self, display: DisplayType)
        ensures
            final(self)@ == (StyleView { display: Some(display), ..old(self)@ }),
    {
        self.display = Some(display);
    }

    pub fn display(&self) -> (d: DisplayType)
        requires
            self@.display is Some,
        ensures
            d == self@.display->0,
    {
        match self.display {
            Some(d) => d,
            None => DisplayType::Block,
        }
    }

    pub fn set_font_size(&mut self, font_size: FontSize)
        ensures
            final(self)@ == (StyleView { font_size: Some(font_size), ..old(self)@ }),
    {
        self.font_size = Some(font_size);
    }

    pub fn font_size(&self) -> (f: FontSize)
        requires
            self@.font_size is Some,
        ensures
            f == self@.font_size->0,
    {
        match self.font_size {
            Some(f) => f,
            None => FontSize::Medium,
        }
    }

    /// Gives every unset property a value: the parent's where it is inherited and
    /// differs from the initial value, else the initial value for `node`.
    pub fn defaulting(&mut self, node: &NodeKind, parent_style: Option<ComputedStyle>)
        requires
            parent_style matches Some(p) ==> has_inherited_values(p@),
        ensures
            final(self)@ == defaulted(
                old(self)@,
                node@,
                match parent_style {
                    Some(p) => Some(p@),
                    None => None,
                },
            ),
    {
        if let Some(parent_style) = parent_style {
            if self.background_color.is_none() && !parent_style.background_color().same_as(
                &Color::white(),
            ) {
                self.background_color = Some(parent_style.background_color());
            }
            if self.color.is_none() && !parent_style.color().same_as(&Color::black()) {
                self.color = Some(parent_style.color());
            }
            if self.font_size.is_none() && parent_style.font_size() != FontSize::Medium {
                self.font_size = Some(parent_style.font_size());
            }
        }
        if self.background_color.is_none() {
            self.background_color = Some(Color::white());
        }
        if self.color.is_none() {
            self.color = Some(Color::black());
        }
        if self.display.is_none() {
            self.display = Some(DisplayType::default_for(node));
        }
        if self.font_size.is_none() {
            self.font_size = Some(FontSize::default_for(node));
        }
    }
}

/// Defaulting gives every property a value.
pub proof fn lemma_defaulted_is_complete(s: StyleView, node: NodeView, parent: Option<StyleView>)
    ensures
        is_complete(defaulted(s, node, parent)),
{
}

/// Defaulting keeps every property that already has a value.
pub proof fn lemma_defaulted_keeps_values(s: StyleView, node: NodeView, parent: Option<StyleView>)
    ensures
        s.background_color is Some ==> defaulted(s, node, parent).background_color
            == s.background_color,
        s.color is Some ==> defaulted(s, node, parent).color == s.color,
        s.display is Some ==> defaulted(s, node, parent).display == s.display,
        s.font_size is Some ==> defaulted(s, node, parent).font_size == s.font_size,
{
}

/// Defaulting a style that was defaulted changes nothing.
pub proof fn lemma_defaulted_idempotent(s: StyleView, node: NodeView, parent: Option<StyleView>)
    ensures
        defaulted(defaulted(s, node, parent), node, parent) == defaulted(s, node, parent),
{
}

/// The display is never inherited: a style without one gets the node's initial
/// display, whatever the parent's.
pub proof fn lemma_display_not_inherited(s: StyleView, node: NodeView, parent: Option<StyleView>)
    requires
        s.display is None,
    ensures
        defaulted(s, node, parent).display == Some(display_default(node)),
{
}

} // verus!
