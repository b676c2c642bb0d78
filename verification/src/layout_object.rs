//! Layout objects: how a node is styled by the rules that select it, and its
//! size, position and display items.
use vstd::prelude::*;

use crate::constants::{
    CHAR_HEIGHT_WITH_PADDING, CHAR_WIDTH, CONTENT_AREA_WIDTH, WINDOW_PADDING, WINDOW_WIDTH,
};
use crate::display_item::{items_view, DisplayItem, DisplayItemView};
use crate::text::{
    char_index_at_byte, char_utf8_width_exec, chars_of, is_byte_boundary, lemma_char_index_at_byte,
    lemma_utf8_len_encode, lemma_utf8_len_nonneg, lemma_utf8_len_take,
    normalize_spaces, normalize_spaces_exec, trim, trimmed_from, utf8_len,
};
use crate::cssom::{
    decls_view, Declaration, DeclarationView, RuleView, Selector, SelectorView, StyleSheet,
};
use crate::dom::{attributes_view, element_kind_name, Attribute, NodeKind, NodeView};
use crate::style::{
    black_view, color_from_code, color_from_name, defaulted, display_from_name, empty_style,
    has_inherited_values, is_complete, or_default, white_view, Color, ComputedStyle, DisplayType, FontSize, StyleView,
};
use crate::token::{CssToken, TokenView};

verus! {

/// How a layout object is laid out.
#[derive(Debug, Copy, Clone, PartialEq, Eq, Structural)]
pub enum LayoutObjectKind {
    Block,
    Inline,
    Text,
}

/// A point on the page.
#[derive(Debug, Clone, PartialEq, Eq, Copy, Structural)]
pub struct LayoutPoint {
    pub x: i64,
    pub y: i64,
}

/// The size of a box on the page.
#[derive(Debug, Clone, PartialEq, Eq, Copy, Structural)]
pub struct LayoutSize {
    pub width: i64,
    pub height: i64,
}

/// A box of the layout tree.
///
/// The layout objects of a tree live in a `Vec<LayoutObject>` that the caller
/// owns; `first_child`, `next_sibling` and `parent` are indices into it.
#[derive(Debug, Clone)]
pub struct LayoutObject {
    kind: LayoutObjectKind,
    node: NodeKind,
    first_child: Option<usize>,
    next_sibling: Option<usize>,
    parent: Option<usize>,
    style: ComputedStyle,
    point: LayoutPoint,
    size: LayoutSize,
}

pub struct LayoutObjectView {
    pub kind: LayoutObjectKind,
    pub node: NodeView,
    pub first_child: Option<usize>,
    pub next_sibling: Option<usize>,
    pub parent: Option<usize>,
    pub style: StyleView,
    pub point: LayoutPoint,
    pub size: LayoutSize,
}

impl View for LayoutObject {
    type V = LayoutObjectView;

    closed spec fn view(&self) -> LayoutObjectView {
        LayoutObjectView {
            kind: self.kind,
            node: self.node@,
            first_child: self.first_child,
            next_sibling: self.next_sibling,
            parent: self.parent,
            style: self.style@,
            point: self.point,
            size: self.size,
        }
    }
}

pub open spec fn objects_view(v: Seq<LayoutObject>) -> Seq<LayoutObjectView> {
    v.map_values(|o: LayoutObject| o@)
}

// ---------------------------------------------------------------------------
// Selecting and styling
/// Whether `attrs` has an attribute `name` with the value `value`.
pub open spec fn has_attribute(
    attrs: Seq<(Seq<char>, Seq<char>)>,
    name: Seq<char>,
    value: Seq<char>,
) -> bool {
    exists|i: int| 0 <= i < attrs.len() && #[trigger] attrs[i] == (name, value)
}

/// Whether `selector` selects the node `node`.
pub open spec fn selects(node: NodeView, selector: SelectorView) -> bool {
    match node {
        NodeView::Element(kind, attrs) => match selector {
            SelectorView::TypeSelector(name) => element_kind_name(kind) == name,
            SelectorView::ClassSelector(name) => has_attribute(attrs, "class"@, name),
            SelectorView::IdSelector(name) => has_attribute(attrs, "id"@, name),
            SelectorView::UnknownSelector => false,
        },
        _ => false,
    }
}

/// The style `s` after the declaration `d`.
pub open spec fn apply_declaration(s: StyleView, d: DeclarationView) -> StyleView {
    if d.property == "background-color"@ {
        match d.value {
            TokenView::Ident(v) => StyleView {
                background_color: Some(or_default(color_from_name(v), white_view())),
                ..s
            },
            TokenView::HashToken(c) => StyleView {
                background_color: Some(or_default(color_from_code(c), white_view())),
                ..s
            },
            _ => s,
        }
    } else if d.property == "color"@ {
        match d.value {
            TokenView::Ident(v) => StyleView {
                color: Some(or_default(color_from_name(v), black_view())),
                ..s
            },
            TokenView::HashToken(c) => StyleView {
                color: Some(or_default(color_from_code(c), black_view())),
                ..s
            },
            _ => s,
        }
    } else if d.property == "display"@ {
        match d.value {
            TokenView::Ident(v) => StyleView {
                display: Some(or_default(display_from_name(v), DisplayType::DisplayNone)),
                ..s
            },
            _ => s,
        }
    } else {
        s
    }
}

/// The style `s` after the declarations `ds`, in order.
pub open spec fn cascade(s: StyleView, ds: Seq<DeclarationView>) -> StyleView
    decreases ds.len(),
{
    if ds.len() == 0 {
        s
    } else {
        apply_declaration(cascade(s, ds.drop_last()), ds.last())
    }
}

/// The style `s` after the declarations of every rule of `rules` that selects
/// `node`, rule by rule.
pub open spec fn cascade_rules(s: StyleView, node: NodeView, rules: Seq<RuleView>) -> StyleView
    decreases rules.len(),
{
    if rules.len() == 0 {
        s
    } else {
        let before = cascade_rules(s, node, rules.drop_last());
        if selects(node, rules.last().selector) {
            cascade(before, rules.last().declarations)
        } else {
            before
        }
    }
}

/// The kind of layout object that a node with display `display` gets.
pub open spec fn kind_for(node: NodeView, display: DisplayType) -> LayoutObjectKind {
    match node {
        NodeView::Text(_) => LayoutObjectKind::Text,
        _ => if display == DisplayType::Inline {
            LayoutObjectKind::Inline
        } else {
            LayoutObjectKind::Block
        },
    }
}

pub open spec fn origin() -> LayoutPoint {
    LayoutPoint { x: 0, y: 0 }
}

pub open spec fn zero_size() -> LayoutSize {
    LayoutSize { width: 0, height: 0 }
}

/// The layout object made for `node` under the parent `parent` whose style is
/// `parent_style`, with the rules `rules`; `None` where its display is `none`.
pub open spec fn layout_object_for(
    node: NodeView,
    parent: Option<usize>,
    parent_style: Option<StyleView>,
    rules: Seq<RuleView>,
) -> Option<LayoutObjectView> {
    let style = defaulted(cascade_rules(empty_style(), node, rules), node, parent_style);
    if style.display == Some(DisplayType::DisplayNone) {
        None
    } else {
        Some(
            LayoutObjectView {
                kind: kind_for(node, style.display->0),
                node,
                first_child: None,
                next_sibling: None,
                parent,
                style,
                point: origin(),
                size: zero_size(),
            },
        )
    }
}

// ---------------------------------------------------------------------------
// Sizes
/// The sibling chain from `c` stays inside `objs` and ends within `fuel`
/// objects.
pub open spec fn chain_ends_within(objs: Seq<LayoutObjectView>, c: Option<usize>, fuel: nat) -> bool
    decreases fuel,
{
    match c {
        None => true,
        Some(i) => fuel > 0 && i < objs.len() && chain_ends_within(
            objs,
            objs[i as int].next_sibling,
            (fuel - 1) as nat,
        ),
    }
}

/// The sibling chain from `c` stays inside `objs` and ends: it has no cycle.
pub open spec fn is_finite_chain(objs: Seq<LayoutObjectView>, c: Option<usize>) -> bool {
    chain_ends_within(objs, c, objs.len())
}

/// The kind and size of each of the first `fuel` objects of the sibling chain
/// from `c`, in order.
pub open spec fn chain_entries_within(
    objs: Seq<LayoutObjectView>,
    c: Option<usize>,
    fuel: nat,
) -> Seq<(LayoutObjectKind, LayoutSize)>
    decreases fuel,
{
    match c {
        None => Seq::empty(),
        Some(i) => if fuel > 0 && i < objs.len() {
            seq![(objs[i as int].kind, objs[i as int].size)] + chain_entries_within(
                objs,
                objs[i as int].next_sibling,
                (fuel - 1) as nat,
            )
        } else {
            Seq::empty()
        },
    }
}

/// The kind and size of each object of the sibling chain from `c`, in order.
pub open spec fn chain_entries(objs: Seq<LayoutObjectView>, c: Option<usize>) -> Seq<
    (LayoutObjectKind, LayoutSize),
> {
    chain_entries_within(objs, c, objs.len())
}

/// The height that child `j` adds to a block: children stack, except that an
/// inline child following an inline child shares its line.
pub open spec fn block_share(e: Seq<(LayoutObjectKind, LayoutSize)>, j: int) -> int {
    if j == 0 || e[j - 1].0 == LayoutObjectKind::Block || e[j].0 == LayoutObjectKind::Block {
        e[j].1.height as int
    } else {
        0
    }
}

/// The height of a block with the children `e`.
pub open spec fn block_height(e: Seq<(LayoutObjectKind, LayoutSize)>) -> int
    decreases e.len(),
{
    if e.len() == 0 {
        0
    } else {
        block_height(e.drop_last()) + block_share(e, e.len() - 1)
    }
}

/// The sum of the widths of `e`.
pub open spec fn total_width(e: Seq<(LayoutObjectKind, LayoutSize)>) -> int
    decreases e.len(),
{
    if e.len() == 0 {
        0
    } else {
        total_width(e.drop_last()) + e.last().1.width
    }
}

/// The sum of the heights of `e`.
pub open spec fn total_height(e: Seq<(LayoutObjectKind, LayoutSize)>) -> int
    decreases e.len(),
{
    if e.len() == 0 {
        0
    } else {
        total_height(e.drop_last()) + e.last().1.height
    }
}

pub open spec fn fits_i64(v: int) -> bool {
    i64::MIN <= v <= i64::MAX
}

/// Text of a font size is this many times as large as medium text.
pub open spec fn font_ratio(f: FontSize) -> int {
    match f {
        FontSize::Medium => 1,
        FontSize::XLarge => 2,
        FontSize::XXLarge => 3,
    }
}

/// The size of a text of `len` bytes in a font `ratio` times as large as medium:
/// one line if it fits in the content area, else as many full-width lines as it
/// takes.
pub open spec fn text_size(len: int, ratio: int) -> LayoutSize {
    let width = CHAR_WIDTH * ratio * len;
    if width > CONTENT_AREA_WIDTH {
        let line_num = if width % (CONTENT_AREA_WIDTH as int) == 0 {
            width / (CONTENT_AREA_WIDTH as int)
        } else {
            width / (CONTENT_AREA_WIDTH as int) + 1
        };
        LayoutSize {
            width: CONTENT_AREA_WIDTH,
            height: (CHAR_HEIGHT_WITH_PADDING * ratio * line_num) as i64,
        }
    } else {
        LayoutSize { width: width as i64, height: (CHAR_HEIGHT_WITH_PADDING * ratio) as i64 }
    }
}

/// The inputs on which `compute_size` returns: the chain of children ends inside
/// the objects and the running sums fit in `i64`; a text object has a text node, a font size,
/// and a width that fits.
pub open spec fn size_computable(o: LayoutObjectView, objs: Seq<LayoutObjectView>) -> bool {
    match o.kind {
        LayoutObjectKind::Block => {
            &&& is_finite_chain(objs, o.first_child)
            &&& forall|k: int|
                0 <= k <= chain_entries(objs, o.first_child).len() ==> fits_i64(
                    #[trigger] block_height(chain_entries(objs, o.first_child).take(k)),
                )
        },
        LayoutObjectKind::Inline => {
            &&& is_finite_chain(objs, o.first_child)
            &&& forall|k: int|
                0 <= k <= chain_entries(objs, o.first_child).len() ==> fits_i64(
                    #[trigger] total_width(chain_entries(objs, o.first_child).take(k)),
                ) && fits_i64(total_height(chain_entries(objs, o.first_child).take(k)))
        },
        LayoutObjectKind::Text => match o.node {
            NodeView::Text(t) => o.style.font_size is Some && utf8_len(t) <= usize::MAX
                && CHAR_WIDTH * font_ratio(o.style.font_size->0) * utf8_len(t) <= i64::MAX,
            _ => false,
        },
    }
}

/// The size that `compute_size` gives `o` inside a parent of size `parent_size`.
pub open spec fn computed_size(
    o: LayoutObjectView,
    parent_size: LayoutSize,
    objs: Seq<LayoutObjectView>,
) -> LayoutSize {
    match o.kind {
        LayoutObjectKind::Block => LayoutSize {
            width: parent_size.width,
            height: block_height(chain_entries(objs, o.first_child)) as i64,
        },
        LayoutObjectKind::Inline => LayoutSize {
            width: total_width(chain_entries(objs, o.first_child)) as i64,
            height: total_height(chain_entries(objs, o.first_child)) as i64,
        },
        LayoutObjectKind::Text => match o.node {
            NodeView::Text(t) => text_size(utf8_len(t), font_ratio(o.style.font_size->0)),
            _ => zero_size(),
        },
    }
}

// ---------------------------------------------------------------------------
// Positions
/// The inputs on which `compute_position` returns: the coordinate it adds fits.
pub open spec fn position_computable(
    kind: LayoutObjectKind,
    previous_sibling_kind: LayoutObjectKind,
    previous_sibling_point: Option<LayoutPoint>,
    previous_sibling_size: Option<LayoutSize>,
) -> bool {
    match (previous_sibling_size, previous_sibling_point) {
        (Some(size), Some(point)) => if kind == LayoutObjectKind::Block || previous_sibling_kind
            == LayoutObjectKind::Block {
            fits_i64(point.y + size.height)
        } else if kind == LayoutObjectKind::Inline && previous_sibling_kind
            == LayoutObjectKind::Inline {
            fits_i64(point.x + size.width)
        } else {
            true
        },
        _ => true,
    }
}

/// Where an object goes: below a previous sibling when either of them is a block,
/// to the right of a previous inline sibling when both are inline, else at the
/// parent's point.
pub open spec fn position_for(
    kind: LayoutObjectKind,
    parent_point: LayoutPoint,
    previous_sibling_kind: LayoutObjectKind,
    previous_sibling_point: Option<LayoutPoint>,
    previous_sibling_size: Option<LayoutSize>,
) -> LayoutPoint {
    match (previous_sibling_size, previous_sibling_point) {
        (Some(size), Some(point)) => if kind == LayoutObjectKind::Block || previous_sibling_kind
            == LayoutObjectKind::Block {
            LayoutPoint { x: parent_point.x, y: (point.y + size.height) as i64 }
        } else if kind == LayoutObjectKind::Inline && previous_sibling_kind
            == LayoutObjectKind::Inline {
            LayoutPoint { x: (point.x + size.width) as i64, y: point.y }
        } else {
            parent_point
        },
        _ => parent_point,
    }
}

// ---------------------------------------------------------------------------
// Painting
/// The widest a line of text may be.
pub open spec fn line_width_limit() -> int {
    WINDOW_WIDTH + WINDOW_PADDING
}

/// The index of the last space of `s` before index `m`, or -1.
pub open spec fn last_space_before(s: Seq<char>, m: int) -> int
    decreases m,
{
    if m <= 0 {
        -1
    } else if m - 1 < s.len() && s[m - 1] == ' ' {
        m - 1
    } else {
        last_space_before(s, m - 1)
    }
}

/// Where a line that may hold `m` characters breaks: at its last space before
/// `m`, else at `m`.
pub open spec fn line_break_index(s: Seq<char>, m: int) -> int {
    if last_space_before(s, m) >= 0 {
        last_space_before(s, m)
    } else {
        m
    }
}

/// A text of characters `char_width` wide is too wide for one line.
pub open spec fn needs_break(s: Seq<char>, char_width: int) -> bool {
    utf8_len(s) * char_width > line_width_limit()
}

/// The break index, taken as a byte offset, as a character index.
pub open spec fn break_char_index(s: Seq<char>, char_width: int) -> int {
    char_index_at_byte(s, line_break_index(s, line_width_limit() / char_width))
}

/// What is left of `s` after its first line, without white space at its ends.
pub open spec fn split_rest(s: Seq<char>, char_width: int) -> Seq<char> {
    trim(s.skip(break_char_index(s, char_width)))
}

/// The lines that the text `s` is broken into.
pub open spec fn text_lines(s: Seq<char>, char_width: int) -> Seq<Seq<char>>
    decreases s.len(),
{
    if needs_break(s, char_width) {
        let first = s.take(break_char_index(s, char_width));
        if split_rest(s, char_width).len() < s.len() {
            seq![first] + text_lines(split_rest(s, char_width), char_width)
        } else {
            seq![first]
        }
    } else {
        seq![s]
    }
}

/// The texts that `split_text` breaks into lines and returns: at each step the
/// sizes fit, the break index lies inside the text and on a character boundary
/// of its bytes, and the rest is shorter than the text.
pub open spec fn lines_defined(s: Seq<char>, char_width: int) -> bool
    decreases s.len(),
{
    &&& utf8_len(s) <= usize::MAX
    &&& utf8_len(s) * char_width <= i64::MAX
    &&& needs_break(s, char_width) ==> {
        &&& (line_width_limit() / char_width == 0 || line_width_limit() / char_width <= s.len())
        &&& is_byte_boundary(s, line_break_index(s, line_width_limit() / char_width))
        &&& split_rest(s, char_width).len() < s.len()
        &&& lines_defined(split_rest(s, char_width), char_width)
    }
}

pub open spec fn strings_view(v: Seq<String>) -> Seq<Seq<char>> {
    v.map_values(|s: String| s@)
}

/// The inputs on which `paint` returns: the style has a display; an inline
/// object is not displayed; a displayed text object has a font size, text that
/// breaks into lines, and a last line whose height fits.
pub open spec fn paint_defined(o: LayoutObjectView) -> bool {
    &&& o.style.display is Some
    &&& o.style.display != Some(DisplayType::DisplayNone) ==> {
        &&& o.kind != LayoutObjectKind::Inline
        &&& o.kind == LayoutObjectKind::Text ==> match o.node {
            NodeView::Text(t) => o.style.font_size is Some && {
                let char_width = CHAR_WIDTH * font_ratio(o.style.font_size->0);
                let lines = text_lines(normalize_spaces(t), char_width);
                &&& lines_defined(normalize_spaces(t), char_width)
                &&& fits_i64(CHAR_HEIGHT_WITH_PADDING * (lines.len() - 1))
                &&& fits_i64(o.point.y + CHAR_HEIGHT_WITH_PADDING * (lines.len() - 1))
            },
            _ => true,
        }
    }
}

/// What `paint` draws for `o`: nothing when it is not displayed; its box for a
/// block of an element; each line of its text, one below the other, for a text.
pub open spec fn paint_items(o: LayoutObjectView) -> Seq<DisplayItemView> {
    if o.style.display == Some(DisplayType::DisplayNone) {
        Seq::empty()
    } else {
        match o.kind {
            LayoutObjectKind::Block => if o.node is Element {
                seq![
                    DisplayItemView::Rect {
                        style: o.style,
                        layout_point: o.point,
                        layout_size: o.size,
                    },
                ]
            } else {
                Seq::empty()
            },
            LayoutObjectKind::Inline => Seq::empty(),
            LayoutObjectKind::Text => match o.node {
                NodeView::Text(t) => {
                    let lines = text_lines(
                        normalize_spaces(t),
                        CHAR_WIDTH * font_ratio(o.style.font_size->0),
                    );
                    Seq::new(
                        lines.len(),
                        |i: int|
                            DisplayItemView::Text {
                                text: lines[i],
                                style: o.style,
                                layout_point: LayoutPoint {
                                    x: o.point.x,
                                    y: (o.point.y + CHAR_HEIGHT_WITH_PADDING * i) as i64,
                                },
                            },
                    )
                },
                _ => Seq::empty(),
            },
        }
    }
}

// ---------------------------------------------------------------------------
proof fn lemma_chain_step(objs: Seq<LayoutObjectView>, i: usize, fuel: nat)
    requires
        chain_ends_within(objs, Some(i), fuel),
    ensures
        fuel > 0,
        i < objs.len(),
        chain_entries_within(objs, Some(i), fuel) == seq![
            (objs[i as int].kind, objs[i as int].size),
        ] + chain_entries_within(objs, objs[i as int].next_sibling, (fuel - 1) as nat),
        chain_ends_within(objs, objs[i as int].next_sibling, (fuel - 1) as nat),
{
}

proof fn lemma_take_last<A>(s: Seq<A>, k: int)
    requires
        0 <= k < s.len(),
    ensures
        s.take(k + 1).drop_last() == s.take(k),
        s.take(k + 1).last() == s[k],
        s.take(k + 1).len() == k + 1,
{
    assert(s.take(k + 1).drop_last() =~= s.take(k));
}

fn apply_color_value(value: &CssToken, fallback: Color) -> (c: Option<Color>)
    ensures
        match value@ {
            TokenView::Ident(v) => c matches Some(c) && c@ == or_default(
                color_from_name(v),
                fallback@,
            ),
            TokenView::HashToken(code) => c matches Some(c) && c@ == or_default(
                color_from_code(code),
                fallback@,
            ),
            _ => c is None,
        },
{
    match value {
        CssToken::Ident(v) => match Color::from_name(v.as_str()) {
            Some(c) => Some(c),
            None => Some(fallback),
        },
        CssToken::HashToken(code) => match Color::from_code(code.as_str()) {
            Some(c) => Some(c),
            None => Some(fallback),
        },
        _ => None,
    }
}

/// Makes the layout object for `node`, under the object `parent_obj` of
/// `layout_objects`, styled by the rules of `cssom` that select it; `None` where
/// there is no node or its display is `none`.
pub fn create_layout_object(
    node: &Option<NodeKind>,
    parent_obj: &Option<usize>,
    layout_objects: &Vec<LayoutObject>,
    cssom: &StyleSheet,
) -> (r: Option<LayoutObject>)
    requires
        node is Some ==> (parent_obj matches Some(p) ==> p < layout_objects.len()
            && has_inherited_values(layout_objects@[p as int]@.style)),
        node matches Some(n) ==> !(n@ is Document),
    ensures
        match node {
            None => r is None,
            Some(n) => match r {
                Some(o) => layout_object_for(
                    n@,
                    *parent_obj,
                    match parent_obj {
                        Some(p) => Some(layout_objects@[*p as int]@.style),
                        None => None,
                    },
                    cssom@,
                ) == Some(o@),
                None => layout_object_for(
                    n@,
                    *parent_obj,
                    match parent_obj {
                        Some(p) => Some(layout_objects@[*p as int]@.style),
                        None => None,
                    },
                    cssom@,
                ) is None,
            },
        },
{
    if let Some(n) = node {
        let mut layout_object = LayoutObject::new(n.copy(), parent_obj);
        let mut i: usize = 0;
        while i < cssom.rules.len()
            invariant
                i <= cssom.rules.len(),
                layout_object@ == (LayoutObjectView {
                    style: cascade_rules(empty_style(), n@, cssom@.take(i as int)),
                    ..layout_object@
                }),
                layout_object@.kind == LayoutObjectKind::Block,
                layout_object@.node == n@,
                layout_object@.first_child is None,
                layout_object@.next_sibling is None,
                layout_object@.parent == *parent_obj,
                layout_object@.point == origin(),
                layout_object@.size == zero_size(),
            decreases cssom.rules.len() - i,
        {
            let rule = &cssom.rules[i];
            proof {
                lemma_take_last(cssom@, i as int);
                assert(cssom@[i as int] == rule@);
            }
            if layout_object.is_node_selected(&rule.selector) {
                layout_object.cascading_style(copy_declarations(&rule.declarations));
            }
            i = i + 1;
        }
        assert(cssom@.take(cssom.rules.len() as int) =~= cssom@);
        let parent_style = match parent_obj {
            Some(p) => Some(layout_objects[*p].style()),
            None => None,
        };
        layout_object.defaulting_style(n, parent_style);
        if layout_object.style.display() == DisplayType::DisplayNone {
            return None;
        }
        layout_object.update_kind();
        Some(layout_object)
    } else {
        None
    }
}

/// Whether `attrs` has an attribute `name` with the value `value`.
fn has_attribute_exec(attrs: &Vec<Attribute>, name: &String, value: &String) -> (b: bool)
    ensures
        b == has_attribute(attributes_view(attrs@), name@, value@),
{
    let mut i: usize = 0;
    while i < attrs.len()
        invariant
            i <= attrs.len(),
            forall|j: int|
                0 <= j < i ==> !((#[trigger] attrs@[j]).name@ == name@ && attrs@[j].value@
                    == value@),
        decreases attrs.len() - i,
    {
        let attr = &attrs[i];
        if attr.name == *name && attr.value == *value {
            assert(attributes_view(attrs@)[i as int] == (attr.name@, attr.value@));
            return true;
        }
        i = i + 1;
    }
    proof {
        let a = attributes_view(attrs@);
        assert forall|j: int| 0 <= j < a.len() implies #[trigger] a[j] != (name@, value@) by {
            assert(a[j] == (attrs@[j].name@, attrs@[j].value@));
        }
    }
    false
}

/// A copy of `ds` with the same views.
fn copy_declarations(ds: &Vec<Declaration>) -> (r: Vec<Declaration>)
    ensures
        decls_view(r@) == decls_view(ds@),
{
    let mut r: Vec<Declaration> = Vec::new();
    let mut i: usize = 0;
    while i < ds.len()
        invariant
            i <= ds.len(),
            r@.len() == i,
            forall|j: int| 0 <= j < i ==> (#[trigger] r@[j])@ == ds@[j]@,
        decreases ds.len() - i,
    {
        r.push(
            Declaration {
                property: ds[i].property.clone(),
                value: crate::cssom::copy_token(&ds[i].value),
            },
        );
        i = i + 1;
    }
    assert(decls_view(r@) =~= decls_view(ds@));
    r
}

impl LayoutObject {
    /// A block object for `node` under `parent_obj`, with no children, no
    /// style set, at the origin and of no size.
    pub fn new(node: NodeKind, parent_obj: &Option<usize>) -> (o: Self)
        ensures
            o@ == (LayoutObjectView {
                kind: LayoutObjectKind::Block,
                node: node@,
                first_child: None,
                next_sibling: None,
                parent: *parent_obj,
                style: empty_style(),
                point: origin(),
                size: zero_size(),
            }),
    {
        let parent = match parent_obj {
            Some(p) => Some(*p),
            None => None,
        };
        LayoutObject {
            kind: LayoutObjectKind::Block,
            node,
            first_child: None,
            next_sibling: None,
            parent,
            style: ComputedStyle::new(),
            point: LayoutPoint { x: 0, y: 0 },
            size: LayoutSize { width: 0, height: 0 },
        }
    }

    pub fn kind(&self) -> (k: LayoutObjectKind)
        ensures
            k == self@.kind,
    {
        self.kind
    }

    pub fn node_kind(&self) -> (n: NodeKind)
        ensures
            n@ == self@.node,
    {
        self.node.copy()
    }

    pub fn set_first_child(&mut self, first_child: Option<usize>)
        ensures
            final(self)@ == (LayoutObjectView { first_child, ..old(self)@ }),
    {
        self.first_child = first_child;
    }

    pub fn first_child(&self) -> (c: Option<usize>)
        ensures
            c == self@.first_child,
    {
        self.first_child
    }

    pub fn set_next_sibling(&mut self, next_sibling: Option<usize>)
        ensures
            final(self)@ == (LayoutObjectView { next_sibling, ..old(self)@ }),
    {
        self.next_sibling = next_sibling;
    }

    pub fn next_sibling(&self) -> (s: Option<usize>)
        ensures
            s == self@.next_sibling,
    {
        self.next_sibling
    }

    pub fn parent(&self) -> (p: Option<usize>)
        ensures
            p == self@.parent,
    {
        self.parent
    }

    pub fn style(&self) -> (s: ComputedStyle)
        ensures
            s@ == self@.style,
    {
        self.style.copy()
    }

    pub fn point(&self) -> (p: LayoutPoint)
        ensures
            p == self@.point,
    {
        self.point
    }

    pub fn size(&self) -> (s: LayoutSize)
        ensures
            s == self@.size,
    {
        self.size
    }

    /// Whether `selector` selects the node of this object.
    pub fn is_node_selected(&self, selector: &Selector) -> (b: bool)
        ensures
            b == selects(self@.node, selector@),
    {
        broadcast use vstd::string::group_string_axioms;

        match &self.node {
            NodeKind::Element(e) => match selector {
                Selector::TypeSelector(type_selector_name) => {
                    if e.kind.name() == *type_selector_name {
                        return true;
                    }
                    false
                },
                Selector::ClassSelector(class_name) => {
                    has_attribute_exec(&e.attributes, &"class".to_string(), class_name)
                },
                Selector::IdSelector(id_name) => {
                    has_attribute_exec(&e.attributes, &"id".to_string(), id_name)
                },
                Selector::UnknownSelector => false,
            },
            _ => false,
        }
    }

    /// Applies the declarations, in order, to the style of this object.
    pub fn cascading_style(&mut self, declarations: Vec<Declaration>)
        ensures
            final(self)@ == (LayoutObjectView {
                style: cascade(old(self)@.style, decls_view(declarations@)),
                ..old(self)@
            }),
    {
        broadcast use vstd::string::group_string_axioms;

        let background_color = "background-color".to_string();
        let color = "color".to_string();
        let display = "display".to_string();
        let mut i: usize = 0;
        while i < declarations.len()
            invariant
                i <= declarations.len(),
                background_color@ == "background-color"@,
                color@ == "color"@,
                display@ == "display"@,
                self@ == (LayoutObjectView {
                    style: cascade(old(self)@.style, decls_view(declarations@).take(i as int)),
                    ..old(self)@
                }),
            decreases declarations.len() - i,
        {
            let declaration = &declarations[i];
            proof {
                lemma_take_last(decls_view(declarations@), i as int);
            }
            if declaration.property == background_color {
                if let Some(c) = apply_color_value(&declaration.value, Color::white()) {
                    self.style.set_background_color(c);
                }
            } else if declaration.property == color {
                if let Some(c) = apply_color_value(&declaration.value, Color::black()) {
                    self.style.set_color(c);
                }
            } else if declaration.property == display {
                if let CssToken::Ident(value) = &declaration.value {
                    let display_type = match DisplayType::from_str(value.as_str()) {
                        Some(d) => d,
                        None => DisplayType::DisplayNone,
                    };
                    self.style.set_display(display_type);
                }
            }
            i = i + 1;
        }
        assert(decls_view(declarations@).take(declarations.len() as int) =~= decls_view(
            declarations@,
        ));
    }

    /// Gives every unset property of this object's style a value (see
    /// `ComputedStyle::defaulting`).
    pub fn defaulting_style(&mut self, node: &NodeKind, parent_style: Option<ComputedStyle>)
        requires
            parent_style matches Some(p) ==> has_inherited_values(p@),
        ensures
            final(self)@ == (LayoutObjectView {
                style: defaulted(
                    old(self)@.style,
                    node@,
                    match parent_style {
                        Some(p) => Some(p@),
                        None => None,
                    },
                ),
                ..old(self)@
            }),
    {
        self.style.defaulting(node, parent_style);
    }

    /// Sets the kind from the node and its display: text for a text node, else
    /// inline or block as the display says.
    pub fn update_kind(&mut self)
        requires
            !(old(self)@.node is Document),
            old(self)@.node is Element ==> old(self)@.style.display is Some
                && old(self)@.style.display != Some(DisplayType::DisplayNone),
        ensures
            final(self)@ == (LayoutObjectView {
                kind: kind_for(old(self)@.node, old(self)@.style.display->0),
                ..old(self)@
            }),
    {
        self.kind = match &self.node {
            NodeKind::Element(_) => match self.style.display() {
                DisplayType::Inline => LayoutObjectKind::Inline,
                _ => LayoutObjectKind::Block,
            },
            _ => LayoutObjectKind::Text,
        };
    }

    /// Sets the size of this object: a block is as wide as its parent and as high
    /// as its stacked children; an inline box is as large as its children side by
    /// side; a text is as wide as its characters, wrapped to the content area.
    pub fn compute_size(&mut self, parent_size: LayoutSize, layout_objects: &Vec<LayoutObject>)
        requires
            size_computable(old(self)@, objects_view(layout_objects@)),
        ensures
            final(self)@ == (LayoutObjectView {
                size: computed_size(old(self)@, parent_size, objects_view(layout_objects@)),
                ..old(self)@
            }),
    {
        let ghost objs = objects_view(layout_objects@);
        let ghost entries = chain_entries(objs, self@.first_child);
        match self.kind {
            LayoutObjectKind::Block => {
                let mut height: i64 = 0;
                let mut child = self.first_child;
                let mut previous_child_kind = LayoutObjectKind::Block;
                let ghost mut k: int = 0;
                let ghost mut fuel: nat = objs.len();
                while child.is_some()
                    invariant
                        objs == objects_view(layout_objects@),
                        entries == chain_entries(objs, old(self)@.first_child),
                        size_computable(old(self)@, objs),
                        old(self)@.kind == LayoutObjectKind::Block,
                        0 <= k <= entries.len(),
                        entries.skip(k) == chain_entries_within(objs, child, fuel),
                        chain_ends_within(objs, child, fuel),
                        height == block_height(entries.take(k)),
                        previous_child_kind == (if k == 0 {
                            LayoutObjectKind::Block
                        } else {
                            entries[k - 1].0
                        }),
                    decreases entries.len() - k,
                {
                    let c = match child {
                        Some(c) => c,
                        None => 0,
                    };
                    proof {
                        lemma_chain_step(objs, c, fuel);
                        assert(entries.skip(k).len() == entries.len() - k);
                        assert(k < entries.len());
                        assert(entries.skip(k)[0] == entries[k]);
                        assert(entries.skip(k + 1) =~= entries.skip(k).drop_first());
                        lemma_take_last(entries, k);
                        assert(fits_i64(block_height(entries.take(k + 1))));
                    }
                    let c_kind = layout_objects[c].kind;
                    let c_height = layout_objects[c].size.height;
                    assert(objs[c as int].kind == c_kind);
                    if previous_child_kind == LayoutObjectKind::Block || c_kind
                        == LayoutObjectKind::Block {
                        height = height + c_height;
                    }
                    previous_child_kind = c_kind;
                    child = layout_objects[c].next_sibling;
                    proof {
                        k = k + 1;
                        fuel = (fuel - 1) as nat;
                    }
                }
                assert(entries.take(k) =~= entries);
                self.size = LayoutSize { width: parent_size.width, height };
            },
            LayoutObjectKind::Inline => {
                let mut width: i64 = 0;
                let mut height: i64 = 0;
                let mut child = self.first_child;
                let ghost mut k: int = 0;
                let ghost mut fuel: nat = objs.len();
                while child.is_some()
                    invariant
                        objs == objects_view(layout_objects@),
                        entries == chain_entries(objs, old(self)@.first_child),
                        size_computable(old(self)@, objs),
                        old(self)@.kind == LayoutObjectKind::Inline,
                        0 <= k <= entries.len(),
                        entries.skip(k) == chain_entries_within(objs, child, fuel),
                        chain_ends_within(objs, child, fuel),
                        width == total_width(entries.take(k)),
                        height == total_height(entries.take(k)),
                    decreases entries.len() - k,
                {
                    let c = match child {
                        Some(c) => c,
                        None => 0,
                    };
                    proof {
                        lemma_chain_step(objs, c, fuel);
                        assert(entries.skip(k).len() == entries.len() - k);
                        assert(k < entries.len());
                        assert(entries.skip(k)[0] == entries[k]);
                        assert(entries.skip(k + 1) =~= entries.skip(k).drop_first());
                        lemma_take_last(entries, k);
                        assert(fits_i64(total_width(entries.take(k + 1))));
                        assert(fits_i64(total_height(entries.take(k + 1))));
                    }
                    width = width + layout_objects[c].size.width;
                    height = height + layout_objects[c].size.height;
                    child = layout_objects[c].next_sibling;
                    proof {
                        k = k + 1;
                        fuel = (fuel - 1) as nat;
                    }
                }
                assert(entries.take(k) =~= entries);
                self.size = LayoutSize { width, height };
            },
            LayoutObjectKind::Text => {
                let len = match &self.node {
                    NodeKind::Text(t) => {
                        proof {
                            lemma_utf8_len_encode(t@);
                        }
                        t.as_str().len()
                    },
                    _ => 0,
                };
                let ratio: i64 = match self.style.font_size() {
                    FontSize::Medium => 1,
                    FontSize::XLarge => 2,
                    FontSize::XXLarge => 3,
                };
                self.size = text_size_exec(len, ratio);
            },
        }
    }

    /// Sets the point of this object from its parent's point and its previous
    /// sibling, if it has one.
    pub fn compute_position(
        &mut self,
        parent_point: LayoutPoint,
        previous_sibling_kind: LayoutObjectKind,
        previous_sibling_point: Option<LayoutPoint>,
        previous_sibling_size: Option<LayoutSize>,
    )
        requires
            position_computable(
                old(self)@.kind,
                previous_sibling_kind,
                previous_sibling_point,
                previous_sibling_size,
            ),
        ensures
            final(self)@ == (LayoutObjectView {
                point: position_for(
                    old(self)@.kind,
                    parent_point,
                    previous_sibling_kind,
                    previous_sibling_point,
                    previous_sibling_size,
                ),
                ..old(self)@
            }),
    {
        self.point = if let (Some(sibling_size), Some(sibling_pos)) = (
            previous_sibling_size,
            previous_sibling_point,
        ) {
            if self.kind == LayoutObjectKind::Block || previous_sibling_kind
                == LayoutObjectKind::Block {
                LayoutPoint { x: parent_point.x, y: sibling_pos.y + sibling_size.height }
            } else if self.kind == LayoutObjectKind::Inline && previous_sibling_kind
                == LayoutObjectKind::Inline {
                LayoutPoint { x: sibling_pos.x + sibling_size.width, y: sibling_pos.y }
            } else {
                parent_point
            }
        } else {
            parent_point
        };
    }
}

fn text_size_exec(len: usize, ratio: i64) -> (s: LayoutSize)
    requires
        1 <= ratio <= 3,
        CHAR_WIDTH * ratio * len <= i64::MAX,
    ensures
        s == text_size(len as int, ratio as int),
{
    assert(len <= i64::MAX) by (nonlinear_arith)
        requires
            CHAR_WIDTH * ratio * len <= i64::MAX,
            1 <= ratio,
            CHAR_WIDTH == 8,
    ;
    let l = len as i64;
    assert(0 <= CHAR_WIDTH * ratio <= 24);
    let width = CHAR_WIDTH * ratio * l;
    if width > CONTENT_AREA_WIDTH {
        let line_num = if width % CONTENT_AREA_WIDTH == 0 {
            width / CONTENT_AREA_WIDTH
        } else {
            width / CONTENT_AREA_WIDTH + 1
        };
        assert(CHAR_HEIGHT_WITH_PADDING * ratio * line_num <= i64::MAX) by (nonlinear_arith)
            requires
                1 <= ratio <= 3,
                CHAR_HEIGHT_WITH_PADDING == 20,
                CONTENT_AREA_WIDTH == 590,
                0 < line_num <= width / 590 + 1,
                width <= i64::MAX,
        ;
        let height = CHAR_HEIGHT_WITH_PADDING * ratio * line_num;
        LayoutSize { width: CONTENT_AREA_WIDTH, height }
    } else {
        LayoutSize { width, height: CHAR_HEIGHT_WITH_PADDING * ratio }
    }
}

impl PartialEq for LayoutObject {
    fn eq(&self, other: &Self) -> (r: bool) {
        self.kind == other.kind
    }
}

impl vstd::std_specs::cmp::PartialEqSpecImpl for LayoutObject {
    open spec fn obeys_eq_spec() -> bool {
        true
    }

    open spec fn eq_spec(&self, other: &LayoutObject) -> bool {
        self@.kind == other@.kind
    }
}

/// Breaks `line` into lines that fit the window, for characters `char_width`
/// wide: at the last space that fits, else where the width runs out.
fn split_text(line: String, char_width: i64) -> (r: Vec<String>)
    requires
        0 < char_width,
        lines_defined(line@, char_width as int),
    ensures
        strings_view(r@) == text_lines(line@, char_width as int),
    decreases line@.len(),
{
    let mut result: Vec<String> = Vec::new();
    let ghost s = line@;
    proof {
        lemma_utf8_len_encode(s);
        lemma_utf8_len_nonneg(s);
    }
    let len = line.as_str().len();
    assert(len as int == utf8_len(s));
    let limit = WINDOW_WIDTH + WINDOW_PADDING;
    assert(len as int <= i64::MAX) by (nonlinear_arith)
        requires
            len as int * char_width <= i64::MAX,
            0 < char_width,
            0 <= len,
    ;
    let wide = (len as i64) * char_width;
    assert(wide > limit <==> needs_break(s, char_width as int));
    if wide > limit {
        let v = chars_of(line.as_str());
        let max_index = (limit / char_width) as usize;
        assert(max_index as int == line_width_limit() / (char_width as int));
        let idx = find_index_for_line_break(&line, max_index);
        let k = char_index_of_byte(&v, idx);
        result.push(crate::token::string_from(&v, 0, k));
        let rest = trimmed_from(&v, k);
        proof {
            assert(rest@ == split_rest(s, char_width as int));
        }
        let mut tail = split_text(rest, char_width);
        let ghost tail_lines = strings_view(tail@);
        result.append(&mut tail);
        assert(strings_view(result@) =~= seq![s.take(k as int)] + tail_lines);
    } else {
        result.push(line);
        assert(strings_view(result@) =~= seq![s]);
    }
    result
}

/// The index of the character of `v` that starts at byte offset `b`.
fn char_index_of_byte(v: &Vec<char>, b: usize) -> (k: usize)
    requires
        is_byte_boundary(v@, b as int),
    ensures
        k == char_index_at_byte(v@, b as int),
        0 <= k <= v.len(),
{
    let ghost target = char_index_at_byte(v@, b as int);
    proof {
        lemma_char_index_at_byte(v@, b as int, target);
    }
    let mut k: usize = 0;
    let mut acc: usize = 0;
    assert(v@.take(0) =~= Seq::<char>::empty());
    while acc < b
        invariant
            0 <= k <= target <= v.len(),
            utf8_len(v@.take(target)) == b,
            acc as int == utf8_len(v@.take(k as int)),
            acc <= b,
        decreases b - acc,
    {
        assert(k < target);
        proof {
            lemma_utf8_len_take(v@, k as int);
            if k + 1 < target {
                crate::text::lemma_utf8_len_take_monotone(v@, k + 1, target);
            }
        }
        acc = acc + char_utf8_width_exec(v[k]);
        k = k + 1;
    }
    proof {
        if k < target {
            crate::text::lemma_utf8_len_take_monotone(v@, k as int, target);
        }
    }
    k
}

/// Where a line of at most `max_index` characters breaks: at the last space
/// before `max_index`, else at `max_index`.
fn find_index_for_line_break(line: &String, max_index: usize) -> (i: usize)
    requires
        max_index == 0 || max_index <= line@.len(),
    ensures
        i == line_break_index(line@, max_index as int),
{
    let chars = chars_of(line.as_str());
    let mut i = max_index;
    while i > 0
        invariant
            i <= max_index,
            chars@ == line@,
            max_index == 0 || max_index <= line@.len(),
            last_space_before(line@, max_index as int) == last_space_before(line@, i as int),
        decreases i,
    {
        if chars[i - 1] == ' ' {
            return i - 1;
        }
        i = i - 1;
    }
    max_index
}

impl LayoutObject {
    /// The display items that draw this object.
    pub fn paint(&mut self) -> (items: Vec<DisplayItem>)
        requires
            paint_defined(old(self)@),
        ensures
            final(self)@ == old(self)@,
            items_view(items@) == paint_items(old(self)@),
    {
        if self.style.display() == DisplayType::DisplayNone {
            let v: Vec<DisplayItem> = Vec::new();
            assert(items_view(v@) =~= Seq::<DisplayItemView>::empty());
            return v;
        }
        match self.kind {
            LayoutObjectKind::Block => {
                if let NodeKind::Element(_) = &self.node {
                    let mut v: Vec<DisplayItem> = Vec::new();
                    v.push(
                        DisplayItem::Rect {
                            style: self.style(),
                            layout_point: self.point(),
                            layout_size: self.size(),
                        },
                    );
                    assert(items_view(v@) =~= paint_items(self@));
                    return v;
                }
            },
            LayoutObjectKind::Inline => {},
            LayoutObjectKind::Text => {
                if let NodeKind::Text(t) = &self.node {
                    let ratio: i64 = match self.style.font_size() {
                        FontSize::Medium => 1,
                        FontSize::XLarge => 2,
                        FontSize::XXLarge => 3,
                    };
                    let plain_text = normalize_spaces_exec(t);
                    let lines = split_text(plain_text, CHAR_WIDTH * ratio);
                    let ghost o = self@;
                    let mut v: Vec<DisplayItem> = Vec::new();
                    let mut i: i64 = 0;
                    let mut j: usize = 0;
                    while j < lines.len()
                        invariant
                            self@ == o,
                            o.kind == LayoutObjectKind::Text,
                            o.node == NodeView::Text(t@),
                            o.style.display != Some(DisplayType::DisplayNone),
                            paint_defined(o),
                            strings_view(lines@) == text_lines(
                                normalize_spaces(t@),
                                CHAR_WIDTH * font_ratio(o.style.font_size->0),
                            ),
                            j <= lines.len(),
                            i == j,
                            items_view(v@) == paint_items(o).take(j as int),
                        decreases lines.len() - j,
                    {
                        assert(fits_i64(CHAR_HEIGHT_WITH_PADDING * i)) by (nonlinear_arith)
                            requires
                                0 <= i < lines.len(),
                                fits_i64(CHAR_HEIGHT_WITH_PADDING * (lines.len() - 1)),
                                CHAR_HEIGHT_WITH_PADDING == 20,
                        ;
                        assert(fits_i64(self.point.y + CHAR_HEIGHT_WITH_PADDING * i)) by (
                        nonlinear_arith)
                            requires
                                0 <= i < lines.len(),
                                fits_i64(o.point.y + CHAR_HEIGHT_WITH_PADDING * (lines.len() - 1)),
                                o.point.y == self.point.y,
                                CHAR_HEIGHT_WITH_PADDING == 20,
                        ;
                        let item = DisplayItem::Text {
                            text: lines[j].clone(),
                            style: self.style(),
                            layout_point: LayoutPoint {
                                x: self.point.x,
                                y: self.point.y + CHAR_HEIGHT_WITH_PADDING * i,
                            },
                        };
                        let ghost before = items_view(v@);
                        v.push(item);
                        assert(items_view(v@) =~= before.push(item@));
                        assert(paint_items(o).take(j + 1) =~= paint_items(o).take(j as int).push(
                            paint_items(o)[j as int],
                        ));
                        i = i + 1;
                        j = j + 1;
                    }
                    assert(paint_items(o).take(j as int) =~= paint_items(o));
                    return v;
                }
            },
        }
        let v: Vec<DisplayItem> = Vec::new();
        assert(items_view(v@) =~= paint_items(self@));
        v
    }
}

// ---------------------------------------------------------------------------
// Laws
/// Applying the declarations `a` and then the declarations `b` to a style is
/// applying `a` followed by `b` at once.
pub proof fn lemma_cascade_concat(s: StyleView, a: Seq<DeclarationView>, b: Seq<DeclarationView>)
    ensures
        cascade(cascade(s, a), b) == cascade(s, a + b),
    decreases b.len(),
{
    if b.len() == 0 {
        assert(a + b =~= a);
    } else {
        lemma_cascade_concat(s, a, b.drop_last());
        assert((a + b).drop_last() =~= a + b.drop_last());
        assert((a + b).last() == b.last());
    }
}

/// Styling a node with the rules `a` and then with the rules `b` is styling it
/// with `a` followed by `b`: rules later in a style sheet win.
pub proof fn lemma_cascade_rules_concat(
    s: StyleView,
    node: NodeView,
    a: Seq<RuleView>,
    b: Seq<RuleView>,
)
    ensures
        cascade_rules(cascade_rules(s, node, a), node, b) == cascade_rules(s, node, a + b),
    decreases b.len(),
{
    if b.len() == 0 {
        assert(a + b =~= a);
    } else {
        lemma_cascade_rules_concat(s, node, a, b.drop_last());
        assert((a + b).drop_last() =~= a + b.drop_last());
        assert((a + b).last() == b.last());
    }
}

/// Only elements are selected, and an unknown selector selects nothing.
pub proof fn lemma_selects_only_elements(node: NodeView, selector: SelectorView)
    ensures
        !(node is Element) ==> !selects(node, selector),
        selector is UnknownSelector ==> !selects(node, selector),
{
}

/// A layout object that `create_layout_object` makes is displayed, has every
/// property set, is a text object exactly for a text node, and has no children,
/// no sibling, no size and the origin as its point.
pub proof fn lemma_created_object(
    node: NodeView,
    parent: Option<usize>,
    parent_style: Option<StyleView>,
    rules: Seq<RuleView>,
)
    ensures
        layout_object_for(node, parent, parent_style, rules) matches Some(o) ==> {
            &&& is_complete(o.style)
            &&& o.style.display != Some(DisplayType::DisplayNone)
            &&& (o.kind == LayoutObjectKind::Text <==> node is Text)
            &&& (o.kind == LayoutObjectKind::Inline <==> (!(node is Text) && o.style.display
                == Some(DisplayType::Inline)))
            &&& o.node == node
            &&& o.parent == parent
            &&& o.first_child is None && o.next_sibling is None
            &&& o.point == origin() && o.size == zero_size()
        },
{
    crate::style::lemma_defaulted_is_complete(
        cascade_rules(empty_style(), node, rules),
        node,
        parent_style,
    );
}

/// A text is never wider than the content area, and it takes at least one line.
pub proof fn lemma_text_size_bounds(len: int, ratio: int)
    requires
        0 <= len,
        1 <= ratio <= 3,
        CHAR_WIDTH * ratio * len <= i64::MAX,
    ensures
        0 <= text_size(len, ratio).width <= CONTENT_AREA_WIDTH,
        text_size(len, ratio).height >= CHAR_HEIGHT_WITH_PADDING * ratio,
{
    let width = CHAR_WIDTH * ratio * len;
    assert(0 <= width) by (nonlinear_arith)
        requires
            0 <= len,
            1 <= ratio,
            width == CHAR_WIDTH * ratio * len,
            CHAR_WIDTH == 8,
    ;
    if width > CONTENT_AREA_WIDTH {
        let line_num = if width % (CONTENT_AREA_WIDTH as int) == 0 {
            width / (CONTENT_AREA_WIDTH as int)
        } else {
            width / (CONTENT_AREA_WIDTH as int) + 1
        };
        assert(1 <= line_num);
        assert(CHAR_HEIGHT_WITH_PADDING * ratio <= CHAR_HEIGHT_WITH_PADDING * ratio * line_num
            <= i64::MAX) by (nonlinear_arith)
            requires
                1 <= ratio <= 3,
                CHAR_HEIGHT_WITH_PADDING == 20,
                1 <= line_num <= width / 590 + 1,
                width <= i64::MAX,
        ;
    }
}

proof fn lemma_last_space_before(s: Seq<char>, m: int)
    requires
        0 <= m,
    ensures
        last_space_before(s, m) < m,
        last_space_before(s, m) >= 0 ==> s[last_space_before(s, m)] == ' ',
    decreases m,
{
    if m > 0 && !(m - 1 < s.len() && s[m - 1] == ' ') {
        lemma_last_space_before(s, m - 1);
    }
}

/// Where a line breaks is never past the characters it may hold, and is a space
/// when it comes before.
pub proof fn lemma_line_break_index(s: Seq<char>, m: int)
    requires
        0 <= m,
    ensures
        0 <= line_break_index(s, m) <= m,
        line_break_index(s, m) < m ==> s[line_break_index(s, m)] == ' ',
{
    lemma_last_space_before(s, m);
}

/// Every line of a broken text fits the window: its bytes times the character
/// width are at most the line width limit.
pub proof fn lemma_text_lines_fit(s: Seq<char>, char_width: int)
    requires
        0 < char_width,
        lines_defined(s, char_width),
    ensures
        forall|i: int|
            0 <= i < text_lines(s, char_width).len() ==> utf8_len(
                #[trigger] text_lines(s, char_width)[i],
            ) * char_width <= line_width_limit(),
    decreases s.len(),
{
    if needs_break(s, char_width) {
        let m = line_width_limit() / char_width;
        let b = line_break_index(s, m);
        lemma_line_break_index(s, m);
        let k = char_index_at_byte(s, b);
        assert(utf8_len(s.take(k)) == b);
        assert(b * char_width <= line_width_limit()) by (nonlinear_arith)
            requires
                0 <= b <= m,
                m == line_width_limit() / char_width,
                0 < char_width,
                line_width_limit() == 605,
        ;
        lemma_text_lines_fit(split_rest(s, char_width), char_width);
        let rest_lines = text_lines(split_rest(s, char_width), char_width);
        assert(text_lines(s, char_width) == seq![s.take(k)] + rest_lines);
        assert forall|i: int| 0 <= i < text_lines(s, char_width).len() implies utf8_len(
            #[trigger] text_lines(s, char_width)[i],
        ) * char_width <= line_width_limit() by {
            if i > 0 {
                assert(text_lines(s, char_width)[i] == rest_lines[i - 1]);
            }
        }
    }
}

/// The lines `ls` written one after the other.
pub open spec fn join_lines(ls: Seq<Seq<char>>) -> Seq<char>
    decreases ls.len(),
{
    if ls.len() == 0 {
        Seq::empty()
    } else {
        ls[0] + join_lines(ls.drop_first())
    }
}

/// No text is lost in breaking it into lines: the lines, one after the other,
/// hold every character of the text that is not white space, in order.
pub proof fn lemma_text_lines_keep_text(s: Seq<char>, char_width: int)
    requires
        0 < char_width,
        lines_defined(s, char_width),
    ensures
        crate::text::non_white(join_lines(text_lines(s, char_width))) == crate::text::non_white(s),
    decreases s.len(),
{
    let ls = text_lines(s, char_width);
    if needs_break(s, char_width) {
        let m = line_width_limit() / char_width;
        let b = line_break_index(s, m);
        let k = char_index_at_byte(s, b);
        assert(0 <= k <= s.len());
        let rest = split_rest(s, char_width);
        lemma_text_lines_keep_text(rest, char_width);
        let rest_lines = text_lines(rest, char_width);
        assert(ls == seq![s.take(k)] + rest_lines);
        assert(ls.drop_first() =~= rest_lines);
        assert(join_lines(ls) == s.take(k) + join_lines(rest_lines));
        crate::text::lemma_non_white_concat(s.take(k), join_lines(rest_lines));
        crate::text::lemma_non_white_trim(s.skip(k));
        crate::text::lemma_non_white_concat(s.take(k), s.skip(k));
        assert(s.take(k) + s.skip(k) =~= s);
    } else {
        assert(ls == seq![s]);
        assert(ls.drop_first() =~= Seq::<Seq<char>>::empty());
        assert(join_lines(ls) == s + join_lines(Seq::<Seq<char>>::empty()));
        assert(s + Seq::<char>::empty() =~= s);
    }
}

/// A block with one child is as high as that child, whatever the child's kind.
pub proof fn lemma_block_with_one_child(
    o: LayoutObjectView,
    parent_size: LayoutSize,
    objs: Seq<LayoutObjectView>,
    i: usize,
)
    requires
        o.kind == LayoutObjectKind::Block,
        o.first_child == Some(i),
        i < objs.len(),
        objs[i as int].next_sibling is None,
    ensures
        computed_size(o, parent_size, objs) == (LayoutSize {
            width: parent_size.width,
            height: objs[i as int].size.height,
        }),
{
    let e = chain_entries(objs, o.first_child);
    assert(chain_entries_within(objs, None, (objs.len() - 1) as nat) =~= Seq::empty());
    assert(e =~= seq![(objs[i as int].kind, objs[i as int].size)]);
    assert(e.drop_last() =~= Seq::empty());
    assert(block_height(e.drop_last()) == 0);
}

/// Adding a child at the end of a block adds its height when it is the first
/// child, when it is a block, or when it follows a block; after an inline child
/// a child that is not a block shares its line and adds nothing.
pub proof fn lemma_block_height_push(
    e: Seq<(LayoutObjectKind, LayoutSize)>,
    x: (LayoutObjectKind, LayoutSize),
)
    ensures
        block_height(e.push(x)) == block_height(e) + if e.len() == 0 || e.last().0
            == LayoutObjectKind::Block || x.0 == LayoutObjectKind::Block {
            x.1.height as int
        } else {
            0
        },
{
    assert(e.push(x).drop_last() =~= e);
}

/// Children that are all blocks stack: the height is the sum of theirs.
pub proof fn lemma_block_height_of_blocks(e: Seq<(LayoutObjectKind, LayoutSize)>)
    requires
        forall|j: int| 0 <= j < e.len() ==> (#[trigger] e[j]).0 == LayoutObjectKind::Block,
    ensures
        block_height(e) == total_height(e),
    decreases e.len(),
{
    if e.len() > 0 {
        lemma_block_height_of_blocks(e.drop_last());
    }
}

/// The last declaration of a property decides it: after a `color` or
/// `background-color` declaration whose value names a color, or is a `#` code,
/// that property is the named color (the fallback where the name or code is
/// unknown), and a `display` declaration sets the display it names (`none`
/// where unknown). The other properties are left as they were.
pub proof fn lemma_cascade_last_declaration(
    s: StyleView,
    ds: Seq<DeclarationView>,
    v: Seq<char>,
)
    ensures
        ({
            let before = cascade(s, ds);
            let by_name = cascade(
                s,
                ds.push(DeclarationView { property: "color"@, value: TokenView::Ident(v) }),
            );
            let by_code = cascade(
                s,
                ds.push(DeclarationView { property: "color"@, value: TokenView::HashToken(v) }),
            );
            &&& by_name.color == Some(or_default(color_from_name(v), black_view()))
            &&& by_code.color == Some(or_default(color_from_code(v), black_view()))
            &&& by_name.background_color == before.background_color
            &&& by_code.background_color == before.background_color
            &&& by_name.display == before.display && by_code.display == before.display
            &&& by_name.font_size == before.font_size && by_code.font_size == before.font_size
        }),
        ({
            let before = cascade(s, ds);
            let by_name = cascade(
                s,
                ds.push(
                    DeclarationView { property: "background-color"@, value: TokenView::Ident(v) },
                ),
            );
            let by_code = cascade(
                s,
                ds.push(
                    DeclarationView {
                        property: "background-color"@,
                        value: TokenView::HashToken(v),
                    },
                ),
            );
            &&& by_name.background_color == Some(or_default(color_from_name(v), white_view()))
            &&& by_code.background_color == Some(or_default(color_from_code(v), white_view()))
            &&& by_name.color == before.color && by_code.color == before.color
            &&& by_name.display == before.display && by_code.display == before.display
        }),
        ({
            let before = cascade(s, ds);
            let after = cascade(
                s,
                ds.push(DeclarationView { property: "display"@, value: TokenView::Ident(v) }),
            );
            &&& after.display == Some(or_default(display_from_name(v), DisplayType::DisplayNone))
            &&& after.color == before.color
            &&& after.background_color == before.background_color
        }),
{
    reveal_strlit("color");
    reveal_strlit("background-color");
    reveal_strlit("display");
    let d1 = DeclarationView { property: "color"@, value: TokenView::Ident(v) };
    let d2 = DeclarationView { property: "color"@, value: TokenView::HashToken(v) };
    let d3 = DeclarationView { property: "background-color"@, value: TokenView::Ident(v) };
    let d4 = DeclarationView { property: "background-color"@, value: TokenView::HashToken(v) };
    let d5 = DeclarationView { property: "display"@, value: TokenView::Ident(v) };
    assert(ds.push(d1).drop_last() =~= ds);
    assert(ds.push(d2).drop_last() =~= ds);
    assert(ds.push(d3).drop_last() =~= ds);
    assert(ds.push(d4).drop_last() =~= ds);
    assert(ds.push(d5).drop_last() =~= ds);
    assert("color"@ != "background-color"@) by {
        assert("color"@.len() != "background-color"@.len());
    }
    assert("display"@ != "background-color"@) by {
        assert("display"@.len() != "background-color"@.len());
    }
    assert("display"@ != "color"@) by {
        assert("display"@[0] != "color"@[0]);
    }
}

/// An object goes below a previous sibling that is a block, at the parent's x,
/// whatever its own kind; and an object with no previous sibling goes at the
/// parent's point.
pub proof fn lemma_position_after_block(
    kind: LayoutObjectKind,
    parent_point: LayoutPoint,
    point: LayoutPoint,
    size: LayoutSize,
    previous_sibling_kind: LayoutObjectKind,
)
    ensures
        position_for(kind, parent_point, LayoutObjectKind::Block, Some(point), Some(size))
            == (LayoutPoint { x: parent_point.x, y: (point.y + size.height) as i64 }),
        kind == LayoutObjectKind::Block ==> position_for(
            kind,
            parent_point,
            previous_sibling_kind,
            Some(point),
            Some(size),
        ) == (LayoutPoint { x: parent_point.x, y: (point.y + size.height) as i64 }),
        kind == LayoutObjectKind::Inline && previous_sibling_kind == LayoutObjectKind::Inline
            ==> position_for(kind, parent_point, previous_sibling_kind, Some(point), Some(size))
            == (LayoutPoint { x: (point.x + size.width) as i64, y: point.y }),
        position_for(kind, parent_point, previous_sibling_kind, None, Some(size)) == parent_point,
        position_for(kind, parent_point, previous_sibling_kind, Some(point), None) == parent_point,
{
}

} // verus!
