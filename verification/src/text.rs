//! Text helpers: characters of strings, UTF-8 lengths, trimming and joining
//! words with single spaces.
use vstd::prelude::*;

verus! {

/// Appends `c` to `s` (std's `String::push`).
#[verifier::external_body]
pub(crate) fn push_char(s: &mut String, c: char)
    ensures
        final(s)@ == old(s)@.push(c),
{
    s.push(c);
}

/// The characters of `s`, in order.
pub fn chars_of(s: &str) -> (v: Vec<char>)
    ensures
        v@ == s@,
{
    broadcast use vstd::string::group_string_axioms;
    let mut v: Vec<char> = Vec::new();
    for c in iter: s.chars()
        invariant
            v@ == iter.seq().take(iter.index()),
    {
        v.push(c);
    }
    assert(v@ =~= s@);
    v
}

} // verus!

verus! {

/// The number of bytes that UTF-8 takes for `c`.
pub open spec fn char_utf8_width(c: char) -> int {
    let v = c as u32;
    if v <= 0x7F {
        1
    } else if v <= 0x7FF {
        2
    } else if v <= 0xFFFF {
        3
    } else {
        4
    }
}

/// The number of bytes of the UTF-8 encoding of `s`.
pub open spec fn utf8_len(s: Seq<char>) -> int
    decreases s.len(),
{
    if s.len() == 0 {
        0
    } else {
        char_utf8_width(s[0]) + utf8_len(s.drop_first())
    }
}

pub proof fn lemma_utf8_len_encode(s: Seq<char>)
    ensures
        utf8_len(s) == vstd::utf8::encode_utf8(s).len(),
    decreases s.len(),
{
    if s.len() > 0 {
        lemma_utf8_len_encode(s.drop_first());
        vstd::utf8::char_is_scalar(s[0]);
    }
}

pub proof fn lemma_utf8_len_concat(a: Seq<char>, b: Seq<char>)
    ensures
        utf8_len(a + b) == utf8_len(a) + utf8_len(b),
    decreases a.len(),
{
    if a.len() > 0 {
        assert((a + b).drop_first() =~= a.drop_first() + b);
        lemma_utf8_len_concat(a.drop_first(), b);
    } else {
        assert(a + b =~= b);
    }
}

pub proof fn lemma_utf8_len_nonneg(s: Seq<char>)
    ensures
        utf8_len(s) >= s.len(),
    decreases s.len(),
{
    if s.len() > 0 {
        lemma_utf8_len_nonneg(s.drop_first());
    }
}

/// The byte length of the first `k + 1` characters is that of the first `k`
/// and the width of character `k`.
pub proof fn lemma_utf8_len_take(s: Seq<char>, k: int)
    requires
        0 <= k < s.len(),
    ensures
        utf8_len(s.take(k + 1)) == utf8_len(s.take(k)) + char_utf8_width(s[k]),
{
    assert(s.take(k + 1) =~= s.take(k) + seq![s[k]]);
    lemma_utf8_len_concat(s.take(k), seq![s[k]]);
    assert(seq![s[k]].drop_first() =~= Seq::<char>::empty());
    assert(utf8_len(Seq::<char>::empty()) == 0);
    assert(utf8_len(seq![s[k]]) == char_utf8_width(s[k]));
}

/// Longer prefixes take more bytes.
pub proof fn lemma_utf8_len_take_monotone(s: Seq<char>, j: int, k: int)
    requires
        0 <= j < k <= s.len(),
    ensures
        utf8_len(s.take(j)) < utf8_len(s.take(k)),
    decreases k - j,
{
    lemma_utf8_len_take(s, k - 1);
    if j < k - 1 {
        lemma_utf8_len_take_monotone(s, j, k - 1);
    }
}

/// `b` is the byte offset of the start of a character of `s`, or of its end.
pub open spec fn is_byte_boundary(s: Seq<char>, b: int) -> bool {
    exists|k: int| 0 <= k <= s.len() && #[trigger] utf8_len(s.take(k)) == b
}

/// The index of the character that starts at byte offset `b` of `s`.
pub open spec fn char_index_at_byte(s: Seq<char>, b: int) -> int {
    choose|k: int| 0 <= k <= s.len() && #[trigger] utf8_len(s.take(k)) == b
}

pub proof fn lemma_char_index_at_byte(s: Seq<char>, b: int, k: int)
    requires
        0 <= k <= s.len(),
        utf8_len(s.take(k)) == b,
    ensures
        is_byte_boundary(s, b),
        char_index_at_byte(s, b) == k,
{
    let c = char_index_at_byte(s, b);
    if c < k {
        lemma_utf8_len_take_monotone(s, c, k);
    } else if k < c {
        lemma_utf8_len_take_monotone(s, k, c);
    }
}

/// The number of bytes that UTF-8 takes for `c`.
pub fn char_utf8_width_exec(c: char) -> (w: usize)
    ensures
        w == char_utf8_width(c),
{
    let v = c as u32;
    if v <= 0x7F {
        1
    } else if v <= 0x7FF {
        2
    } else if v <= 0xFFFF {
        3
    } else {
        4
    }
}

/// The characters that have the Unicode `White_Space` property.
pub open spec fn is_white_space(c: char) -> bool {
    let v = c as u32;
    ||| 0x9 <= v <= 0xD
    ||| v == 0x20
    ||| v == 0x85
    ||| v == 0xA0
    ||| v == 0x1680
    ||| 0x2000 <= v <= 0x200A
    ||| v == 0x2028
    ||| v == 0x2029
    ||| v == 0x202F
    ||| v == 0x205F
    ||| v == 0x3000
}

pub fn is_white_space_exec(c: char) -> (b: bool)
    ensures
        b == is_white_space(c),
{
    let v = c as u32;
    (0x9 <= v && v <= 0xD) || v == 0x20 || v == 0x85 || v == 0xA0 || v == 0x1680 || (0x2000 <= v
        && v <= 0x200A) || v == 0x2028 || v == 0x2029 || v == 0x202F || v == 0x205F || v == 0x3000
}

/// The index of the first character at or after `i` that is not white space.
pub open spec fn skip_white_space(s: Seq<char>, i: int) -> int
    decreases s.len() - i,
{
    if 0 <= i < s.len() && is_white_space(s[i]) {
        skip_white_space(s, i + 1)
    } else {
        i
    }
}

/// The end of `s` without the white space that ends it, going no lower than `lo`.
pub open spec fn end_without_white_space(s: Seq<char>, lo: int, j: int) -> int
    decreases j - lo,
{
    if lo < j && is_white_space(s[j - 1]) {
        end_without_white_space(s, lo, j - 1)
    } else {
        j
    }
}

/// `s` without the white space at its start and at its end.
pub open spec fn trim(s: Seq<char>) -> Seq<char> {
    let a = skip_white_space(s, 0);
    s.subrange(a, end_without_white_space(s, a, s.len() as int))
}

/// The characters of `v[from..]` without the white space at their start and end.
pub fn trimmed_from(v: &Vec<char>, from: usize) -> (s: String)
    requires
        from <= v.len(),
    ensures
        s@ == trim(v@.skip(from as int)),
{
    let ghost t = v@.skip(from as int);
    let mut a = from;
    while a < v.len() && is_white_space_exec(v[a])
        invariant
            from <= a <= v.len(),
            t == v@.skip(from as int),
            skip_white_space(t, (a - from) as int) == skip_white_space(t, 0),
        decreases v.len() - a,
    {
        a = a + 1;
    }
    let mut e = v.len();
    while e > a && is_white_space_exec(v[e - 1])
        invariant
            from <= a <= e <= v.len(),
            t == v@.skip(from as int),
            skip_white_space(t, 0) == (a - from) as int,
            end_without_white_space(t, (a - from) as int, (e - from) as int)
                == end_without_white_space(t, (a - from) as int, t.len() as int),
        decreases e - a,
    {
        e = e - 1;
    }
    let s = crate::token::string_from(v, a, e);
    assert(s@ =~= trim(t));
    s
}

/// The text `s` with each line break taken as a space, runs of spaces taken as
/// one, and no space at its start or end; with whether a space is pending.
pub open spec fn collapse_spaces(s: Seq<char>) -> (Seq<char>, bool)
    decreases s.len(),
{
    if s.len() == 0 {
        (Seq::empty(), false)
    } else {
        let (out, pending) = collapse_spaces(s.drop_last());
        let c = s.last();
        if c == ' ' || c == '\n' {
            (out, out.len() > 0)
        } else if pending {
            (out.push(' ').push(c), false)
        } else {
            (out.push(c), false)
        }
    }
}

/// The words of `s` (separated by spaces and line breaks) joined by single
/// spaces.
pub open spec fn normalize_spaces(s: Seq<char>) -> Seq<char> {
    collapse_spaces(s).0
}

/// The words of `t` (separated by spaces and line breaks) joined by single
/// spaces.
pub fn normalize_spaces_exec(t: &String) -> (s: String)
    ensures
        s@ == normalize_spaces(t@),
{
    let v = chars_of(t.as_str());
    let mut out = String::new();
    let mut pending = false;
    let mut i: usize = 0;
    while i < v.len()
        invariant
            i <= v.len(),
            v@ == t@,
            (out@, pending) == collapse_spaces(v@.take(i as int)),
        decreases v.len() - i,
    {
        let c = v[i];
        assert(v@.take(i + 1).drop_last() =~= v@.take(i as int));
        if c == ' ' || c == '\n' {
            pending = !string_is_empty(&out);
        } else {
            if pending {
                push_char(&mut out, ' ');
            }
            push_char(&mut out, c);
            pending = false;
        }
        i = i + 1;
    }
    assert(v@.take(v.len() as int) =~= v@);
    out
}

/// Whether `s` has no characters.
fn string_is_empty(s: &String) -> (b: bool)
    ensures
        b == (s@.len() == 0),
{
    s.as_str().is_empty()
}

/// No line break, no space at either end, and no two spaces in a row.
pub open spec fn is_single_spaced(t: Seq<char>) -> bool {
    &&& forall|i: int| 0 <= i < t.len() ==> #[trigger] t[i] != '\n'
    &&& t.len() > 0 ==> t[0] != ' ' && t.last() != ' '
    &&& forall|i: int| 0 <= i < t.len() - 1 ==> !(#[trigger] t[i] == ' ' && t[i + 1] == ' ')
}

proof fn lemma_collapse_spaces(s: Seq<char>)
    ensures
        is_single_spaced(collapse_spaces(s).0),
        collapse_spaces(s).1 ==> collapse_spaces(s).0.len() > 0,
    decreases s.len(),
{
    if s.len() > 0 {
        lemma_collapse_spaces(s.drop_last());
        let (out, pending) = collapse_spaces(s.drop_last());
        let c = s.last();
        if !(c == ' ' || c == '\n') {
            let mid = if pending {
                out.push(' ')
            } else {
                out
            };
            let r = mid.push(c);
            assert(r == collapse_spaces(s).0);
            assert forall|i: int| 0 <= i < r.len() - 1 implies !(#[trigger] r[i] == ' ' && r[i
                + 1] == ' ') by {
                if i < out.len() - 1 {
                    assert(r[i] == out[i] && r[i + 1] == out[i + 1]);
                } else if i == out.len() - 1 {
                    assert(r[i] == out.last());
                }
            }
            assert forall|i: int| 0 <= i < r.len() implies #[trigger] r[i] != '\n' by {
                if i < out.len() {
                    assert(r[i] == out[i]);
                }
            }
            if out.len() > 0 {
                assert(r[0] == out[0]);
            }
        }
    }
}

/// The words of a text joined by single spaces have no line break, no space at
/// either end and no two spaces in a row.
pub proof fn lemma_normalize_spaces_is_single_spaced(s: Seq<char>)
    ensures
        is_single_spaced(normalize_spaces(s)),
{
    lemma_collapse_spaces(s);
}

/// The characters of `s` that are not white space, in order.
pub open spec fn non_white(s: Seq<char>) -> Seq<char>
    decreases s.len(),
{
    if s.len() == 0 {
        Seq::empty()
    } else if is_white_space(s[0]) {
        non_white(s.drop_first())
    } else {
        seq![s[0]] + non_white(s.drop_first())
    }
}

pub proof fn lemma_non_white_concat(a: Seq<char>, b: Seq<char>)
    ensures
        non_white(a + b) == non_white(a) + non_white(b),
    decreases a.len(),
{
    if a.len() == 0 {
        assert(a + b =~= b);
        assert(non_white(a) + non_white(b) =~= non_white(b));
    } else {
        assert((a + b).drop_first() =~= a.drop_first() + b);
        assert((a + b)[0] == a[0]);
        lemma_non_white_concat(a.drop_first(), b);
        if !is_white_space(a[0]) {
            assert(seq![a[0]] + (non_white(a.drop_first()) + non_white(b)) =~= (seq![a[0]]
                + non_white(a.drop_first())) + non_white(b));
        }
    }
}

proof fn lemma_non_white_all_white(s: Seq<char>)
    requires
        forall|j: int| 0 <= j < s.len() ==> is_white_space(#[trigger] s[j]),
    ensures
        non_white(s) == Seq::<char>::empty(),
    decreases s.len(),
{
    if s.len() > 0 {
        assert(is_white_space(s[0]));
        assert forall|j: int| 0 <= j < s.drop_first().len() implies is_white_space(
            #[trigger] s.drop_first()[j],
        ) by {
            assert(s.drop_first()[j] == s[j + 1]);
        }
        lemma_non_white_all_white(s.drop_first());
    }
}

proof fn lemma_skip_white_space(s: Seq<char>, i: int)
    requires
        0 <= i <= s.len(),
    ensures
        i <= skip_white_space(s, i) <= s.len(),
        forall|j: int| i <= j < skip_white_space(s, i) ==> is_white_space(#[trigger] s[j]),
    decreases s.len() - i,
{
    if i < s.len() && is_white_space(s[i]) {
        lemma_skip_white_space(s, i + 1);
    }
}

proof fn lemma_end_without_white_space(s: Seq<char>, lo: int, j: int)
    requires
        0 <= lo <= j <= s.len(),
    ensures
        lo <= end_without_white_space(s, lo, j) <= j,
        forall|m: int| end_without_white_space(s, lo, j) <= m < j ==> is_white_space(#[trigger] s[m]),
    decreases j - lo,
{
    if lo < j && is_white_space(s[j - 1]) {
        lemma_end_without_white_space(s, lo, j - 1);
    }
}

/// Trimming removes only white space: the other characters stay, in order.
pub proof fn lemma_non_white_trim(s: Seq<char>)
    ensures
        non_white(trim(s)) == non_white(s),
        trim(s).len() <= s.len(),
{
    let a = skip_white_space(s, 0);
    lemma_skip_white_space(s, 0);
    let e = end_without_white_space(s, a, s.len() as int);
    lemma_end_without_white_space(s, a, s.len() as int);
    let front = s.subrange(0, a);
    let back = s.subrange(e, s.len() as int);
    assert(s =~= front + trim(s) + back);
    assert forall|j: int| 0 <= j < front.len() implies is_white_space(#[trigger] front[j]) by {
        assert(front[j] == s[j]);
    }
    assert forall|j: int| 0 <= j < back.len() implies is_white_space(#[trigger] back[j]) by {
        assert(back[j] == s[e + j]);
    }
    lemma_non_white_all_white(front);
    lemma_non_white_all_white(back);
    lemma_non_white_concat(front + trim(s), back);
    lemma_non_white_concat(front, trim(s));
    assert(non_white(trim(s)) + Seq::<char>::empty() =~= non_white(trim(s)));
    assert(Seq::<char>::empty() + non_white(trim(s)) =~= non_white(trim(s)));
}

} // verus!
