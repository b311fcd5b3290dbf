//! Stylesheet parser and the stylesheet data model: rules, selectors,
//! declarations and values. Only a small grammar is covered; malformed input
//! is a fatal, unrecoverable condition reported as a `ParseError`, never as a
//! partial stylesheet.

use vstd::prelude::*;
use crate::parser;
use crate::text::{
    scan_while, seq_starts_with, ws_pred, whitespace_char, lower_char, to_lower_char, is_hex_digit,
    hex_digit_value, hex_digit, lemma_scan_while_bounds, chars_to_string,
    string_to_chars, str_eq,
};

verus! {

broadcast use lemma_scan_while_bounds;

/// Selector specificity: id count, class count, tag count, most significant
/// first.
pub type Specificity = (usize, usize, usize);

#[derive(Debug, PartialEq)]
pub struct Stylesheet {
    pub rules: Vec<Rule>,
}

#[derive(Debug, PartialEq)]
pub struct Rule {
    pub selectors: Vec<Selector>,
    pub declarations: Vec<Declaration>,
}

#[derive(Debug, PartialEq)]
pub enum Selector {
    Simple(SimpleSelector),
}

#[derive(Debug, PartialEq)]
pub struct SimpleSelector {
    pub tag_name: Option<String>,
    pub id: Option<String>,
    pub class: Vec<String>,
}

#[derive(Debug, PartialEq)]
pub struct Declaration {
    pub name: String,
    pub value: Value,
}

/// A declaration value. The numeric part of a length is kept as the digit
/// text it was written with (digits with at most one dot), since no geometry
/// is computed in this scope.
#[derive(Debug, PartialEq)]
pub enum Value {
    Keyword(String),
    Length(String, Unit),
    ColorValue(Color),
}

#[derive(Debug, PartialEq, Eq, Structural, Clone, Copy)]
pub enum Unit {
    Px,
    Percentage,
    Em,
    UnknownUnit,
}

#[derive(Debug, PartialEq, Eq, Structural, Clone, Copy)]
pub struct Color {
    pub r: u8,
    pub g: u8,
    pub b: u8,
    pub a: u8,
}

impl Clone for Value {
    /// Cloning keeps the value: the cascade clones declaration values into
    /// the per-element property map.
    fn clone(&self) -> (r: Value)
        ensures
            r == *self,
    {
        match self {
            Value::Keyword(s) => Value::Keyword(s.clone()),
            Value::Length(n, u) => Value::Length(n.clone(), *u),
            Value::ColorValue(c) => Value::ColorValue(*c),
        }
    }
}

/// A grammar violation. The parser produces no partial result and no
/// diagnostic: any violation aborts the whole parse.
#[derive(Debug, PartialEq, Eq, Structural, Clone, Copy)]
pub struct ParseError;

// ---- The mathematical model of the data types ----

#[verifier::ext_equal]
pub ghost struct SimpleSelectorV {
    pub tag_name: Option<Seq<char>>,
    pub id: Option<Seq<char>>,
    pub class: Seq<Seq<char>>,
}

#[verifier::ext_equal]
pub ghost enum SelectorV {
    Simple(SimpleSelectorV),
}

#[verifier::ext_equal]
pub ghost enum ValueV {
    Keyword(Seq<char>),
    Length(Seq<char>, Unit),
    ColorValue(Color),
}

#[verifier::ext_equal]
pub ghost struct DeclarationV {
    pub name: Seq<char>,
    pub value: ValueV,
}

#[verifier::ext_equal]
pub ghost struct RuleV {
    pub selectors: Seq<SelectorV>,
    pub declarations: Seq<DeclarationV>,
}

#[verifier::ext_equal]
pub ghost struct StylesheetV {
    pub rules: Seq<RuleV>,
}

impl View for SimpleSelector {
    type V = SimpleSelectorV;

    open spec fn view(&self) -> SimpleSelectorV {
        SimpleSelectorV {
            tag_name: match self.tag_name {
                Some(ref t) => Some(t@),
                None => None,
            },
            id: match self.id {
                Some(ref t) => Some(t@),
                None => None,
            },
            class: self.class@.map_values(|s: String| s@),
        }
    }
}

impl View for Selector {
    type V = SelectorV;

    open spec fn view(&self) -> SelectorV {
        match self {
            Selector::Simple(s) => SelectorV::Simple(s@),
        }
    }
}

impl View for Value {
    type V = ValueV;

    open spec fn view(&self) -> ValueV {
        match self {
            Value::Keyword(s) => ValueV::Keyword(s@),
            Value::Length(n, u) => ValueV::Length(n@, *u),
            Value::ColorValue(c) => ValueV::ColorValue(*c),
        }
    }
}

impl View for Declaration {
    type V = DeclarationV;

    open spec fn view(&self) -> DeclarationV {
        DeclarationV { name: self.name@, value: self.value@ }
    }
}

impl View for Rule {
    type V = RuleV;

    open spec fn view(&self) -> RuleV {
        RuleV {
            selectors: self.selectors@.map_values(|s: Selector| s@),
            declarations: self.declarations@.map_values(|d: Declaration| d@),
        }
    }
}

impl View for Stylesheet {
    type V = StylesheetV;

    open spec fn view(&self) -> StylesheetV {
        StylesheetV { rules: self.rules@.map_values(|r: Rule| r@) }
    }
}

// ---- Specificity ----

/// The (id, class, tag) specificity triple of a selector.
pub open spec fn spec_specificity(sel: SelectorV) -> (int, int, int) {
    match sel {
        SelectorV::Simple(s) => (
            if s.id is Some { 1int } else { 0int },
            s.class.len() as int,
            if s.tag_name is Some { 1int } else { 0int },
        ),
    }
}

/// Strict lexicographic order on specificity triples, first component most
/// significant.
pub open spec fn spec_lt3(a: (int, int, int), b: (int, int, int)) -> bool {
    a.0 < b.0 || (a.0 == b.0 && (a.1 < b.1 || (a.1 == b.1 && a.2 < b.2)))
}

impl Selector {
    /// The (id, class, tag) specificity of this selector.
    pub fn specificity(&self) -> (r: Specificity)
        ensures
            (r.0 as int, r.1 as int, r.2 as int) == spec_specificity(self@),
    {
        let Selector::Simple(simple) = self;
        let id: usize = if simple.id.is_some() { 1 } else { 0 };
        let class: usize = simple.class.len();
        let tag: usize = if simple.tag_name.is_some() { 1 } else { 0 };
        (id, class, tag)
    }
}

/// Does `a` come strictly before `b` in the order used for cascading, i.e.
/// is `a`'s specificity lexicographically smaller?
pub fn specificity_lt(a: Specificity, b: Specificity) -> (r: bool)
    ensures
        r == spec_lt3((a.0 as int, a.1 as int, a.2 as int), (b.0 as int, b.1 as int, b.2 as int)),
{
    a.0 < b.0 || (a.0 == b.0 && (a.1 < b.1 || (a.1 == b.1 && a.2 < b.2)))
}

/// Law: specificity triples compare lexicographically, the id count weighing
/// most, then the class count, then the tag count; selectors that differ
/// anywhere in the triple are ordered by the most significant differing
/// component, regardless of the other counts.
pub proof fn lemma_specificity_lexicographic(a: SelectorV, b: SelectorV)
    ensures
        spec_lt3(spec_specificity(a), spec_specificity(b)) <==> ({
            let sa = spec_specificity(a);
            let sb = spec_specificity(b);
            ||| sa.0 < sb.0
            ||| (sa.0 == sb.0 && sa.1 < sb.1)
            ||| (sa.0 == sb.0 && sa.1 == sb.1 && sa.2 < sb.2)
        }),
        spec_specificity(a).0 > spec_specificity(b).0 ==> !spec_lt3(
            spec_specificity(a),
            spec_specificity(b),
        ),
{
}

// ---- Sorting selectors by descending specificity ----
//
// Selector lists are sorted once at parse time, highest specificity first;
// the sort is stable, as the standard library's is.

/// Insert `x` into a sorted-descending selector sequence, after every element
/// whose specificity is greater than or equal to `x`'s.
pub open spec fn insert_selector_desc(sorted: Seq<SelectorV>, x: SelectorV) -> Seq<SelectorV>
    decreases sorted.len(),
{
    if sorted.len() > 0 && spec_lt3(spec_specificity(sorted.last()), spec_specificity(x)) {
        insert_selector_desc(sorted.drop_last(), x).push(sorted.last())
    } else {
        sorted.push(x)
    }
}

/// Stable insertion sort of a selector sequence, descending by specificity.
pub open spec fn sort_selectors_desc(sels: Seq<SelectorV>) -> Seq<SelectorV>
    decreases sels.len(),
{
    if sels.len() == 0 {
        Seq::empty()
    } else {
        insert_selector_desc(sort_selectors_desc(sels.drop_last()), sels.last())
    }
}

/// The views of the selectors in `v`.
pub open spec fn views_of_selectors(s: Seq<Selector>) -> Seq<SelectorV> {
    s.map_values(|x: Selector| x@)
}

/// Descending by specificity: no later selector outranks an earlier one.
pub open spec fn selectors_sorted_desc(s: Seq<SelectorV>) -> bool {
    forall|i: int, j: int|
        0 <= i < j < s.len() ==> !spec_lt3(
            spec_specificity(#[trigger] s[i]),
            spec_specificity(#[trigger] s[j]),
        )
}

proof fn lemma_insert_selector_desc_props(s: Seq<SelectorV>, x: SelectorV)
    requires
        selectors_sorted_desc(s),
    ensures
        selectors_sorted_desc(insert_selector_desc(s, x)),
        insert_selector_desc(s, x).to_multiset() == s.to_multiset().insert(x),
        insert_selector_desc(s, x).len() == s.len() + 1,
        forall|k: int|
            0 <= k < insert_selector_desc(s, x).len() ==> #[trigger] insert_selector_desc(s, x)[k]
                == x || s.contains(insert_selector_desc(s, x)[k]),
    decreases s.len(),
{
    broadcast use vstd::seq_lib::group_to_multiset_ensures;

    let r = insert_selector_desc(s, x);
    if s.len() > 0 && spec_lt3(spec_specificity(s.last()), spec_specificity(x)) {
        let dl = s.drop_last();
        assert(selectors_sorted_desc(dl)) by {
            assert(forall|i: int| 0 <= i < dl.len() ==> dl[i] == s[i]);
        }
        lemma_insert_selector_desc_props(dl, x);
        let r0 = insert_selector_desc(dl, x);
        assert(selectors_sorted_desc(r)) by {
            assert forall|i: int, j: int| 0 <= i < j < r.len() implies !spec_lt3(
                spec_specificity(r[i]),
                spec_specificity(r[j]),
            ) by {
                if j < r0.len() {
                    assert(r[i] == r0[i] && r[j] == r0[j]);
                } else {
                    assert(r[i] == r0[i] && r[j] == s.last());
                    if r0[i] == x {
                    } else {
                        let m = choose|m: int| 0 <= m < dl.len() && dl[m] == r0[i];
                        assert(s[m] == r0[i]);
                        assert(!spec_lt3(spec_specificity(s[m]), spec_specificity(s.last())));
                    }
                }
            }
        }
        assert(r.to_multiset() =~= s.to_multiset().insert(x)) by {
            assert(r =~= r0.push(s.last()));
            assert(s =~= dl.push(s.last()));
            assert(r.to_multiset() =~= r0.to_multiset().insert(s.last()));
            assert(s.to_multiset() =~= dl.to_multiset().insert(s.last()));
            assert(dl.to_multiset().insert(x).insert(s.last()) =~= dl.to_multiset().insert(
                s.last(),
            ).insert(x));
        }
        assert forall|k: int| 0 <= k < r.len() implies #[trigger] r[k] == x || s.contains(
            r[k],
        ) by {
            if k < r0.len() {
                assert(r[k] == r0[k]);
                if r0[k] != x {
                    let m = choose|m: int| 0 <= m < dl.len() && dl[m] == r0[k];
                    assert(s[m] == r0[k]);
                }
            } else {
                assert(r[k] == s.last());
                assert(s[s.len() - 1] == s.last());
            }
        }
    } else {
        assert(r =~= s.push(x));
        assert(selectors_sorted_desc(r)) by {
            assert forall|i: int, j: int| 0 <= i < j < r.len() implies !spec_lt3(
                spec_specificity(r[i]),
                spec_specificity(r[j]),
            ) by {
                if j < s.len() {
                    assert(r[i] == s[i] && r[j] == s[j]);
                } else {
                    assert(r[i] == s[i] && r[j] == x);
                    assert(!spec_lt3(spec_specificity(s.last()), spec_specificity(x)));
                    assert(!spec_lt3(spec_specificity(s[i]), spec_specificity(s.last())));
                }
            }
        }
        assert(r.to_multiset() =~= s.to_multiset().insert(x));
        assert forall|k: int| 0 <= k < r.len() implies #[trigger] r[k] == x || s.contains(
            r[k],
        ) by {
            if k < s.len() {
                assert(r[k] == s[k]);
            }
        }
    }
}

/// Law: the parse-time sort leaves each rule's selector list descending by
/// specificity and keeps exactly the parsed selectors; this fixes the
/// candidate order that rule matching consults.
pub proof fn lemma_sort_selectors_desc(sels: Seq<SelectorV>)
    ensures
        selectors_sorted_desc(sort_selectors_desc(sels)),
        sort_selectors_desc(sels).to_multiset() == sels.to_multiset(),
        sort_selectors_desc(sels).len() == sels.len(),
    decreases sels.len(),
{
    broadcast use vstd::seq_lib::group_to_multiset_ensures;

    if sels.len() > 0 {
        let dl = sels.drop_last();
        lemma_sort_selectors_desc(dl);
        lemma_insert_selector_desc_props(sort_selectors_desc(dl), sels.last());
        assert(sels =~= dl.push(sels.last()));
        assert(sels.to_multiset() =~= dl.to_multiset().insert(sels.last()));
        assert(sort_selectors_desc(sels).to_multiset() =~= sort_selectors_desc(
            dl,
        ).to_multiset().insert(sels.last()));
    }
}

// ---- The grammar, as spec functions ----
//
// Each `spec_parse_*` function says exactly what the corresponding parsing
// method consumes and returns, as a function of the input characters and the
// cursor position. `None` is the fatal outcome: the input violates the
// grammar and no result exists.

/// Characters allowed in identifiers: ASCII letters, digits, hyphen,
/// underscore.
pub open spec fn valid_ident_char(c: char) -> bool {
    ('a' <= c && c <= 'z') || ('A' <= c && c <= 'Z') || ('0' <= c && c <= '9') || c == '-' || c
        == '_'
}

pub open spec fn ident_pred() -> spec_fn(char) -> bool {
    |c: char| valid_ident_char(c)
}

/// Is `c` a valid identifier character?
pub fn valid_identifier_char(c: char) -> (r: bool)
    ensures
        r == valid_ident_char(c),
{
    ('a' <= c && c <= 'z') || ('A' <= c && c <= 'Z') || ('0' <= c && c <= '9') || c == '-' || c
        == '_'
}

/// The identifier starting at `pos`: the longest run of identifier
/// characters, possibly empty, and the position after it.
pub open spec fn spec_parse_identifier(s: Seq<char>, pos: int) -> (Seq<char>, int) {
    let end = scan_while(s, pos, ident_pred());
    (s.subrange(pos, end), end)
}

/// The start of the first comment terminator `*/` at or after `pos`, if the
/// input still holds one.
pub open spec fn find_comment_close(s: Seq<char>, pos: int) -> Option<int>
    decreases s.len() - pos,
{
    if pos + 1 < s.len() && s[pos] == '*' && s[pos + 1] == '/' {
        Some(pos)
    } else if pos < s.len() {
        find_comment_close(s, pos + 1)
    } else {
        None
    }
}

pub broadcast proof fn lemma_find_comment_close_bounds(s: Seq<char>, pos: int)
    requires
        0 <= pos,
    ensures
        (#[trigger] find_comment_close(s, pos)) is Some ==> pos <= find_comment_close(
            s,
            pos,
        ).unwrap() && find_comment_close(s, pos).unwrap() + 2 <= s.len(),
    decreases s.len() - pos,
{
    if pos + 1 < s.len() && s[pos] == '*' && s[pos + 1] == '/' {
    } else if pos < s.len() {
        lemma_find_comment_close_bounds(s, pos + 1);
    }
}

/// The position after the run of whitespace and `/* ... */` comments starting
/// at `pos`; `None` when a comment is opened but never terminated, which is
/// fatal.
pub open spec fn spec_skip_space_comments(s: Seq<char>, pos: int) -> Option<int>
    decreases s.len() - pos,
{
    let p1 = scan_while(s, pos, ws_pred());
    if seq_starts_with(s, p1, seq!['/', '*']) {
        match find_comment_close(s, p1 + 2) {
            Some(q) => if pos < q + 2 && q + 2 <= s.len() {
                spec_skip_space_comments(s, q + 2)
            } else {
                None
            },
            None => None,
        }
    } else {
        Some(p1)
    }
}

pub broadcast proof fn lemma_skip_space_comments_bounds(s: Seq<char>, pos: int)
    requires
        0 <= pos <= s.len(),
    ensures
        (#[trigger] spec_skip_space_comments(s, pos)) is Some ==> pos <= spec_skip_space_comments(
            s,
            pos,
        ).unwrap() <= s.len(),
    decreases s.len() - pos,
{
    broadcast use lemma_find_comment_close_bounds;

    let p1 = scan_while(s, pos, ws_pred());
    if seq_starts_with(s, p1, seq!['/', '*']) {
        match find_comment_close(s, p1 + 2) {
            Some(q) => {
                if q + 2 > pos {
                    lemma_skip_space_comments_bounds(s, q + 2);
                }
            },
            None => {},
        }
    }
}

/// One simple selector starting at `pos`, accumulated onto `acc`: a `#id`,
/// `.class`, `*` or tag-name item at a time, in any order, stopping at the
/// first character that starts none of them. Never fatal.
pub open spec fn spec_parse_simple_selector(s: Seq<char>, pos: int, acc: SimpleSelectorV) -> (
    SimpleSelectorV,
    int,
)
    decreases s.len() - pos,
{
    if pos >= s.len() {
        (acc, pos)
    } else if s[pos] == '#' {
        let (name, end) = spec_parse_identifier(s, pos + 1);
        if pos < end && end <= s.len() {
            spec_parse_simple_selector(s, end, SimpleSelectorV { id: Some(name), ..acc })
        } else {
            (acc, pos)
        }
    } else if s[pos] == '.' {
        let (name, end) = spec_parse_identifier(s, pos + 1);
        if pos < end && end <= s.len() {
            spec_parse_simple_selector(
                s,
                end,
                SimpleSelectorV { class: acc.class.push(name), ..acc },
            )
        } else {
            (acc, pos)
        }
    } else if s[pos] == '*' {
        spec_parse_simple_selector(s, pos + 1, acc)
    } else if valid_ident_char(s[pos]) {
        let (name, end) = spec_parse_identifier(s, pos);
        if pos < end && end <= s.len() {
            spec_parse_simple_selector(s, end, SimpleSelectorV { tag_name: Some(name), ..acc })
        } else {
            (acc, pos)
        }
    } else {
        (acc, pos)
    }
}

/// An empty simple selector, onto which parsing accumulates.
pub open spec fn empty_simple_selector() -> SimpleSelectorV {
    SimpleSelectorV { tag_name: None, id: None, class: Seq::empty() }
}

/// The comma-separated selector list of one rule, in source order, ending
/// just before the `{` (or before the first unexpected character, which the
/// declaration parser will then reject). Fatal when the input ends first.
pub open spec fn spec_parse_selector_list(s: Seq<char>, pos: int) -> Option<(Seq<SelectorV>, int)>
    decreases s.len() - pos,
{
    let (ssel, p1) = spec_parse_simple_selector(s, pos, empty_simple_selector());
    match spec_skip_space_comments(s, p1) {
        None => None,
        Some(p2) => if p2 >= s.len() {
            None
        } else if s[p2] == ',' {
            match spec_skip_space_comments(s, p2 + 1) {
                None => None,
                Some(p3) => if pos < p3 && p3 <= s.len() {
                    match spec_parse_selector_list(s, p3) {
                        None => None,
                        Some((rest, pend)) => Some(
                            (seq![SelectorV::Simple(ssel)] + rest, pend),
                        ),
                    }
                } else {
                    None
                },
            }
        } else {
            Some((seq![SelectorV::Simple(ssel)], p2))
        },
    }
}

/// The selector list of one rule, sorted descending by specificity (stable).
pub open spec fn spec_parse_selectors(s: Seq<char>, pos: int) -> Option<(Seq<SelectorV>, int)> {
    match spec_parse_selector_list(s, pos) {
        None => None,
        Some((sels, p)) => Some((sort_selectors_desc(sels), p)),
    }
}

/// The numeric text of a length starting at `pos`: the run of digits and
/// dots. Fatal when it does not denote a number (more than one dot).
pub open spec fn num_pred() -> spec_fn(char) -> bool {
    |c: char| ('0' <= c && c <= '9') || c == '.'
}

/// How many characters of `t` are the dot.
pub open spec fn dot_count(t: Seq<char>) -> int {
    t.fold_left(0int, |n: int, c: char| if c == '.' { n + 1 } else { n })
}

pub open spec fn spec_parse_number(s: Seq<char>, pos: int) -> Option<(Seq<char>, int)> {
    let end = scan_while(s, pos, num_pred());
    let t = s.subrange(pos, end);
    if dot_count(t) <= 1 {
        Some((t, end))
    } else {
        None
    }
}

/// The unit token starting at `pos`: everything up to whitespace or `;`,
/// folded to lowercase and compared against the known units. Unknown text is
/// not fatal; it yields `UnknownUnit`.
pub open spec fn unit_pred() -> spec_fn(char) -> bool {
    |c: char| !whitespace_char(c) && c != ';'
}

pub open spec fn spec_parse_unit(s: Seq<char>, pos: int) -> (Unit, int) {
    let end = scan_while(s, pos, unit_pred());
    let t = s.subrange(pos, end).map_values(|c: char| lower_char(c));
    let u = if t == "px"@ {
        Unit::Px
    } else if t == "%"@ {
        Unit::Percentage
    } else if t == "em"@ {
        Unit::Em
    } else {
        Unit::UnknownUnit
    };
    (u, end)
}

pub open spec fn spec_parse_length(s: Seq<char>, pos: int) -> Option<(ValueV, int)> {
    match spec_parse_number(s, pos) {
        None => None,
        Some((t, p1)) => {
            let (u, p2) = spec_parse_unit(s, p1);
            Some((ValueV::Length(t, u), p2))
        },
    }
}

/// Two hexadecimal digits at `pos`. Fatal when the input is too short or a
/// character is not a hexadecimal digit.
pub open spec fn spec_parse_hex_pair(s: Seq<char>, pos: int) -> Option<(u8, int)> {
    if pos + 2 <= s.len() && is_hex_digit(s[pos]) && is_hex_digit(s[pos + 1]) {
        Some(((hex_digit_value(s[pos]) * 16 + hex_digit_value(s[pos + 1])) as u8, pos + 2))
    } else {
        None
    }
}

/// A hex color `#rrggbb` starting at `pos`; the alpha channel is fixed at
/// 255.
pub open spec fn spec_parse_color(s: Seq<char>, pos: int) -> Option<(ValueV, int)> {
    if pos < s.len() && s[pos] == '#' {
        match spec_parse_hex_pair(s, pos + 1) {
            None => None,
            Some((r, p1)) => match spec_parse_hex_pair(s, p1) {
                None => None,
                Some((g, p2)) => match spec_parse_hex_pair(s, p2) {
                    None => None,
                    Some((b, p3)) => Some(
                        (ValueV::ColorValue(Color { r, g, b, a: 255 }), p3),
                    ),
                },
            },
        }
    } else {
        None
    }
}

/// A declaration value: a length when it starts with a digit, a color when it
/// starts with `#`, otherwise a keyword. Fatal at end of input.
pub open spec fn spec_parse_value(s: Seq<char>, pos: int) -> Option<(ValueV, int)> {
    if pos >= s.len() {
        None
    } else if '0' <= s[pos] && s[pos] <= '9' {
        spec_parse_length(s, pos)
    } else if s[pos] == '#' {
        spec_parse_color(s, pos)
    } else {
        let (name, end) = spec_parse_identifier(s, pos);
        Some((ValueV::Keyword(name), end))
    }
}

/// One `name : value ;` declaration starting at `pos`.
pub open spec fn spec_parse_declaration(s: Seq<char>, pos: int) -> Option<(DeclarationV, int)> {
    let (name, p1) = spec_parse_identifier(s, pos);
    match spec_skip_space_comments(s, p1) {
        None => None,
        Some(p2) => if p2 < s.len() && s[p2] == ':' {
            match spec_skip_space_comments(s, p2 + 1) {
                None => None,
                Some(p3) => match spec_parse_value(s, p3) {
                    None => None,
                    Some((value, p4)) => match spec_skip_space_comments(s, p4) {
                        None => None,
                        Some(p5) => if p5 < s.len() && s[p5] == ';' {
                            Some((DeclarationV { name, value }, p5 + 1))
                        } else {
                            None
                        },
                    },
                },
            }
        } else {
            None
        },
    }
}

pub broadcast proof fn lemma_parse_value_bounds(s: Seq<char>, pos: int)
    requires
        0 <= pos <= s.len(),
    ensures
        (#[trigger] spec_parse_value(s, pos)) is Some ==> pos <= spec_parse_value(
            s,
            pos,
        ).unwrap().1 <= s.len(),
{
}

pub broadcast proof fn lemma_parse_declaration_bounds(s: Seq<char>, pos: int)
    requires
        0 <= pos <= s.len(),
    ensures
        (#[trigger] spec_parse_declaration(s, pos)) is Some ==> pos < spec_parse_declaration(
            s,
            pos,
        ).unwrap().1 <= s.len(),
{
    broadcast use lemma_skip_space_comments_bounds, lemma_parse_value_bounds;

}

/// The declarations after the opening `{`, each separated by whitespace and
/// comments, up to and past the closing `}`.
pub open spec fn spec_parse_declarations_tail(s: Seq<char>, pos: int) -> Option<
    (Seq<DeclarationV>, int),
>
    decreases s.len() - pos,
{
    match spec_skip_space_comments(s, pos) {
        None => None,
        Some(p1) => if p1 >= s.len() {
            None
        } else if s[p1] == '}' {
            Some((Seq::empty(), p1 + 1))
        } else {
            match spec_parse_declaration(s, p1) {
                None => None,
                Some((decl, p2)) => if pos < p2 && p2 <= s.len() {
                    match spec_parse_declarations_tail(s, p2) {
                        None => None,
                        Some((rest, pend)) => Some((seq![decl] + rest, pend)),
                    }
                } else {
                    None
                },
            }
        },
    }
}

/// The `{ declaration* }` block of one rule starting at `pos`.
pub open spec fn spec_parse_declarations(s: Seq<char>, pos: int) -> Option<
    (Seq<DeclarationV>, int),
> {
    if pos < s.len() && s[pos] == '{' {
        spec_parse_declarations_tail(s, pos + 1)
    } else {
        None
    }
}

/// One rule: a selector list followed by its declaration block.
pub open spec fn spec_parse_rule(s: Seq<char>, pos: int) -> Option<(RuleV, int)> {
    match spec_parse_selectors(s, pos) {
        None => None,
        Some((selectors, p1)) => match spec_parse_declarations(s, p1) {
            None => None,
            Some((declarations, p2)) => Some((RuleV { selectors, declarations }, p2)),
        },
    }
}

pub broadcast proof fn lemma_parse_declarations_tail_bounds(s: Seq<char>, pos: int)
    requires
        0 <= pos <= s.len(),
    ensures
        (#[trigger] spec_parse_declarations_tail(s, pos)) is Some ==> pos
            < spec_parse_declarations_tail(s, pos).unwrap().1 <= s.len(),
    decreases s.len() - pos,
{
    broadcast use lemma_skip_space_comments_bounds, lemma_parse_declaration_bounds;

    match spec_skip_space_comments(s, pos) {
        None => {},
        Some(p1) => if p1 < s.len() && s[p1] != '}' {
            match spec_parse_declaration(s, p1) {
                None => {},
                Some((decl, p2)) => if pos < p2 && p2 <= s.len() {
                    lemma_parse_declarations_tail_bounds(s, p2);
                },
            }
        } else {
        },
    }
}

/// Rules separated by whitespace and comments, up to the end of the input.
pub open spec fn spec_parse_rules(s: Seq<char>, pos: int) -> Option<(Seq<RuleV>, int)>
    decreases s.len() - pos,
{
    match spec_skip_space_comments(s, pos) {
        None => None,
        Some(p1) => if p1 >= s.len() {
            Some((Seq::empty(), p1))
        } else {
            match spec_parse_rule(s, p1) {
                None => None,
                Some((rule, p2)) => if pos < p2 && p2 <= s.len() {
                    match spec_parse_rules(s, p2) {
                        None => None,
                        Some((rest, pend)) => Some((seq![rule] + rest, pend)),
                    }
                } else {
                    None
                },
            }
        },
    }
}

/// What parsing a whole stylesheet yields: its rule list, or nothing when the
/// source violates the grammar.
pub open spec fn spec_parse_stylesheet(s: Seq<char>) -> Option<StylesheetV> {
    match spec_parse_rules(s, 0) {
        None => None,
        Some((rules, _)) => Some(StylesheetV { rules }),
    }
}

// ---- The executable parser ----

pub open spec fn views_of_declarations(s: Seq<Declaration>) -> Seq<DeclarationV> {
    s.map_values(|x: Declaration| x@)
}

pub open spec fn views_of_rules(s: Seq<Rule>) -> Seq<RuleV> {
    s.map_values(|x: Rule| x@)
}

/// Insert a parsed selector into an already-sorted prefix, keeping the
/// descending, stable order that `insert_selector_desc` describes.
fn insert_selector_sorted(v: &mut Vec<Selector>, x: Selector)
    ensures
        views_of_selectors(final(v)@) == insert_selector_desc(views_of_selectors(old(v)@), x@),
    decreases old(v)@.len(),
{
    let ghost pre = v@;
    if v.len() > 0 {
        let sx = x.specificity();
        let sl = v[v.len() - 1].specificity();
        if specificity_lt(sl, sx) {
            let last = v.pop().unwrap();
            proof {
                assert(views_of_selectors(v@) =~= views_of_selectors(pre).drop_last());
                assert(views_of_selectors(pre).last() == last@);
            }
            insert_selector_sorted(v, x);
            v.push(last);
            proof {
                assert(views_of_selectors(v@) =~= insert_selector_desc(
                    views_of_selectors(pre).drop_last(),
                    x@,
                ).push(last@));
            }
            return ;
        }
    }
    v.push(x);
    proof {
        assert(views_of_selectors(v@) =~= views_of_selectors(pre).push(x@));
    }
}

/// Sort a selector list descending by specificity; the sort is stable.
fn sort_selectors(v: &mut Vec<Selector>)
    ensures
        views_of_selectors(final(v)@) == sort_selectors_desc(views_of_selectors(old(v)@)),
    decreases old(v)@.len(),
{
    let ghost pre = v@;
    if v.len() == 0 {
        proof {
            assert(views_of_selectors(pre) =~= Seq::<SelectorV>::empty());
        }
        return ;
    }
    let x = v.pop().unwrap();
    proof {
        assert(views_of_selectors(v@) =~= views_of_selectors(pre).drop_last());
        assert(views_of_selectors(pre).last() == x@);
    }
    sort_selectors(v);
    insert_selector_sorted(v, x);
}

struct Parser {
    p: parser::Parser,
}

impl Parser {
    spec fn wf(&self) -> bool {
        self.p.wf()
    }

    spec fn src(&self) -> Seq<char> {
        self.p.input@
    }

    spec fn at(&self) -> int {
        self.p.pos as int
    }

    /// Parse a string of valid identifier characters (possibly empty).
    fn parse_identifier(&mut self) -> (r: String)
        requires
            old(self).wf(),
        ensures
            final(self).wf(),
            final(self).p.input == old(self).p.input,
            old(self).at() <= final(self).at(),
            spec_parse_identifier(old(self).src(), old(self).at()) == (r@, final(self).at()),
    {
        let test = |c: char| -> (b: bool)
            ensures
                b == valid_ident_char(c),
            { valid_identifier_char(c) };
        self.p.consume_while(test, Ghost(ident_pred()))
    }

    /// Consume and discard whitespace and comments; an unterminated comment
    /// is fatal.
    fn consume_whitespace_and_comments(&mut self) -> (r: Result<(), ParseError>)
        requires
            old(self).wf(),
        ensures
            final(self).wf(),
            final(self).p.input == old(self).p.input,
            old(self).at() <= final(self).at(),
            match r {
                Ok(_) => spec_skip_space_comments(old(self).src(), old(self).at()) == Some(
                    final(self).at(),
                ),
                Err(_) => spec_skip_space_comments(old(self).src(), old(self).at()) is None,
            },
        decreases old(self).p.input.len() - old(self).p.pos,
    {
        let ghost s = self.src();
        let ghost pos0 = self.at();
        self.p.consume_whitespace();
        proof {
            reveal_strlit("/*");
            assert("/*"@ =~= seq!['/', '*']);
        }
        if !self.p.starts_with("/*") {
            return Ok(());
        }
        let _ = self.p.consume_char();
        let _ = self.p.consume_char();
        let ghost cstart = self.at();
        let ghost orig = self.p;
        proof {
            reveal_strlit("*/");
            assert("*/"@ =~= seq!['*', '/']);
        }
        loop
            invariant
                self.p.wf(),
                self.p.input == orig.input,
                self.p.input@ == s,
                0 <= cstart <= self.at() <= s.len(),
                find_comment_close(s, cstart) == find_comment_close(s, self.at()),
            ensures
                self.p.wf(),
                self.p.input == orig.input,
                self.p.input@ == s,
                0 <= cstart <= self.at() <= s.len(),
                find_comment_close(s, cstart) == find_comment_close(s, self.at()),
                self.at() == s.len() || seq_starts_with(s, self.at(), seq!['*', '/']),
            decreases s.len() - self.p.pos,
        {
            proof {
                reveal_strlit("*/");
                assert("*/"@ =~= seq!['*', '/']);
            }
            if self.p.eof() {
                break ;
            }
            if self.p.starts_with("*/") {
                break ;
            }
            let _ = self.p.consume_char();
        }
        proof {
            reveal_strlit("*/");
            assert("*/"@ =~= seq!['*', '/']);
        }
        if self.p.eof() {
            return Err(ParseError);
        }
        let _ = self.p.consume_char();
        let _ = self.p.consume_char();
        self.consume_whitespace_and_comments()
    }

    /// Parse one simple selector: `#id`, `.class`, `*` and tag-name items in
    /// any order, stopping at the first character that starts none of them.
    fn parse_simple_selector(&mut self) -> (r: SimpleSelector)
        requires
            old(self).wf(),
        ensures
            final(self).wf(),
            final(self).p.input == old(self).p.input,
            old(self).at() <= final(self).at(),
            spec_parse_simple_selector(old(self).src(), old(self).at(), empty_simple_selector())
                == (r@, final(self).at()),
    {
        let ghost s = self.src();
        let ghost pos0 = self.at();
        let ghost orig = self.p;
        let mut selector = SimpleSelector { tag_name: None, id: None, class: Vec::new() };
        proof {
            assert(selector@ =~= empty_simple_selector());
        }
        loop
            invariant
                self.p.wf(),
                self.p.input == orig.input,
                self.p.input@ == s,
                0 <= pos0 <= self.at() <= s.len(),
                spec_parse_simple_selector(s, pos0, empty_simple_selector())
                    == spec_parse_simple_selector(s, self.at(), selector@),
            ensures
                self.p.wf(),
                self.p.input == orig.input,
                0 <= pos0 <= self.at() <= s.len(),
                spec_parse_simple_selector(s, pos0, empty_simple_selector()) == (
                    selector@,
                    self.at(),
                ),
            decreases s.len() - self.p.pos,
        {
            if self.p.eof() {
                break ;
            }
            let c = self.p.next_char();
            if c == '#' {
                let ghost before = *self;
                let _ = self.p.consume_char();
                let name = self.parse_identifier();
                let ghost prev = selector@;
                selector.id = Some(name);
                proof {
                    assert(selector@ =~= SimpleSelectorV { id: Some(name@), ..prev });
                }
            } else if c == '.' {
                let _ = self.p.consume_char();
                let name = self.parse_identifier();
                let ghost prev = selector@;
                selector.class.push(name);
                proof {
                    assert(selector@ =~= SimpleSelectorV { class: prev.class.push(name@), ..prev });
                }
            } else if c == '*' {
                let _ = self.p.consume_char();
            } else if valid_identifier_char(c) {
                let name = self.parse_identifier();
                let ghost prev = selector@;
                selector.tag_name = Some(name);
                proof {
                    assert(selector@ =~= SimpleSelectorV { tag_name: Some(name@), ..prev });
                }
            } else {
                break ;
            }
        }
        selector
    }

    /// Parse the comma-separated selector list of one rule, in source order.
    fn parse_selector_list(&mut self) -> (r: Result<Vec<Selector>, ParseError>)
        requires
            old(self).wf(),
        ensures
            final(self).wf(),
            final(self).p.input == old(self).p.input,
            old(self).at() <= final(self).at(),
            match r {
                Ok(v) => spec_parse_selector_list(old(self).src(), old(self).at()) == Some(
                    (views_of_selectors(v@), final(self).at()),
                ),
                Err(_) => spec_parse_selector_list(old(self).src(), old(self).at()) is None,
            },
        decreases old(self).p.input.len() - old(self).p.pos,
    {
        let ghost s = self.src();
        let ghost pos0 = self.at();
        let ssel = self.parse_simple_selector();
        self.consume_whitespace_and_comments()?;
        if self.p.eof() {
            return Err(ParseError);
        }
        let c = self.p.next_char();
        if c == ',' {
            let _ = self.p.consume_char();
            self.consume_whitespace_and_comments()?;
            let mut rest = self.parse_selector_list()?;
            let ghost restv = views_of_selectors(rest@);
            rest.insert(0, Selector::Simple(ssel));
            proof {
                assert(views_of_selectors(rest@) =~= seq![SelectorV::Simple(ssel@)] + restv);
            }
            Ok(rest)
        } else {
            let mut v: Vec<Selector> = Vec::new();
            v.push(Selector::Simple(ssel));
            proof {
                assert(views_of_selectors(v@) =~= seq![SelectorV::Simple(ssel@)]);
            }
            Ok(v)
        }
    }

    /// Parse the selector list of one rule and sort it descending by
    /// specificity; this fixes the candidate order consulted when matching.
    fn parse_selectors(&mut self) -> (r: Result<Vec<Selector>, ParseError>)
        requires
            old(self).wf(),
        ensures
            final(self).wf(),
            final(self).p.input == old(self).p.input,
            old(self).at() <= final(self).at(),
            match r {
                Ok(v) => spec_parse_selectors(old(self).src(), old(self).at()) == Some(
                    (views_of_selectors(v@), final(self).at()),
                ),
                Err(_) => spec_parse_selectors(old(self).src(), old(self).at()) is None,
            },
    {
        let mut selectors = self.parse_selector_list()?;
        sort_selectors(&mut selectors);
        Ok(selectors)
    }

    /// Parse the numeric text of a length: digits with at most one dot;
    /// anything else is a fatal "non-numeric length".
    fn parse_number(&mut self) -> (r: Result<String, ParseError>)
        requires
            old(self).wf(),
        ensures
            final(self).wf(),
            final(self).p.input == old(self).p.input,
            old(self).at() <= final(self).at(),
            match r {
                Ok(t) => spec_parse_number(old(self).src(), old(self).at()) == Some(
                    (t@, final(self).at()),
                ),
                Err(_) => spec_parse_number(old(self).src(), old(self).at()) is None,
            },
    {
        let test = |c: char| -> (b: bool)
            ensures
                b == num_pred()(c),
            { ('0' <= c && c <= '9') || c == '.' };
        let t = self.p.consume_while(test, Ghost(num_pred()));
        let v = string_to_chars(t.as_str());
        let mut dots: usize = 0;
        let mut i: usize = 0;
        while i < v.len()
            invariant
                i <= v.len(),
                dots <= i,
                dots as int == dot_count(v@.subrange(0, i as int)),
            decreases v.len() - i,
        {
            proof {
                assert(v@.subrange(0, i + 1 as int).drop_last() =~= v@.subrange(0, i as int));
            }
            if v[i] == '.' {
                dots = dots + 1;
            }
            i = i + 1;
        }
        proof {
            assert(v@.subrange(0, v@.len() as int) =~= v@);
        }
        if dots <= 1 {
            Ok(t)
        } else {
            Err(ParseError)
        }
    }

    /// Parse the unit token and fold it to lowercase.
    fn parse_unit_value(&mut self) -> (r: String)
        requires
            old(self).wf(),
        ensures
            final(self).wf(),
            final(self).p.input == old(self).p.input,
            old(self).at() <= final(self).at(),
            final(self).at() == scan_while(old(self).src(), old(self).at(), unit_pred()),
            r@ == old(self).src().subrange(old(self).at(), final(self).at()).map_values(
                |c: char| lower_char(c),
            ),
    {
        let test = |c: char| -> (b: bool)
            ensures
                b == unit_pred()(c),
            { !c.is_whitespace() && c != ';' };
        let raw = self.p.consume_while(test, Ghost(unit_pred()));
        let rv = string_to_chars(raw.as_str());
        let mut lv: Vec<char> = Vec::new();
        let mut i: usize = 0;
        while i < rv.len()
            invariant
                i <= rv.len(),
                lv@ == rv@.subrange(0, i as int).map_values(|c: char| lower_char(c)),
            decreases rv.len() - i,
        {
            lv.push(to_lower_char(rv[i]));
            i = i + 1;
            proof {
                assert(lv@ =~= rv@.subrange(0, i as int).map_values(|c: char| lower_char(c)));
            }
        }
        proof {
            assert(rv@.subrange(0, rv@.len() as int) =~= rv@);
        }
        chars_to_string(&lv)
    }

    /// Parse a unit: `px`, `%` or `em`, case-insensitively; any other token
    /// yields the unknown unit rather than a failure.
    fn parse_unit(&mut self) -> (r: Unit)
        requires
            old(self).wf(),
        ensures
            final(self).wf(),
            final(self).p.input == old(self).p.input,
            old(self).at() <= final(self).at(),
            spec_parse_unit(old(self).src(), old(self).at()) == (r, final(self).at()),
    {
        let t = self.parse_unit_value();
        if str_eq(t.as_str(), "px") {
            Unit::Px
        } else if str_eq(t.as_str(), "%") {
            Unit::Percentage
        } else if str_eq(t.as_str(), "em") {
            Unit::Em
        } else {
            Unit::UnknownUnit
        }
    }

    /// Parse a length value: numeric text followed by a unit.
    fn parse_length(&mut self) -> (r: Result<Value, ParseError>)
        requires
            old(self).wf(),
        ensures
            final(self).wf(),
            final(self).p.input == old(self).p.input,
            old(self).at() <= final(self).at(),
            match r {
                Ok(v) => spec_parse_length(old(self).src(), old(self).at()) == Some(
                    (v@, final(self).at()),
                ),
                Err(_) => spec_parse_length(old(self).src(), old(self).at()) is None,
            },
    {
        let num = self.parse_number()?;
        let unit = self.parse_unit();
        Ok(Value::Length(num, unit))
    }

    /// Parse two hexadecimal digits into one channel value.
    fn parse_hex_pair(&mut self) -> (r: Result<u8, ParseError>)
        requires
            old(self).wf(),
        ensures
            final(self).wf(),
            final(self).p.input == old(self).p.input,
            old(self).at() <= final(self).at(),
            match r {
                Ok(n) => spec_parse_hex_pair(old(self).src(), old(self).at()) == Some(
                    (n, final(self).at()),
                ),
                Err(_) => spec_parse_hex_pair(old(self).src(), old(self).at()) is None,
            },
    {
        if self.p.input.len() - self.p.pos < 2 {
            return Err(ParseError);
        }
        let c1 = self.p.consume_char();
        let c2 = self.p.consume_char();
        match (hex_digit(c1), hex_digit(c2)) {
            (Some(h), Some(l)) => Ok(16 * h + l),
            _ => Err(ParseError),
        }
    }

    /// Parse a hex color `#rrggbb`; the alpha channel is fixed at 255.
    fn parse_color(&mut self) -> (r: Result<Value, ParseError>)
        requires
            old(self).wf(),
        ensures
            final(self).wf(),
            final(self).p.input == old(self).p.input,
            old(self).at() <= final(self).at(),
            match r {
                Ok(v) => spec_parse_color(old(self).src(), old(self).at()) == Some(
                    (v@, final(self).at()),
                ),
                Err(_) => spec_parse_color(old(self).src(), old(self).at()) is None,
            },
    {
        if self.p.eof() {
            return Err(ParseError);
        }
        let c = self.p.consume_char();
        if c != '#' {
            return Err(ParseError);
        }
        let r = self.parse_hex_pair()?;
        let g = self.parse_hex_pair()?;
        let b = self.parse_hex_pair()?;
        Ok(Value::ColorValue(Color { r, g, b, a: 255 }))
    }

    /// Parse a declaration value: a length after a digit, a color after `#`,
    /// otherwise a keyword.
    fn parse_value(&mut self) -> (r: Result<Value, ParseError>)
        requires
            old(self).wf(),
        ensures
            final(self).wf(),
            final(self).p.input == old(self).p.input,
            old(self).at() <= final(self).at(),
            match r {
                Ok(v) => spec_parse_value(old(self).src(), old(self).at()) == Some(
                    (v@, final(self).at()),
                ),
                Err(_) => spec_parse_value(old(self).src(), old(self).at()) is None,
            },
    {
        if self.p.eof() {
            return Err(ParseError);
        }
        let c = self.p.next_char();
        if '0' <= c && c <= '9' {
            self.parse_length()
        } else if c == '#' {
            self.parse_color()
        } else {
            Ok(Value::Keyword(self.parse_identifier()))
        }
    }

    /// Parse one `name : value ;` declaration.
    fn parse_declaration(&mut self) -> (r: Result<Declaration, ParseError>)
        requires
            old(self).wf(),
        ensures
            final(self).wf(),
            final(self).p.input == old(self).p.input,
            old(self).at() <= final(self).at(),
            r is Ok ==> old(self).at() < final(self).at(),
            match r {
                Ok(d) => spec_parse_declaration(old(self).src(), old(self).at()) == Some(
                    (d@, final(self).at()),
                ),
                Err(_) => spec_parse_declaration(old(self).src(), old(self).at()) is None,
            },
    {
        let name = self.parse_identifier();
        self.consume_whitespace_and_comments()?;
        if self.p.eof() {
            return Err(ParseError);
        }
        let c = self.p.consume_char();
        if c != ':' {
            return Err(ParseError);
        }
        self.consume_whitespace_and_comments()?;
        let value = self.parse_value()?;
        self.consume_whitespace_and_comments()?;
        if self.p.eof() {
            return Err(ParseError);
        }
        let c2 = self.p.consume_char();
        if c2 != ';' {
            return Err(ParseError);
        }
        Ok(Declaration { name, value })
    }

    /// Parse declarations up to and past the closing `}`.
    fn parse_declarations_tail(&mut self) -> (r: Result<Vec<Declaration>, ParseError>)
        requires
            old(self).wf(),
        ensures
            final(self).wf(),
            final(self).p.input == old(self).p.input,
            old(self).at() <= final(self).at(),
            match r {
                Ok(v) => spec_parse_declarations_tail(old(self).src(), old(self).at()) == Some(
                    (views_of_declarations(v@), final(self).at()),
                ),
                Err(_) => spec_parse_declarations_tail(old(self).src(), old(self).at()) is None,
            },
        decreases old(self).p.input.len() - old(self).p.pos,
    {
        self.consume_whitespace_and_comments()?;
        if self.p.eof() {
            return Err(ParseError);
        }
        if self.p.next_char() == '}' {
            let _ = self.p.consume_char();
            let v: Vec<Declaration> = Vec::new();
            proof {
                assert(views_of_declarations(v@) =~= Seq::<DeclarationV>::empty());
            }
            return Ok(v);
        }
        let d = self.parse_declaration()?;
        let mut rest = self.parse_declarations_tail()?;
        let ghost restv = views_of_declarations(rest@);
        rest.insert(0, d);
        proof {
            assert(views_of_declarations(rest@) =~= seq![d@] + restv);
        }
        Ok(rest)
    }

    /// Parse the `{ declaration* }` block of one rule.
    fn parse_declarations(&mut self) -> (r: Result<Vec<Declaration>, ParseError>)
        requires
            old(self).wf(),
        ensures
            final(self).wf(),
            final(self).p.input == old(self).p.input,
            old(self).at() <= final(self).at(),
            r is Ok ==> old(self).at() < final(self).at(),
            match r {
                Ok(v) => spec_parse_declarations(old(self).src(), old(self).at()) == Some(
                    (views_of_declarations(v@), final(self).at()),
                ),
                Err(_) => spec_parse_declarations(old(self).src(), old(self).at()) is None,
            },
    {
        if self.p.eof() {
            return Err(ParseError);
        }
        let c = self.p.consume_char();
        if c != '{' {
            return Err(ParseError);
        }
        let r = self.parse_declarations_tail();
        proof {
            broadcast use lemma_parse_declarations_tail_bounds;

        }
        r
    }

    /// Parse one rule: a selector list and its declaration block.
    fn parse_rule(&mut self) -> (r: Result<Rule, ParseError>)
        requires
            old(self).wf(),
        ensures
            final(self).wf(),
            final(self).p.input == old(self).p.input,
            old(self).at() <= final(self).at(),
            r is Ok ==> old(self).at() < final(self).at(),
            match r {
                Ok(rule) => spec_parse_rule(old(self).src(), old(self).at()) == Some(
                    (rule@, final(self).at()),
                ),
                Err(_) => spec_parse_rule(old(self).src(), old(self).at()) is None,
            },
    {
        let selectors = self.parse_selectors()?;
        let declarations = self.parse_declarations()?;
        Ok(Rule { selectors, declarations })
    }

    /// Parse rules until the end of the input.
    fn parse_rules(&mut self) -> (r: Result<Vec<Rule>, ParseError>)
        requires
            old(self).wf(),
        ensures
            final(self).wf(),
            final(self).p.input == old(self).p.input,
            old(self).at() <= final(self).at(),
            match r {
                Ok(v) => spec_parse_rules(old(self).src(), old(self).at()) == Some(
                    (views_of_rules(v@), final(self).at()),
                ),
                Err(_) => spec_parse_rules(old(self).src(), old(self).at()) is None,
            },
        decreases old(self).p.input.len() - old(self).p.pos,
    {
        self.consume_whitespace_and_comments()?;
        if self.p.eof() {
            let v: Vec<Rule> = Vec::new();
            proof {
                assert(views_of_rules(v@) =~= Seq::<RuleV>::empty());
            }
            return Ok(v);
        }
        let rule = self.parse_rule()?;
        let mut rest = self.parse_rules()?;
        let ghost restv = views_of_rules(rest@);
        rest.insert(0, rule);
        proof {
            assert(views_of_rules(rest@) =~= seq![rule@] + restv);
        }
        Ok(rest)
    }
}

/// Parse a source string and return a `Stylesheet`, or the fatal error when
/// the source violates the grammar; no partial stylesheet is ever returned.
pub fn parse(source: String) -> (r: Result<Stylesheet, ParseError>)
    ensures
        match r {
            Ok(sheet) => spec_parse_stylesheet(source@) == Some(sheet@),
            Err(_) => spec_parse_stylesheet(source@) is None,
        },
{
    let input = string_to_chars(source.as_str());
    let mut parser = Parser { p: parser::Parser { pos: 0, input } };
    match parser.parse_rules() {
        Ok(rules) => Ok(Stylesheet { rules }),
        Err(e) => Err(e),
    }
}

} // verus!

// The stylesheet renderer: a readable listing of each rule's selectors and
// declarations; printing it is the caller's business.

use vstd::string::StringExecFns;

verus! {

/// The character of one hexadecimal digit value.
pub open spec fn spec_hex_char(n: u8) -> char {
    if n == 0 { '0' } else if n == 1 { '1' } else if n == 2 { '2' } else if n == 3 { '3' }
    else if n == 4 { '4' } else if n == 5 { '5' } else if n == 6 { '6' } else if n == 7 { '7' }
    else if n == 8 { '8' } else if n == 9 { '9' } else if n == 10 { 'a' } else if n == 11 { 'b' }
    else if n == 12 { 'c' } else if n == 13 { 'd' } else if n == 14 { 'e' } else { 'f' }
}

/// One channel as two lowercase hex digits.
pub open spec fn spec_render_channel(n: u8) -> Seq<char> {
    seq![spec_hex_char(n / 16), spec_hex_char(n % 16)]
}

pub open spec fn spec_unit_suffix(u: Unit) -> Seq<char> {
    match u {
        Unit::Px => "px"@,
        Unit::Percentage => "%"@,
        Unit::Em => "em"@,
        Unit::UnknownUnit => Seq::empty(),
    }
}

/// A rendered value: the keyword text, the numeric text with its unit
/// suffix, or `#rrggbb`.
pub open spec fn spec_render_value(v: ValueV) -> Seq<char> {
    match v {
        ValueV::Keyword(k) => k,
        ValueV::Length(n, u) => n + spec_unit_suffix(u),
        ValueV::ColorValue(c) => "#"@ + spec_render_channel(c.r) + spec_render_channel(c.g)
            + spec_render_channel(c.b),
    }
}

pub open spec fn spec_render_classes(cls: Seq<Seq<char>>, i: int) -> Seq<char>
    decreases cls.len() - i,
{
    if i < 0 || i >= cls.len() {
        Seq::empty()
    } else {
        "."@ + cls[i] + spec_render_classes(cls, i + 1)
    }
}

/// A rendered selector: the tag name if any, then `#id` if any, then each
/// class as `.name`.
pub open spec fn spec_render_selector(sel: SelectorV) -> Seq<char> {
    match sel {
        SelectorV::Simple(ss) => (match ss.tag_name {
            Some(t) => t,
            None => Seq::empty(),
        }) + (match ss.id {
            Some(i) => "#"@ + i,
            None => Seq::empty(),
        }) + spec_render_classes(ss.class, 0),
    }
}

/// Rendered selectors, comma-separated.
pub open spec fn spec_render_selectors(sels: Seq<SelectorV>, i: int) -> Seq<char>
    decreases sels.len() - i,
{
    if i < 0 || i >= sels.len() {
        Seq::empty()
    } else if i == sels.len() - 1 {
        spec_render_selector(sels[i])
    } else {
        spec_render_selector(sels[i]) + ", "@ + spec_render_selectors(sels, i + 1)
    }
}

pub open spec fn spec_render_declarations(ds: Seq<DeclarationV>, i: int) -> Seq<char>
    decreases ds.len() - i,
{
    if i < 0 || i >= ds.len() {
        Seq::empty()
    } else {
        "  "@ + ds[i].name + ": "@ + spec_render_value(ds[i].value) + ";\n"@
            + spec_render_declarations(ds, i + 1)
    }
}

pub open spec fn spec_render_rules(rs: Seq<RuleV>, i: int) -> Seq<char>
    decreases rs.len() - i,
{
    if i < 0 || i >= rs.len() {
        Seq::empty()
    } else {
        spec_render_selectors(rs[i].selectors, 0) + " {\n"@ + spec_render_declarations(
            rs[i].declarations,
            0,
        ) + "}\n"@ + spec_render_rules(rs, i + 1)
    }
}

fn hex_char(n: u8) -> (r: char)
    ensures
        r == spec_hex_char(n),
{
    if n == 0 { '0' } else if n == 1 { '1' } else if n == 2 { '2' } else if n == 3 { '3' }
    else if n == 4 { '4' } else if n == 5 { '5' } else if n == 6 { '6' } else if n == 7 { '7' }
    else if n == 8 { '8' } else if n == 9 { '9' } else if n == 10 { 'a' } else if n == 11 { 'b' }
    else if n == 12 { 'c' } else if n == 13 { 'd' } else if n == 14 { 'e' } else { 'f' }
}

fn render_channel(n: u8) -> (r: String)
    ensures
        r@ == spec_render_channel(n),
{
    let mut v: Vec<char> = Vec::new();
    v.push(hex_char(n / 16));
    v.push(hex_char(n % 16));
    proof {
        assert(v@ =~= spec_render_channel(n));
    }
    chars_to_string(&v)
}

fn render_value(v: &Value) -> (r: String)
    ensures
        r@ == spec_render_value(v@),
{
    let mut out = String::new();
    match v {
        Value::Keyword(k) => {
            out.append(k.as_str());
        },
        Value::Length(n, u) => {
            out.append(n.as_str());
            match u {
                Unit::Px => out.append("px"),
                Unit::Percentage => out.append("%"),
                Unit::Em => out.append("em"),
                Unit::UnknownUnit => (),
            }
        },
        Value::ColorValue(c) => {
            out.append("#");
            out.append(render_channel(c.r).as_str());
            out.append(render_channel(c.g).as_str());
            out.append(render_channel(c.b).as_str());
        },
    }
    proof {
        assert(out@ =~= spec_render_value(v@));
    }
    out
}

fn render_selector(sel: &Selector) -> (r: String)
    ensures
        r@ == spec_render_selector(sel@),
{
    let Selector::Simple(ss) = sel;
    let ghost sv = sel@;
    let mut out = String::new();
    match &ss.tag_name {
        Some(t) => out.append(t.as_str()),
        None => (),
    }
    match &ss.id {
        Some(i) => {
            out.append("#");
            out.append(i.as_str());
        },
        None => (),
    }
    let ghost cls = ss@.class;
    let n = ss.class.len();
    let ghost base = out@;
    let mut i: usize = 0;
    while i < n
        invariant
            n == ss.class.len(),
            cls == ss@.class,
            i <= n,
            out@ + spec_render_classes(cls, i as int) == base + spec_render_classes(cls, 0),
        decreases n - i,
    {
        let ghost pre = out@;
        out.append(".");
        out.append(ss.class[i].as_str());
        i = i + 1;
        proof {
            assert(ss@.class[i - 1 as int] == ss.class@[i - 1 as int]@);
            assert(out@ + spec_render_classes(cls, i as int) =~= pre + spec_render_classes(
                cls,
                i - 1 as int,
            ));
        }
    }
    proof {
        assert(out@ =~= out@ + spec_render_classes(cls, n as int));
        assert(out@ =~= spec_render_selector(sv));
    }
    out
}

impl Stylesheet {
    /// Render every rule: its selectors, comma-separated, then one line per
    /// declaration inside braces.
    pub fn pretty_print(&self) -> (r: String)
        ensures
            r@ == spec_render_rules(self@.rules, 0),
    {
        let ghost rsv = self@.rules;
        let mut out = String::new();
        let n = self.rules.len();
        let mut i: usize = 0;
        while i < n
            invariant
                n == self.rules.len(),
                rsv == self@.rules,
                i <= n,
                out@ + spec_render_rules(rsv, i as int) == spec_render_rules(rsv, 0),
            decreases n - i,
        {
            let ghost pre = out@;
            let rule = &self.rules[i];
            proof {
                assert(rsv[i as int] == self.rules@[i as int]@);
            }
            let ghost selsv = rsv[i as int].selectors;
            let m = rule.selectors.len();
            let mut j: usize = 0;
            while j < m
                invariant
                    m == rule.selectors.len(),
                    selsv == rule@.selectors,
                    j <= m,
                    out@ + spec_render_selectors(selsv, j as int) == pre + spec_render_selectors(
                        selsv,
                        0,
                    ),
                decreases m - j,
            {
                let ghost pre2 = out@;
                let sr = render_selector(&rule.selectors[j]);
                out.append(sr.as_str());
                if j + 1 < m {
                    out.append(", ");
                }
                j = j + 1;
                proof {
                    assert(selsv[j - 1 as int] == rule.selectors@[j - 1 as int]@);
                    assert(out@ + spec_render_selectors(selsv, j as int) =~= pre2
                        + spec_render_selectors(selsv, j - 1 as int));
                }
            }
            out.append(" {\n");
            let ghost dsv = rsv[i as int].declarations;
            let ghost pre3 = out@;
            let k0 = rule.declarations.len();
            let mut k: usize = 0;
            while k < k0
                invariant
                    k0 == rule.declarations.len(),
                    dsv == rule@.declarations,
                    k <= k0,
                    out@ + spec_render_declarations(dsv, k as int) == pre3
                        + spec_render_declarations(dsv, 0),
                decreases k0 - k,
            {
                let ghost pre4 = out@;
                out.append("  ");
                out.append(rule.declarations[k].name.as_str());
                out.append(": ");
                let vr = render_value(&rule.declarations[k].value);
                out.append(vr.as_str());
                out.append(";\n");
                k = k + 1;
                proof {
                    assert(dsv[k - 1 as int] == rule.declarations@[k - 1 as int]@);
                    assert(out@ + spec_render_declarations(dsv, k as int) =~= pre4
                        + spec_render_declarations(dsv, k - 1 as int));
                }
            }
            out.append("}\n");
            i = i + 1;
            proof {
                assert(out@ =~= out@ + spec_render_declarations(dsv, k0 as int));
                assert(out@ + spec_render_rules(rsv, i as int) =~= pre + spec_render_rules(
                    rsv,
                    i - 1 as int,
                ));
            }
        }
        proof {
            assert(out@ =~= out@ + spec_render_rules(rsv, n as int));
        }
        out
    }
}

} // verus!
