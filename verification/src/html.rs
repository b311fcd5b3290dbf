//! Markup parser: a recursive-descent tree builder over the scanner. A node
//! starting with `<` is a comment or an element; anything else is a text run.
//! `<style>` elements are special-cased: their raw body goes to the
//! stylesheet parser and the resulting stylesheet is carried beside the tree,
//! not attached as content. Malformed input is fatal: no partial tree is
//! returned.

use vstd::prelude::*;
use crate::css;
use crate::css::{Stylesheet, StylesheetV, ParseError, spec_parse_stylesheet};
use crate::dom;
use crate::dom::{
    Node, NodeV, NodeTypeV, AttrMap, ElementDataV, DocumentDataV, spec_attr_insert, views_of_nodes,
};
use crate::parser;
use crate::text::{
    scan_while, seq_starts_with, ws_pred, whitespace_char, lemma_scan_while_bounds,
    lemma_scan_while_exact, chars_to_string, string_to_chars, str_eq,
};

verus! {

broadcast use lemma_scan_while_bounds;

/// Tag and attribute names are ASCII letters and digits only.
pub open spec fn alnum_pred() -> spec_fn(char) -> bool {
    |c: char| ('a' <= c && c <= 'z') || ('A' <= c && c <= 'Z') || ('0' <= c && c <= '9')
}

/// A text run stops at the next `<`.
pub open spec fn text_pred() -> spec_fn(char) -> bool {
    |c: char| c != '<'
}

/// An attribute value runs up to the quote character that opened it.
pub open spec fn neq_pred(q: char) -> spec_fn(char) -> bool {
    |c: char| c != q
}

pub open spec fn views_of_stylesheets(s: Seq<Stylesheet>) -> Seq<StylesheetV> {
    s.map_values(|x: Stylesheet| x@)
}

/// The tag (or attribute) name starting at `pos` and the position after it.
pub open spec fn spec_parse_tag_name(s: Seq<char>, pos: int) -> (Seq<char>, int) {
    let end = scan_while(s, pos, alnum_pred());
    (s.subrange(pos, end), end)
}

/// The text node starting at `pos`: everything up to the next `<`. Never
/// fatal.
pub open spec fn spec_parse_text(s: Seq<char>, pos: int) -> (NodeV, int) {
    let end = scan_while(s, pos, text_pred());
    (
        NodeV { children: Seq::empty(), node_type: NodeTypeV::Text(s.subrange(pos, end)) },
        end,
    )
}

/// The start of the first `-->` at or after `pos`, if any.
pub open spec fn find_comment_end(s: Seq<char>, pos: int) -> Option<int>
    decreases s.len() - pos,
{
    if pos + 3 <= s.len() && s[pos] == '-' && s[pos + 1] == '-' && s[pos + 2] == '>' {
        Some(pos)
    } else if pos < s.len() {
        find_comment_end(s, pos + 1)
    } else {
        None
    }
}

/// The comment node starting at `pos`: `<!--`, a verbatim body, `-->`.
/// Unterminated comments are fatal.
pub open spec fn spec_parse_comment(s: Seq<char>, pos: int) -> Option<(NodeV, int)> {
    if pos + 4 <= s.len() && s[pos] == '<' && s[pos + 1] == '!' && s[pos + 2] == '-' && s[pos + 3]
        == '-' {
        match find_comment_end(s, pos + 4) {
            None => None,
            Some(q) => Some(
                (
                    NodeV {
                        children: Seq::empty(),
                        node_type: NodeTypeV::Comment(s.subrange(pos + 4, q)),
                    },
                    q + 3,
                ),
            ),
        }
    } else {
        None
    }
}

/// One quoted attribute value: an opening quote (`"` or `'`), a run of
/// anything but that quote, and the matching closing quote.
pub open spec fn spec_parse_attr_value(s: Seq<char>, pos: int) -> Option<(Seq<char>, int)> {
    if pos >= s.len() || (s[pos] != '"' && s[pos] != '\'') {
        None
    } else {
        let q = s[pos];
        let end = scan_while(s, pos + 1, neq_pred(q));
        if end < s.len() {
            Some((s.subrange(pos + 1, end), end + 1))
        } else {
            None
        }
    }
}

/// One `name="value"` attribute pair.
pub open spec fn spec_parse_attr(s: Seq<char>, pos: int) -> Option<((Seq<char>, Seq<char>), int)> {
    let (name, p1) = spec_parse_tag_name(s, pos);
    if p1 < s.len() && s[p1] == '=' {
        match spec_parse_attr_value(s, p1 + 1) {
            None => None,
            Some((value, p2)) => Some(((name, value), p2)),
        }
    } else {
        None
    }
}

/// The attribute pairs before the closing `>`, accumulated onto `acc` with
/// last-write-wins on duplicate names. Stops at the `>` without consuming it.
pub open spec fn spec_parse_attributes(
    s: Seq<char>,
    pos: int,
    acc: Seq<(Seq<char>, Seq<char>)>,
) -> Option<(Seq<(Seq<char>, Seq<char>)>, int)>
    decreases s.len() - pos,
{
    let p1 = scan_while(s, pos, ws_pred());
    if p1 >= s.len() {
        None
    } else if s[p1] == '>' {
        Some((acc, p1))
    } else {
        match spec_parse_attr(s, p1) {
            None => None,
            Some(((name, value), p2)) => if pos < p2 && p2 <= s.len() {
                spec_parse_attributes(s, p2, spec_attr_insert(acc, name, value))
            } else {
                None
            },
        }
    }
}

/// The start of the first `</style>` at or after `pos`, if any.
pub open spec fn find_style_close(s: Seq<char>, pos: int) -> Option<int>
    decreases s.len() - pos,
{
    if seq_starts_with(s, pos, seq!['<', '/', 's', 't', 'y', 'l', 'e', '>']) {
        Some(pos)
    } else if pos < s.len() {
        find_style_close(s, pos + 1)
    } else {
        None
    }
}

/// A whole `<style>` element: the verbatim body up to the literal `</style>`
/// is handed to the stylesheet parser; a tag other than exactly `style`, a
/// missing `>`, an unterminated body, or a body that violates the stylesheet
/// grammar is fatal.
pub open spec fn spec_parse_style_element(s: Seq<char>, pos: int) -> Option<(StylesheetV, int)> {
    if pos >= s.len() || s[pos] != '<' {
        None
    } else {
        let (tag, p1) = spec_parse_tag_name(s, pos + 1);
        if tag != seq!['s', 't', 'y', 'l', 'e'] {
            None
        } else {
            let p2 = scan_while(s, p1, ws_pred());
            if p2 >= s.len() || s[p2] != '>' {
                None
            } else {
                match find_style_close(s, p2 + 1) {
                    None => None,
                    Some(q) => match spec_parse_stylesheet(s.subrange(p2 + 1, q)) {
                        None => None,
                        Some(sheet) => Some((sheet, q + 8)),
                    },
                }
            }
        }
    }
}

/// What one parsed node yields: the node itself, the stylesheets harvested
/// from `<style>` elements anywhere below it, and the position after it.
pub open spec fn spec_parse_node(s: Seq<char>, pos: int) -> Option<
    (NodeV, Seq<StylesheetV>, int),
>
    decreases s.len() - pos, 2int,
{
    if pos >= s.len() {
        None
    } else if s[pos] == '<' {
        spec_parse_element_or_comment(s, pos)
    } else {
        let (node, end) = spec_parse_text(s, pos);
        Some((node, Seq::empty(), end))
    }
}

/// A node that starts with `<`: a comment when the input continues `!--`,
/// otherwise an element.
pub open spec fn spec_parse_element_or_comment(s: Seq<char>, pos: int) -> Option<
    (NodeV, Seq<StylesheetV>, int),
>
    decreases s.len() - pos, 1int,
{
    if seq_starts_with(s, pos, seq!['<', '!', '-', '-']) {
        match spec_parse_comment(s, pos) {
            None => None,
            Some((node, end)) => Some((node, Seq::empty(), end)),
        }
    } else {
        spec_parse_element(s, pos)
    }
}

/// An element: `<`, tag name, attributes, `>`, children up to a closing
/// sequence, then `</`, the same tag name, `>`. A mismatched or missing
/// close tag is fatal.
pub open spec fn spec_parse_element(s: Seq<char>, pos: int) -> Option<
    (NodeV, Seq<StylesheetV>, int),
>
    decreases s.len() - pos, 0int,
{
    if pos >= s.len() || s[pos] != '<' {
        None
    } else {
        let (tag, p1) = spec_parse_tag_name(s, pos + 1);
        match spec_parse_attributes(s, p1, Seq::empty()) {
            None => None,
            Some((attrs, p2)) => if pos < p2 + 1 && p2 + 1 <= s.len() {
                match spec_parse_nodes(s, p2 + 1) {
                    None => None,
                    Some((children, sheets, p3)) => if p3 + 2 <= s.len() && s[p3] == '<' && s[p3
                        + 1] == '/' {
                        let (tag2, p4) = spec_parse_tag_name(s, p3 + 2);
                        if tag2 == tag && p4 < s.len() && s[p4] == '>' {
                            Some(
                                (
                                    NodeV {
                                        children,
                                        node_type: NodeTypeV::Element(
                                            ElementDataV { tag_name: tag, attributes: attrs },
                                        ),
                                    },
                                    sheets,
                                    p4 + 1,
                                ),
                            )
                        } else {
                            None
                        }
                    } else {
                        None
                    },
                }
            } else {
                None
            },
        }
    }
}

/// A run of sibling nodes: whitespace between nodes is discarded, `<style>`
/// elements are harvested into the stylesheet list instead of the node list,
/// and the run ends at the end of the input or before a closing sequence
/// `</`.
pub open spec fn spec_parse_nodes(s: Seq<char>, pos: int) -> Option<
    (Seq<NodeV>, Seq<StylesheetV>, int),
>
    decreases s.len() - pos, 3int,
{
    let p1 = scan_while(s, pos, ws_pred());
    if !(pos <= p1) {
        None
    } else if p1 >= s.len() || seq_starts_with(s, p1, seq!['<', '/']) {
        Some((Seq::empty(), Seq::empty(), p1))
    } else if seq_starts_with(s, p1, seq!['<', 's', 't', 'y', 'l', 'e']) {
        match spec_parse_style_element(s, p1) {
            None => None,
            Some((sheet, p2)) => if pos < p2 && p2 <= s.len() {
                match spec_parse_nodes(s, p2) {
                    None => None,
                    Some((nodes, sheets, p3)) => Some((nodes, seq![sheet] + sheets, p3)),
                }
            } else {
                None
            },
        }
    } else {
        match spec_parse_node(s, p1) {
            None => None,
            Some((node, sheets1, p2)) => if pos < p2 && p2 <= s.len() {
                match spec_parse_nodes(s, p2) {
                    None => None,
                    Some((nodes, sheets2, p3)) => Some(
                        (seq![node] + nodes, sheets1 + sheets2, p3),
                    ),
                }
            } else {
                None
            },
        }
    }
}

/// What parsing a whole document yields: a document node carrying the
/// top-level nodes and every harvested stylesheet, in document order.
pub open spec fn spec_parse_document(s: Seq<char>) -> Option<NodeV> {
    match spec_parse_nodes(s, 0) {
        None => None,
        Some((nodes, sheets, _)) => Some(
            NodeV {
                children: nodes,
                node_type: NodeTypeV::Document(DocumentDataV { stylesheets: sheets }),
            },
        ),
    }
}

// ---- The executable parser ----

pub struct Parser {
    p: parser::Parser,
    pub stylesheets: Vec<Stylesheet>,
}

impl Parser {
    pub closed spec fn wf(&self) -> bool {
        self.p.wf()
    }

    pub closed spec fn src(&self) -> Seq<char> {
        self.p.input@
    }

    pub closed spec fn at(&self) -> int {
        self.p.pos as int
    }

    pub closed spec fn sheets(&self) -> Seq<StylesheetV> {
        views_of_stylesheets(self.stylesheets@)
    }

    /// Parse a tag or attribute name: ASCII letters and digits.
    fn parse_tag_name(&mut self) -> (r: String)
        requires
            old(self).wf(),
        ensures
            final(self).wf(),
            final(self).p.input == old(self).p.input,
            final(self).stylesheets == old(self).stylesheets,
            old(self).at() <= final(self).at(),
            spec_parse_tag_name(old(self).src(), old(self).at()) == (r@, final(self).at()),
    {
        let test = |c: char| -> (b: bool)
            ensures
                b == alnum_pred()(c),
            { ('a' <= c && c <= 'z') || ('A' <= c && c <= 'Z') || ('0' <= c && c <= '9') };
        self.p.consume_while(test, Ghost(alnum_pred()))
    }

    /// Parse a text node: everything up to the next `<`.
    fn parse_text(&mut self) -> (r: Node)
        requires
            old(self).wf(),
        ensures
            final(self).wf(),
            final(self).p.input == old(self).p.input,
            final(self).stylesheets == old(self).stylesheets,
            old(self).at() <= final(self).at(),
            spec_parse_text(old(self).src(), old(self).at()) == (r@, final(self).at()),
            old(self).at() < old(self).src().len() && old(self).src()[old(self).at()] != '<'
                ==> old(self).at() < final(self).at(),
    {
        let ghost s = self.src();
        let ghost pos0 = self.at();
        let test = |c: char| -> (b: bool)
            ensures
                b == text_pred()(c),
            { c != '<' };
        let t = self.p.consume_while(test, Ghost(text_pred()));
        let n = dom::text(t);
        proof {
            assert(n@ =~= spec_parse_text(s, pos0).0);
            if pos0 < s.len() && s[pos0] != '<' {
                assert(text_pred()(s[pos0]));
                assert(scan_while(s, pos0, text_pred()) == scan_while(s, pos0 + 1, text_pred()));
                lemma_scan_while_bounds(s, pos0 + 1, text_pred());
            }
        }
        n
    }

    /// Parse a comment node: `<!--`, a verbatim body, `-->`.
    fn parse_comment(&mut self) -> (r: Result<Node, ParseError>)
        requires
            old(self).wf(),
        ensures
            final(self).wf(),
            final(self).p.input == old(self).p.input,
            final(self).stylesheets == old(self).stylesheets,
            old(self).at() <= final(self).at(),
            r is Ok ==> old(self).at() < final(self).at(),
            match r {
                Ok(n) => spec_parse_comment(old(self).src(), old(self).at()) == Some(
                    (n@, final(self).at()),
                ),
                Err(_) => spec_parse_comment(old(self).src(), old(self).at()) is None,
            },
    {
        let ghost s = self.src();
        let ghost pos0 = self.at();
        if self.p.input.len() - self.p.pos < 4 {
            return Err(ParseError);
        }
        let c1 = self.p.consume_char();
        let c2 = self.p.consume_char();
        let c3 = self.p.consume_char();
        let c4 = self.p.consume_char();
        if !(c1 == '<' && c2 == '!' && c3 == '-' && c4 == '-') {
            return Err(ParseError);
        }
        let ghost cstart = self.at();
        let ghost orig = self.p;
        let mut body: Vec<char> = Vec::new();
        proof {
            reveal_strlit("-->");
            assert("-->"@ =~= seq!['-', '-', '>']);
            assert(body@ =~= s.subrange(cstart, cstart));
        }
        loop
            invariant
                self.p.wf(),
                self.p.input == orig.input,
                self.p.input@ == s,
                self.stylesheets == old(self).stylesheets,
                0 <= cstart <= self.at() <= s.len(),
                find_comment_end(s, cstart) == find_comment_end(s, self.at()),
                body@ == s.subrange(cstart, self.at()),
            ensures
                self.p.wf(),
                self.p.input == orig.input,
                self.p.input@ == s,
                self.stylesheets == old(self).stylesheets,
                0 <= cstart <= self.at() <= s.len(),
                find_comment_end(s, cstart) == find_comment_end(s, self.at()),
                body@ == s.subrange(cstart, self.at()),
                self.at() == s.len() || seq_starts_with(s, self.at(), seq!['-', '-', '>']),
            decreases s.len() - self.p.pos,
        {
            proof {
                reveal_strlit("-->");
                assert("-->"@ =~= seq!['-', '-', '>']);
            }
            if self.p.eof() {
                break ;
            }
            if self.p.starts_with("-->") {
                break ;
            }
            let c = self.p.consume_char();
            body.push(c);
            proof {
                assert(body@ =~= s.subrange(cstart, self.at()));
            }
        }
        if self.p.eof() {
            return Err(ParseError);
        }
        let _ = self.p.consume_char();
        let _ = self.p.consume_char();
        let _ = self.p.consume_char();
        let n = dom::comment(chars_to_string(&body));
        proof {
            assert(n@ =~= spec_parse_comment(s, pos0).unwrap().0);
        }
        Ok(n)
    }

    /// Parse one quoted attribute value.
    fn parse_attr_value(&mut self) -> (r: Result<String, ParseError>)
        requires
            old(self).wf(),
        ensures
            final(self).wf(),
            final(self).p.input == old(self).p.input,
            final(self).stylesheets == old(self).stylesheets,
            old(self).at() <= final(self).at(),
            match r {
                Ok(v) => spec_parse_attr_value(old(self).src(), old(self).at()) == Some(
                    (v@, final(self).at()),
                ),
                Err(_) => spec_parse_attr_value(old(self).src(), old(self).at()) is None,
            },
    {
        if self.p.eof() {
            return Err(ParseError);
        }
        let open_quote = self.p.consume_char();
        if !(open_quote == '"' || open_quote == '\'') {
            return Err(ParseError);
        }
        let test = |c: char| -> (b: bool)
            ensures
                b == neq_pred(open_quote)(c),
            { c != open_quote };
        let value = self.p.consume_while(test, Ghost(neq_pred(open_quote)));
        if self.p.eof() {
            return Err(ParseError);
        }
        let _ = self.p.consume_char();
        Ok(value)
    }

    /// Parse one `name="value"` attribute pair.
    fn parse_attr(&mut self) -> (r: Result<(String, String), ParseError>)
        requires
            old(self).wf(),
        ensures
            final(self).wf(),
            final(self).p.input == old(self).p.input,
            final(self).stylesheets == old(self).stylesheets,
            old(self).at() <= final(self).at(),
            r is Ok ==> old(self).at() < final(self).at(),
            match r {
                Ok(a) => spec_parse_attr(old(self).src(), old(self).at()) == Some(
                    ((a.0@, a.1@), final(self).at()),
                ),
                Err(_) => spec_parse_attr(old(self).src(), old(self).at()) is None,
            },
    {
        let name = self.parse_tag_name();
        if self.p.eof() {
            return Err(ParseError);
        }
        let c = self.p.consume_char();
        if c != '=' {
            return Err(ParseError);
        }
        let value = self.parse_attr_value()?;
        Ok((name, value))
    }

    /// Parse the attribute pairs of an element, accumulating onto `acc`,
    /// up to (not past) the closing `>`.
    fn parse_attributes_into(&mut self, acc: AttrMap) -> (r: Result<AttrMap, ParseError>)
        requires
            old(self).wf(),
        ensures
            final(self).wf(),
            final(self).p.input == old(self).p.input,
            final(self).stylesheets == old(self).stylesheets,
            old(self).at() <= final(self).at(),
            match r {
                Ok(m) => spec_parse_attributes(old(self).src(), old(self).at(), acc@) == Some(
                    (m@, final(self).at()),
                ) && final(self).at() < final(self).src().len() && final(self).src()[final(self).at()] == '>',
                Err(_) => spec_parse_attributes(old(self).src(), old(self).at(), acc@) is None,
            },
        decreases old(self).p.input.len() - old(self).p.pos,
    {
        self.p.consume_whitespace();
        if self.p.eof() {
            return Err(ParseError);
        }
        if self.p.next_char() == '>' {
            return Ok(acc);
        }
        let (name, value) = self.parse_attr()?;
        let mut acc2 = acc;
        acc2.insert(name, value);
        self.parse_attributes_into(acc2)
    }

    /// Parse all attributes of an element into a fresh map.
    fn parse_attributes(&mut self) -> (r: Result<AttrMap, ParseError>)
        requires
            old(self).wf(),
        ensures
            final(self).wf(),
            final(self).p.input == old(self).p.input,
            final(self).stylesheets == old(self).stylesheets,
            old(self).at() <= final(self).at(),
            match r {
                Ok(m) => spec_parse_attributes(old(self).src(), old(self).at(), Seq::empty())
                    == Some((m@, final(self).at())) && final(self).at() < final(self).src().len()
                    && final(self).src()[final(self).at()] == '>',
                Err(_) => spec_parse_attributes(
                    old(self).src(),
                    old(self).at(),
                    Seq::empty(),
                ) is None,
            },
    {
        self.parse_attributes_into(AttrMap::new())
    }

    /// Parse the contents of a `<style>` element and return the stylesheet
    /// its raw body denotes.
    #[verifier::rlimit(60)]
    fn parse_style_element(&mut self) -> (r: Result<Stylesheet, ParseError>)
        requires
            old(self).wf(),
        ensures
            final(self).wf(),
            final(self).p.input == old(self).p.input,
            final(self).stylesheets == old(self).stylesheets,
            old(self).at() <= final(self).at(),
            r is Ok ==> old(self).at() < final(self).at(),
            match r {
                Ok(sheet) => spec_parse_style_element(old(self).src(), old(self).at()) == Some(
                    (sheet@, final(self).at()),
                ),
                Err(_) => spec_parse_style_element(old(self).src(), old(self).at()) is None,
            },
    {
        let ghost s = self.src();
        let ghost pos0 = self.at();
        if self.p.eof() {
            return Err(ParseError);
        }
        let c = self.p.consume_char();
        if c != '<' {
            return Err(ParseError);
        }
        let tag_name = self.parse_tag_name();
        proof {
            reveal_strlit("style");
            assert("style"@ =~= seq!['s', 't', 'y', 'l', 'e']);
        }
        if !str_eq(tag_name.as_str(), "style") {
            return Err(ParseError);
        }
        self.p.consume_whitespace();
        if self.p.eof() {
            return Err(ParseError);
        }
        let c2 = self.p.consume_char();
        if c2 != '>' {
            return Err(ParseError);
        }
        let ghost cstart = self.at();
        let ghost orig = self.p;
        let mut style: Vec<char> = Vec::new();
        proof {
            reveal_strlit("</style>");
            assert("</style>"@ =~= seq!['<', '/', 's', 't', 'y', 'l', 'e', '>']);
            assert(style@ =~= s.subrange(cstart, cstart));
        }
        loop
            invariant
                self.p.wf(),
                self.p.input == orig.input,
                self.p.input@ == s,
                self.stylesheets == old(self).stylesheets,
                0 <= cstart <= self.at() <= s.len(),
                find_style_close(s, cstart) == find_style_close(s, self.at()),
                style@ == s.subrange(cstart, self.at()),
            ensures
                self.p.wf(),
                self.p.input == orig.input,
                self.p.input@ == s,
                self.stylesheets == old(self).stylesheets,
                0 <= cstart <= self.at() <= s.len(),
                find_style_close(s, cstart) == find_style_close(s, self.at()),
                style@ == s.subrange(cstart, self.at()),
                self.at() == s.len() || seq_starts_with(
                    s,
                    self.at(),
                    seq!['<', '/', 's', 't', 'y', 'l', 'e', '>'],
                ),
            decreases s.len() - self.p.pos,
        {
            proof {
                reveal_strlit("</style>");
                assert("</style>"@ =~= seq!['<', '/', 's', 't', 'y', 'l', 'e', '>']);
            }
            if self.p.eof() {
                break ;
            }
            if self.p.starts_with("</style>") {
                break ;
            }
            let c = self.p.consume_char();
            style.push(c);
            proof {
                assert(style@ =~= s.subrange(cstart, self.at()));
            }
        }
        if self.p.eof() {
            return Err(ParseError);
        }
        let ghost q = self.at();
        let _ = self.p.consume_char();
        let _ = self.p.consume_char();
        let tag2 = self.parse_tag_name();
        proof {
            lemma_scan_while_exact(s, q + 2, q + 7, alnum_pred());
            assert(tag2@ =~= seq!['s', 't', 'y', 'l', 'e']);
            reveal_strlit("style");
            assert("style"@ =~= seq!['s', 't', 'y', 'l', 'e']);
        }
        if !str_eq(tag2.as_str(), tag_name.as_str()) {
            return Err(ParseError);
        }
        if self.p.eof() {
            return Err(ParseError);
        }
        let c3 = self.p.consume_char();
        if c3 != '>' {
            return Err(ParseError);
        }
        match css::parse(chars_to_string(&style)) {
            Ok(sheet) => Ok(sheet),
            Err(_) => Err(ParseError),
        }
    }

    /// Parse one node, deciding its type from the first character.
    fn parse_node(&mut self) -> (r: Result<Node, ParseError>)
        requires
            old(self).wf(),
        ensures
            final(self).wf(),
            final(self).p.input == old(self).p.input,
            old(self).at() <= final(self).at(),
            r is Ok && old(self).at() < old(self).src().len() ==> old(self).at() < final(self).at(),
            match r {
                Ok(n) => ({
                    let res = spec_parse_node(old(self).src(), old(self).at());
                    res is Some && n@ == res.unwrap().0 && final(self).sheets() == old(self).sheets() + res.unwrap().1 && final(self).at() == res.unwrap().2
                }),
                Err(_) => spec_parse_node(old(self).src(), old(self).at()) is None,
            },
        decreases old(self).p.input.len() - old(self).p.pos, 2int,
    {
        if self.p.eof() {
            return Err(ParseError);
        }
        if self.p.next_char() == '<' {
            self.element_or_comment()
        } else {
            let n = self.parse_text();
            proof {
                assert(final(self).sheets() =~= old(self).sheets() + Seq::<StylesheetV>::empty());
            }
            Ok(n)
        }
    }

    /// Decide whether a `<` starts a comment or an element.
    fn element_or_comment(&mut self) -> (r: Result<Node, ParseError>)
        requires
            old(self).wf(),
        ensures
            final(self).wf(),
            final(self).p.input == old(self).p.input,
            old(self).at() <= final(self).at(),
            r is Ok ==> old(self).at() < final(self).at(),
            match r {
                Ok(n) => ({
                    let res = spec_parse_element_or_comment(old(self).src(), old(self).at());
                    res is Some && n@ == res.unwrap().0 && final(self).sheets() == old(self).sheets() + res.unwrap().1 && final(self).at() == res.unwrap().2
                }),
                Err(_) => spec_parse_element_or_comment(old(self).src(), old(self).at()) is None,
            },
        decreases old(self).p.input.len() - old(self).p.pos, 1int,
    {
        proof {
            reveal_strlit("<!--");
            assert("<!--"@ =~= seq!['<', '!', '-', '-']);
        }
        if self.p.starts_with("<!--") {
            let n = self.parse_comment()?;
            proof {
                assert(final(self).sheets() =~= old(self).sheets() + Seq::<StylesheetV>::empty());
            }
            Ok(n)
        } else {
            self.parse_element()
        }
    }

    /// Parse an element node and its subtree.
    fn parse_element(&mut self) -> (r: Result<Node, ParseError>)
        requires
            old(self).wf(),
        ensures
            final(self).wf(),
            final(self).p.input == old(self).p.input,
            old(self).at() <= final(self).at(),
            r is Ok ==> old(self).at() < final(self).at(),
            match r {
                Ok(n) => ({
                    let res = spec_parse_element(old(self).src(), old(self).at());
                    res is Some && n@ == res.unwrap().0 && final(self).sheets() == old(self).sheets() + res.unwrap().1 && final(self).at() == res.unwrap().2
                }),
                Err(_) => spec_parse_element(old(self).src(), old(self).at()) is None,
            },
        decreases old(self).p.input.len() - old(self).p.pos, 0int,
    {
        if self.p.eof() {
            return Err(ParseError);
        }
        let c = self.p.consume_char();
        if c != '<' {
            return Err(ParseError);
        }
        let tag_name = self.parse_tag_name();
        let attrs = self.parse_attributes()?;
        let _ = self.p.consume_char();
        let children = self.parse_nodes()?;
        if self.p.eof() {
            return Err(ParseError);
        }
        let c1 = self.p.consume_char();
        if c1 != '<' {
            return Err(ParseError);
        }
        if self.p.eof() {
            return Err(ParseError);
        }
        let c2 = self.p.consume_char();
        if c2 != '/' {
            return Err(ParseError);
        }
        let tag2 = self.parse_tag_name();
        if !str_eq(tag2.as_str(), tag_name.as_str()) {
            return Err(ParseError);
        }
        if self.p.eof() {
            return Err(ParseError);
        }
        let c3 = self.p.consume_char();
        if c3 != '>' {
            return Err(ParseError);
        }
        let ghost tagv = tag_name@;
        let ghost attrsv = attrs@;
        let ghost childrenv = views_of_nodes(children@);
        let n = dom::elem(tag_name, attrs, children);
        proof {
            assert(n@ =~= spec_parse_element(old(self).src(), old(self).at()).unwrap().0);
        }
        Ok(n)
    }

    /// Parse sibling nodes up to the end of the input or a closing sequence,
    /// harvesting `<style>` elements into the stylesheet list.
    #[verifier::rlimit(100)]
    fn parse_nodes(&mut self) -> (r: Result<Vec<Node>, ParseError>)
        requires
            old(self).wf(),
        ensures
            final(self).wf(),
            final(self).p.input == old(self).p.input,
            old(self).at() <= final(self).at(),
            match r {
                Ok(v) => ({
                    let res = spec_parse_nodes(old(self).src(), old(self).at());
                    res is Some && views_of_nodes(v@) == res.unwrap().0 && final(self).sheets()
                        == old(self).sheets() + res.unwrap().1 && final(self).at()
                        == res.unwrap().2
                }),
                Err(_) => spec_parse_nodes(old(self).src(), old(self).at()) is None,
            },
        decreases old(self).p.input.len() - old(self).p.pos, 3int,
    {
        self.p.consume_whitespace();
        proof {
            reveal_strlit("</");
            assert("</"@ =~= seq!['<', '/']);
            reveal_strlit("<style");
            assert("<style"@ =~= seq!['<', 's', 't', 'y', 'l', 'e']);
        }
        if self.p.eof() || self.p.starts_with("</") {
            let v: Vec<Node> = Vec::new();
            proof {
                assert(views_of_nodes(v@) =~= Seq::<NodeV>::empty());
                assert(final(self).sheets() =~= old(self).sheets() + Seq::<StylesheetV>::empty());
            }
            return Ok(v);
        }
        if self.p.starts_with("<style") {
            let ghost mid0 = self.sheets();
            let sheet = self.parse_style_element()?;
            let ghost sheetv = sheet@;
            self.stylesheets.push(sheet);
            proof {
                assert(self.sheets() =~= mid0 + seq![sheetv]);
            }
            let rest = self.parse_nodes()?;
            proof {
                let res = spec_parse_nodes(old(self).src(), old(self).at());
                assert(final(self).sheets() =~= old(self).sheets() + res.unwrap().1);
            }
            Ok(rest)
        } else {
            let node = self.parse_node()?;
            let mut rest = self.parse_nodes()?;
            let ghost restv = views_of_nodes(rest@);
            rest.insert(0, node);
            proof {
                assert(views_of_nodes(rest@) =~= seq![node@] + restv);
                let res = spec_parse_nodes(old(self).src(), old(self).at());
                assert(final(self).sheets() =~= old(self).sheets() + res.unwrap().1);
            }
            Ok(rest)
        }
    }
}

/// Parse markup source and return the document root node carrying the
/// harvested stylesheets, or the fatal error when the source violates the
/// grammar; no partial tree is ever returned.
pub fn parse(source: String) -> (r: Result<Node, ParseError>)
    ensures
        match r {
            Ok(n) => spec_parse_document(source@) == Some(n@),
            Err(_) => spec_parse_document(source@) is None,
        },
{
    let input = string_to_chars(source.as_str());
    let mut parser = Parser { p: parser::Parser { pos: 0, input }, stylesheets: Vec::new() };
    let nodes = match parser.parse_nodes() {
        Ok(nodes) => nodes,
        Err(e) => {
            return Err(e);
        },
    };
    let ghost nodesv = views_of_nodes(nodes@);
    let ghost sheetsv = parser.sheets();
    let n = dom::document(nodes, parser.stylesheets);
    proof {
        assert(n@ =~= spec_parse_document(source@).unwrap());
    }
    Ok(n)
}

} // verus!


// ---- The renderer and the parser agree ----
//
// One slice of the round trip, proved: a childless element without
// attributes renders to markup that parses back to exactly that element.

verus! {

/// A tag name that both the renderer and the parser accept: nonempty ASCII
/// letters and digits.
pub open spec fn valid_tag_name(t: Seq<char>) -> bool {
    t.len() > 0 && (forall|i: int| 0 <= i < t.len() ==> alnum_pred()(#[trigger] t[i]))
}

/// Letters and digits are not whitespace and are none of the markup
/// delimiters; the delimiters themselves are not whitespace; the rendered
/// line break is.
proof fn lemma_roundtrip_char_classes(t: Seq<char>)
    requires
        valid_tag_name(t),
    ensures
        forall|i: int|
            0 <= i < t.len() ==> !whitespace_char(#[trigger] t[i]) && t[i] != '<' && t[i] != '>'
                && t[i] != '/' && t[i] != '!',
        !whitespace_char('<'),
        !whitespace_char('>'),
        !whitespace_char('/'),
        whitespace_char('\n'),
{
    reveal(crate::text::whitespace_char);
    assert forall|i: int|
        0 <= i < t.len() implies !whitespace_char(#[trigger] t[i]) && t[i] != '<' && t[i] != '>'
        && t[i] != '/' && t[i] != '!' by {
        assert(alnum_pred()(t[i]));
    }
}

/// What a childless, attributeless element renders to at indent zero,
/// written out character by character.
proof fn lemma_render_single_element(t: Seq<char>)
    ensures
        crate::dom::spec_render_node(
            NodeV {
                children: Seq::empty(),
                node_type: NodeTypeV::Element(
                    ElementDataV { tag_name: t, attributes: Seq::empty() },
                ),
            },
            0,
        ) == seq!['<'] + t + seq!['>', '\n', '<', '/'] + t + seq!['>', '\n'],
{
    let e = NodeV {
        children: Seq::empty(),
        node_type: NodeTypeV::Element(ElementDataV { tag_name: t, attributes: Seq::empty() }),
    };
    reveal_strlit("<");
    reveal_strlit(">");
    reveal_strlit("\n");
    reveal_strlit("</");
    assert(crate::dom::spec_render_attrs(Seq::empty(), 0) =~= Seq::<char>::empty());
    assert(crate::dom::spec_render_nodes(e.children, crate::dom::spec_deeper(0), 0)
        =~= Seq::<char>::empty());
    assert(crate::text::spec_indent(0) =~= Seq::<char>::empty());
    assert(crate::dom::spec_render_node(e, 0) =~= seq!['<'] + t + seq!['>', '\n', '<', '/'] + t
        + seq!['>', '\n']);
}

/// Parsing the rendering of one childless, attributeless element yields that
/// element, no stylesheets, and the position before the final line break.
#[verifier::rlimit(100)]
#[verifier::spinoff_prover]
proof fn lemma_parse_rendered_element(t: Seq<char>)
    requires
        valid_tag_name(t),
    ensures
        ({
            let u = seq!['<'] + t + seq!['>', '\n', '<', '/'] + t + seq!['>', '\n'];
            spec_parse_element(u, 0) == Some(
                (
                    NodeV {
                        children: Seq::empty(),
                        node_type: NodeTypeV::Element(
                            ElementDataV { tag_name: t, attributes: Seq::empty() },
                        ),
                    },
                    Seq::<StylesheetV>::empty(),
                    2 * t.len() as int + 6,
                ),
            )
        }),
{
    lemma_roundtrip_char_classes(t);
    let n = t.len() as int;
    let u = seq!['<'] + t + seq!['>', '\n', '<', '/'] + t + seq!['>', '\n'];
    let e = NodeV {
        children: Seq::empty(),
        node_type: NodeTypeV::Element(ElementDataV { tag_name: t, attributes: Seq::empty() }),
    };
    assert(u.len() == 2 * n + 7);
    assert(u[0] == '<' && u[n + 1] == '>' && u[n + 2] == '\n' && u[n + 3] == '<' && u[n + 4]
        == '/' && u[2 * n + 5] == '>' && u[2 * n + 6] == '\n');
    assert(forall|i: int| 0 <= i < n ==> u[1 + i] == t[i] && u[n + 5 + i] == t[i]);
    // the open tag's name
    lemma_scan_while_exact(u, 1, 1 + n, alnum_pred());
    assert(u.subrange(1, 1 + n) =~= t);
    // no attributes: the scan stands on the closing `>`
    lemma_scan_while_exact(u, 1 + n, 1 + n, ws_pred());
    assert(spec_parse_attributes(u, 1 + n, Seq::empty()) == Some(
        (Seq::<(Seq<char>, Seq<char>)>::empty(), 1 + n),
    ));
    // no children: a line break, then the closing sequence
    lemma_scan_while_exact(u, n + 2, n + 3, ws_pred());
    assert(seq_starts_with(u, n + 3, seq!['<', '/']));
    assert(spec_parse_nodes(u, n + 2) == Some(
        (Seq::<NodeV>::empty(), Seq::<StylesheetV>::empty(), n + 3),
    ));
    // the close tag's name matches the open tag's
    lemma_scan_while_exact(u, n + 5, 2 * n + 5, alnum_pred());
    assert(u.subrange(n + 5, 2 * n + 5) =~= t);
    assert(spec_parse_element(u, 0) == Some((e, Seq::<StylesheetV>::empty(), 2 * n + 6))) by {
        assert(spec_parse_element(u, 0).unwrap().0 =~= e);
    }
}

/// The rendered element is read as an element: not as a comment.
#[verifier::rlimit(100)]
#[verifier::spinoff_prover]
proof fn lemma_parse_rendered_node(t: Seq<char>)
    requires
        valid_tag_name(t),
    ensures
        ({
            let u = seq!['<'] + t + seq!['>', '\n', '<', '/'] + t + seq!['>', '\n'];
            spec_parse_node(u, 0) == Some(
                (
                    NodeV {
                        children: Seq::empty(),
                        node_type: NodeTypeV::Element(
                            ElementDataV { tag_name: t, attributes: Seq::empty() },
                        ),
                    },
                    Seq::<StylesheetV>::empty(),
                    2 * t.len() as int + 6,
                ),
            )
        }),
{
    lemma_roundtrip_char_classes(t);
    lemma_parse_rendered_element(t);
    let u = seq!['<'] + t + seq!['>', '\n', '<', '/'] + t + seq!['>', '\n'];
    assert(u[0] == '<' && u[1] == t[0]);
    assert(!seq_starts_with(u, 0, seq!['<', '!', '-', '-']));
}

/// After the rendered element, only the final line break is left.
#[verifier::rlimit(100)]
#[verifier::spinoff_prover]
proof fn lemma_parse_rendered_tail(t: Seq<char>)
    requires
        valid_tag_name(t),
    ensures
        ({
            let u = seq!['<'] + t + seq!['>', '\n', '<', '/'] + t + seq!['>', '\n'];
            spec_parse_nodes(u, 2 * t.len() as int + 6) == Some(
                (Seq::<NodeV>::empty(), Seq::<StylesheetV>::empty(), 2 * t.len() as int + 7),
            )
        }),
{
    lemma_roundtrip_char_classes(t);
    let n = t.len() as int;
    let u = seq!['<'] + t + seq!['>', '\n', '<', '/'] + t + seq!['>', '\n'];
    assert(u[2 * n + 6] == '\n');
    lemma_scan_while_exact(u, 2 * n + 6, 2 * n + 7, ws_pred());
}

/// The rendering of an element whose tag does not begin with `style` is not
/// read as a `<style>` element.
#[verifier::rlimit(100)]
#[verifier::spinoff_prover]
proof fn lemma_rendered_not_style(t: Seq<char>)
    requires
        valid_tag_name(t),
        !seq_starts_with(t, 0, seq!['s', 't', 'y', 'l', 'e']),
    ensures
        ({
            let u = seq!['<'] + t + seq!['>', '\n', '<', '/'] + t + seq!['>', '\n'];
            !seq_starts_with(u, 0, seq!['<', 's', 't', 'y', 'l', 'e'])
        }),
{
    let n = t.len() as int;
    let u = seq!['<'] + t + seq!['>', '\n', '<', '/'] + t + seq!['>', '\n'];
    assert(forall|i: int| 0 <= i < n ==> u[1 + i] == t[i]);
    if seq_starts_with(u, 0, seq!['<', 's', 't', 'y', 'l', 'e']) {
        if n >= 5 {
            assert forall|i: int| 0 <= i < 5 implies t[i] == seq!['s', 't', 'y', 'l', 'e'][i] by {
                assert(u[1 + i] == seq!['<', 's', 't', 'y', 'l', 'e'][1 + i]);
            }
            assert(seq_starts_with(t, 0, seq!['s', 't', 'y', 'l', 'e']));
        } else {
            assert(u[1 + n] == '>');
            assert(u[1 + n] == seq!['<', 's', 't', 'y', 'l', 'e'][1 + n]);
        }
    }
}

/// Parsing the whole rendering: the one element, no stylesheets, the end.
#[verifier::rlimit(100)]
#[verifier::spinoff_prover]
proof fn lemma_parse_rendered_nodes(t: Seq<char>)
    requires
        valid_tag_name(t),
        !seq_starts_with(t, 0, seq!['s', 't', 'y', 'l', 'e']),
    ensures
        ({
            let u = seq!['<'] + t + seq!['>', '\n', '<', '/'] + t + seq!['>', '\n'];
            let e = NodeV {
                children: Seq::empty(),
                node_type: NodeTypeV::Element(
                    ElementDataV { tag_name: t, attributes: Seq::empty() },
                ),
            };
            spec_parse_nodes(u, 0) == Some(
                (seq![e], Seq::<StylesheetV>::empty(), 2 * t.len() as int + 7),
            )
        }),
{
    lemma_roundtrip_char_classes(t);
    lemma_parse_rendered_node(t);
    lemma_parse_rendered_tail(t);
    lemma_rendered_not_style(t);
    let n = t.len() as int;
    let u = seq!['<'] + t + seq!['>', '\n', '<', '/'] + t + seq!['>', '\n'];
    let e = NodeV {
        children: Seq::empty(),
        node_type: NodeTypeV::Element(ElementDataV { tag_name: t, attributes: Seq::empty() }),
    };
    assert(u[0] == '<' && u[1] == t[0]);
    lemma_scan_while_exact(u, 0, 0, ws_pred());
    assert(!seq_starts_with(u, 0, seq!['<', '/']));
    assert(spec_parse_nodes(u, 0) == Some((seq![e], Seq::<StylesheetV>::empty(), 2 * n + 7)))
        by {
        assert(spec_parse_nodes(u, 0).unwrap().0 =~= seq![e]);
        assert(spec_parse_nodes(u, 0).unwrap().1 =~= Seq::<StylesheetV>::empty());
    }
}

/// Law (one slice of the round trip): rendering a childless element without
/// attributes at indent zero and parsing the rendering yields a document
/// holding exactly that element and no stylesheets. Tag names beginning with
/// `style` are left out: the parser reads their rendering as a `<style>`
/// element, so they do not come back as elements.
#[verifier::rlimit(100)]
#[verifier::spinoff_prover]
pub proof fn lemma_render_parse_single_element(t: Seq<char>)
    requires
        valid_tag_name(t),
        !seq_starts_with(t, 0, seq!['s', 't', 'y', 'l', 'e']),
    ensures
        ({
            let e = NodeV {
                children: Seq::empty(),
                node_type: NodeTypeV::Element(
                    ElementDataV { tag_name: t, attributes: Seq::empty() },
                ),
            };
            spec_parse_document(crate::dom::spec_render_node(e, 0)) == Some(
                NodeV {
                    children: seq![e],
                    node_type: NodeTypeV::Document(DocumentDataV { stylesheets: Seq::empty() }),
                },
            )
        }),
{
    lemma_render_single_element(t);
    lemma_parse_rendered_nodes(t);
    let u = seq!['<'] + t + seq!['>', '\n', '<', '/'] + t + seq!['>', '\n'];
    let e = NodeV {
        children: Seq::empty(),
        node_type: NodeTypeV::Element(ElementDataV { tag_name: t, attributes: Seq::empty() }),
    };
    assert(spec_parse_document(u) == Some(
        NodeV {
            children: seq![e],
            node_type: NodeTypeV::Document(DocumentDataV { stylesheets: Seq::empty() }),
        },
    )) by {
        assert(spec_parse_document(u).unwrap() =~= NodeV {
            children: seq![e],
            node_type: NodeTypeV::Document(DocumentDataV { stylesheets: Seq::empty() }),
        });
    }
}

} // verus!
