//! The document tree: text, comment, element and document nodes, plus the
//! attribute map. The tree is a strict single-owner hierarchy, built once by
//! the markup parser and immutable afterwards.

use vstd::prelude::*;
use crate::css::{Stylesheet, StylesheetV};
use crate::parser;
use crate::text::{
    scan_while, str_eq, string_to_chars, lemma_scan_while_bounds, lemma_scan_while_stops, ws_pred,
    non_ws_pred, whitespace_char,
};

verus! {

broadcast use lemma_scan_while_bounds, vstd::std_specs::vec::group_vec_axioms;

// ---- The attribute map ----

/// The value bound to `k` in an attribute list: the first entry with that
/// key, if any.
pub open spec fn spec_attr_lookup(m: Seq<(Seq<char>, Seq<char>)>, k: Seq<char>) -> Option<
    Seq<char>,
>
    decreases m.len(),
{
    if m.len() == 0 {
        None
    } else if m[0].0 == k {
        Some(m[0].1)
    } else {
        spec_attr_lookup(m.drop_first(), k)
    }
}

/// Binding `k` to `v`: the existing entry for `k` is replaced in place
/// (last write wins), a new key is appended.
pub open spec fn spec_attr_insert(
    m: Seq<(Seq<char>, Seq<char>)>,
    k: Seq<char>,
    v: Seq<char>,
) -> Seq<(Seq<char>, Seq<char>)>
    decreases m.len(),
{
    if m.len() == 0 {
        seq![(k, v)]
    } else if m[0].0 == k {
        seq![(k, v)] + m.drop_first()
    } else {
        seq![m[0]] + spec_attr_insert(m.drop_first(), k, v)
    }
}

/// No key occurs twice.
pub open spec fn unique_keys(m: Seq<(Seq<char>, Seq<char>)>) -> bool {
    forall|i: int, j: int| 0 <= i < j < m.len() ==> m[i].0 != m[j].0
}

pub proof fn lemma_attr_insert_unique(m: Seq<(Seq<char>, Seq<char>)>, k: Seq<char>, v: Seq<char>)
    requires
        unique_keys(m),
    ensures
        unique_keys(spec_attr_insert(m, k, v)),
        spec_attr_lookup(spec_attr_insert(m, k, v), k) == Some(v),
    decreases m.len(),
{
    if m.len() == 0 {
    } else if m[0].0 == k {
        let r = seq![(k, v)] + m.drop_first();
        assert forall|i: int, j: int| 0 <= i < j < r.len() implies r[i].0 != r[j].0 by {
            if i == 0 {
                assert(r[j] == m[j]);
                assert(m[0].0 != m[j].0);
            } else {
                assert(r[i] == m[i] && r[j] == m[j]);
            }
        }
        assert(r.drop_first() =~= m.drop_first());
    } else {
        assert(unique_keys(m.drop_first())) by {
            assert(forall|i: int, j: int|
                0 <= i < j < m.drop_first().len() ==> m.drop_first()[i] == m[i + 1]
                    && m.drop_first()[j] == m[j + 1]);
        }
        lemma_attr_insert_unique(m.drop_first(), k, v);
        let rest = spec_attr_insert(m.drop_first(), k, v);
        let r = seq![m[0]] + rest;
        lemma_attr_insert_keys(m.drop_first(), k, v);
        assert forall|i: int, j: int| 0 <= i < j < r.len() implies r[i].0 != r[j].0 by {
            if i == 0 {
                assert(r[j] == rest[j - 1]);
                if rest[j - 1].0 == m[0].0 {
                    assert(rest.contains(rest[j - 1]));
                }
            } else {
                assert(r[i] == rest[i - 1] && r[j] == rest[j - 1]);
            }
        }
        assert(r.drop_first() =~= rest);
    }
}

/// Every key of the inserted list is an old key or `k`.
pub proof fn lemma_attr_insert_keys(m: Seq<(Seq<char>, Seq<char>)>, k: Seq<char>, v: Seq<char>)
    ensures
        forall|e: (Seq<char>, Seq<char>)|
            #[trigger] spec_attr_insert(m, k, v).contains(e) ==> e.0 == k || (exists|i: int|
                0 <= i < m.len() && m[i].0 == e.0),
    decreases m.len(),
{
    if m.len() == 0 {
    } else if m[0].0 == k {
        assert forall|e: (Seq<char>, Seq<char>)|
            #[trigger] spec_attr_insert(m, k, v).contains(e) implies e.0 == k || (exists|i: int|
            0 <= i < m.len() && m[i].0 == e.0) by {
            let r = seq![(k, v)] + m.drop_first();
            let w = choose|w: int| 0 <= w < r.len() && r[w] == e;
            if w > 0 {
                assert(m[w] == e);
            }
        }
    } else {
        lemma_attr_insert_keys(m.drop_first(), k, v);
        assert forall|e: (Seq<char>, Seq<char>)|
            #[trigger] spec_attr_insert(m, k, v).contains(e) implies e.0 == k || (exists|i: int|
            0 <= i < m.len() && m[i].0 == e.0) by {
            let rest = spec_attr_insert(m.drop_first(), k, v);
            let r = seq![m[0]] + rest;
            let w = choose|w: int| 0 <= w < r.len() && r[w] == e;
            if w == 0 {
                assert(m[0].0 == e.0);
            } else {
                assert(rest.contains(rest[w - 1]));
                if e.0 != k {
                    let i = choose|i: int|
                        0 <= i < m.drop_first().len() && m.drop_first()[i].0 == e.0;
                    assert(m[i + 1].0 == e.0);
                }
            }
        }
    }
}

/// The attribute map of an element: ordered name/value entries with unique,
/// case-sensitive keys; inserting an existing name overwrites its value.
#[derive(Debug, PartialEq)]
pub struct AttrMap {
    entries: Vec<(String, String)>,
}

impl View for AttrMap {
    type V = Seq<(Seq<char>, Seq<char>)>;

    closed spec fn view(&self) -> Seq<(Seq<char>, Seq<char>)> {
        Seq::new(
            self.entries@.len(),
            |i: int|
                {
                    let (a, b) = self.entries@[i];
                    (a@, b@)
                },
        )
    }
}

impl AttrMap {
    /// The map's invariant: no attribute name occurs twice.
    pub open spec fn wf(&self) -> bool {
        unique_keys(self@)
    }

    pub fn new() -> (r: AttrMap)
        ensures
            r@ == Seq::<(Seq<char>, Seq<char>)>::empty(),
            r.wf(),
    {
        let r = AttrMap { entries: Vec::new() };
        proof {
            assert(r@ =~= Seq::<(Seq<char>, Seq<char>)>::empty());
        }
        r
    }

    /// Bind `name` to `value`; an existing binding of `name` is overwritten.
    pub fn insert(&mut self, name: String, value: String)
        ensures
            final(self)@ == spec_attr_insert(old(self)@, name@, value@),
            old(self).wf() ==> final(self).wf(),
    {
        let ghost pre = self@;
        let n = self.entries.len();
        let mut i: usize = 0;
        while i < n
            invariant
                n == self.entries.len(),
                i <= n,
                self@ == pre,
                pre == old(self)@,
                forall|j: int| 0 <= j < i ==> pre[j].0 != name@,
            decreases n - i,
        {
            if str_eq(self.entries[i].0.as_str(), name.as_str()) {
                let ghost at = i as int;
                self.entries[i] = (name, value);
                proof {
                    lemma_attr_insert_found(pre, name@, value@, at);
                    assert(self@ =~= pre.update(at, (name@, value@)));
                    if unique_keys(pre) {
                        lemma_attr_insert_unique(pre, name@, value@);
                    }
                }
                return ;
            }
            i = i + 1;
        }
        self.entries.push((name, value));
        proof {
            lemma_attr_insert_missing(pre, name@, value@);
            assert(self@ =~= pre.push((name@, value@)));
            if unique_keys(pre) {
                lemma_attr_insert_unique(pre, name@, value@);
            }
        }
    }

    /// Look `key` up.
    pub fn get(&self, key: &str) -> (r: Option<&String>)
        ensures
            match r {
                Some(v) => spec_attr_lookup(self@, key@) == Some(v@),
                None => spec_attr_lookup(self@, key@) is None,
            },
    {
        let n = self.entries.len();
        proof {
            assert(self@.subrange(0, n as int) =~= self@);
        }
        let mut i: usize = 0;
        while i < n
            invariant
                n == self.entries.len(),
                i <= n,
                spec_attr_lookup(self@, key@) == spec_attr_lookup(
                    self@.subrange(i as int, n as int),
                    key@,
                ),
            decreases n - i,
        {
            proof {
                assert(self@.subrange(i as int, n as int).drop_first() =~= self@.subrange(
                    i + 1 as int,
                    n as int,
                ));
            }
            if str_eq(self.entries[i].0.as_str(), key) {
                return Some(&self.entries[i].1);
            }
            i = i + 1;
        }
        None
    }

    /// How many attributes the map holds.
    pub fn len(&self) -> (r: usize)
        ensures
            r == self@.len(),
    {
        self.entries.len()
    }
}

/// Inserting a key that sits first-found at `at` updates that entry in place.
proof fn lemma_attr_insert_found(
    m: Seq<(Seq<char>, Seq<char>)>,
    k: Seq<char>,
    v: Seq<char>,
    at: int,
)
    requires
        0 <= at < m.len(),
        m[at].0 == k,
        forall|j: int| 0 <= j < at ==> m[j].0 != k,
    ensures
        spec_attr_insert(m, k, v) == m.update(at, (k, v)),
    decreases m.len(),
{
    if at == 0 {
        assert(spec_attr_insert(m, k, v) =~= m.update(0, (k, v)));
    } else {
        assert(forall|j: int| 0 <= j < at - 1 ==> m.drop_first()[j] == m[j + 1]);
        lemma_attr_insert_found(m.drop_first(), k, v, at - 1);
        assert(spec_attr_insert(m, k, v) =~= m.update(at, (k, v)));
    }
}

/// Inserting a key that the map lacks appends the entry.
proof fn lemma_attr_insert_missing(m: Seq<(Seq<char>, Seq<char>)>, k: Seq<char>, v: Seq<char>)
    requires
        forall|j: int| 0 <= j < m.len() ==> m[j].0 != k,
    ensures
        spec_attr_insert(m, k, v) == m.push((k, v)),
    decreases m.len(),
{
    if m.len() == 0 {
        assert(spec_attr_insert(m, k, v) =~= m.push((k, v)));
    } else {
        assert(forall|j: int| 0 <= j < m.drop_first().len() ==> m.drop_first()[j] == m[j + 1]);
        lemma_attr_insert_missing(m.drop_first(), k, v);
        assert(spec_attr_insert(m, k, v) =~= m.push((k, v)));
    }
}

// ---- Nodes ----

#[derive(Debug, PartialEq)]
pub struct Node {
    pub children: Vec<Node>,
    pub node_type: NodeType,
}

#[derive(Debug, PartialEq)]
pub enum NodeType {
    Text(String),
    Comment(String),
    Element(ElementData),
    Document(DocumentData),
}

#[derive(Debug, PartialEq)]
pub struct ElementData {
    pub tag_name: String,
    pub attributes: AttrMap,
}

#[derive(Debug, PartialEq)]
pub struct DocumentData {
    pub stylesheets: Vec<Stylesheet>,
}

#[verifier::ext_equal]
pub ghost struct NodeV {
    pub children: Seq<NodeV>,
    pub node_type: NodeTypeV,
}

#[verifier::ext_equal]
pub ghost enum NodeTypeV {
    Text(Seq<char>),
    Comment(Seq<char>),
    Element(ElementDataV),
    Document(DocumentDataV),
}

#[verifier::ext_equal]
pub ghost struct ElementDataV {
    pub tag_name: Seq<char>,
    pub attributes: Seq<(Seq<char>, Seq<char>)>,
}

#[verifier::ext_equal]
pub ghost struct DocumentDataV {
    pub stylesheets: Seq<StylesheetV>,
}

impl View for ElementData {
    type V = ElementDataV;

    open spec fn view(&self) -> ElementDataV {
        ElementDataV { tag_name: self.tag_name@, attributes: self.attributes@ }
    }
}

impl View for DocumentData {
    type V = DocumentDataV;

    open spec fn view(&self) -> DocumentDataV {
        DocumentDataV { stylesheets: self.stylesheets@.map_values(|s: Stylesheet| s@) }
    }
}

impl View for NodeType {
    type V = NodeTypeV;

    open spec fn view(&self) -> NodeTypeV {
        match self {
            NodeType::Text(t) => NodeTypeV::Text(t@),
            NodeType::Comment(t) => NodeTypeV::Comment(t@),
            NodeType::Element(e) => NodeTypeV::Element(e@),
            NodeType::Document(d) => NodeTypeV::Document(d@),
        }
    }
}

/// The mathematical tree a node denotes. The out-of-range guard never
/// matters: `Seq::new` consults the function on indices below the length
/// only; it keeps the recursion visibly well-founded.
pub open spec fn spec_node_view(n: Node) -> NodeV
    decreases n,
    via node_view_decreases
{
    NodeV {
        children: Seq::new(
            n.children@.len(),
            |i: int|
                if 0 <= i < n.children@.len() {
                    spec_node_view(n.children@[i])
                } else {
                    NodeV { children: Seq::empty(), node_type: NodeTypeV::Text(Seq::empty()) }
                },
        ),
        node_type: n.node_type@,
    }
}

#[via_fn]
proof fn node_view_decreases(n: Node) {
    assert forall|i: int| 0 <= i < n.children@.len() implies (decreases_to!(
        n => n.children@[i])) by {
        assert(decreases_to!(n => n.children));
        assert(decreases_to!(n.children => n.children@));
        assert(decreases_to!(n.children@ => n.children@[i]));
    }
}

impl View for Node {
    type V = NodeV;

    open spec fn view(&self) -> NodeV {
        spec_node_view(*self)
    }
}

/// The views of a node list.
pub open spec fn views_of_nodes(s: Seq<Node>) -> Seq<NodeV> {
    Seq::new(s.len(), |i: int| s[i]@)
}

// ---- Constructors ----

/// A text node.
pub fn text(data: String) -> (n: Node)
    ensures
        n@ == (NodeV { children: Seq::empty(), node_type: NodeTypeV::Text(data@) }),
{
    let n = Node { children: Vec::new(), node_type: NodeType::Text(data) };
    proof {
        assert(n@.children =~= Seq::<NodeV>::empty());
        assert(n@.node_type =~= NodeTypeV::Text(data@));
        assert(n@ =~= NodeV { children: Seq::empty(), node_type: NodeTypeV::Text(data@) });
    }
    n
}

/// A comment node.
pub fn comment(data: String) -> (n: Node)
    ensures
        n@ == (NodeV { children: Seq::empty(), node_type: NodeTypeV::Comment(data@) }),
{
    let n = Node { children: Vec::new(), node_type: NodeType::Comment(data) };
    proof {
        assert(n@.children =~= Seq::<NodeV>::empty());
        assert(n@.node_type =~= NodeTypeV::Comment(data@));
        assert(n@ =~= NodeV { children: Seq::empty(), node_type: NodeTypeV::Comment(data@) });
    }
    n
}

/// An element node with its attributes and children.
pub fn elem(tag_name: String, attrs: AttrMap, children: Vec<Node>) -> (n: Node)
    ensures
        n@ == (NodeV {
            children: views_of_nodes(children@),
            node_type: NodeTypeV::Element(
                ElementDataV { tag_name: tag_name@, attributes: attrs@ },
            ),
        }),
{
    let ghost cv = children@;
    let ghost tv = tag_name@;
    let ghost av = attrs@;
    let n = Node {
        children,
        node_type: NodeType::Element(ElementData { attributes: attrs, tag_name }),
    };
    proof {
        let m = NodeV {
            children: views_of_nodes(cv),
            node_type: NodeTypeV::Element(ElementDataV { tag_name: tv, attributes: av }),
        };
        assert(n@.children =~= m.children);
        assert(n@.node_type =~= m.node_type);
        assert(n@ =~= m);
    }
    n
}

/// The document root, carrying the harvested stylesheet list.
pub fn document(children: Vec<Node>, stylesheets: Vec<Stylesheet>) -> (n: Node)
    ensures
        n@ == (NodeV {
            children: views_of_nodes(children@),
            node_type: NodeTypeV::Document(
                DocumentDataV {
                    stylesheets: stylesheets@.map_values(|s: Stylesheet| s@),
                },
            ),
        }),
{
    let ghost cv = children@;
    let ghost sv = stylesheets@.map_values(|s: Stylesheet| s@);
    let n = Node { children, node_type: NodeType::Document(DocumentData { stylesheets }) };
    proof {
        let m = NodeV {
            children: views_of_nodes(cv),
            node_type: NodeTypeV::Document(DocumentDataV { stylesheets: sv }),
        };
        assert(n@.children =~= m.children);
        assert(n@.node_type =~= m.node_type);
        assert(n@ =~= m);
    }
    n
}

// ---- Element queries ----

/// The whitespace-split tokens of `s` from `pos` on: the maximal runs of
/// non-whitespace characters, in order. Whitespace only separates, so no
/// token is empty and none holds a whitespace character.
pub open spec fn spec_split_whitespace(s: Seq<char>, pos: int) -> Seq<Seq<char>>
    decreases s.len() - pos,
{
    let start = scan_while(s, pos, ws_pred());
    if 0 <= pos && pos <= start && start < s.len() {
        let end = scan_while(s, start, non_ws_pred());
        if start < end && end <= s.len() {
            seq![s.subrange(start, end)] + spec_split_whitespace(s, end)
        } else {
            Seq::empty()
        }
    } else {
        Seq::empty()
    }
}

/// The class set of an element: the whitespace-split tokens of its `class`
/// attribute, treated as an unordered set when matching, or nothing when the
/// element has no `class` attribute.
pub open spec fn spec_classes(e: ElementDataV) -> Seq<Seq<char>> {
    match spec_attr_lookup(e.attributes, "class"@) {
        Some(v) => spec_split_whitespace(v, 0),
        None => Seq::empty(),
    }
}

pub open spec fn views_of_strings(s: Seq<String>) -> Seq<Seq<char>> {
    s.map_values(|x: String| x@)
}

/// Split the rest of the scanner's input on whitespace.
fn split_whitespace_tokens(p: &mut parser::Parser) -> (r: Vec<String>)
    requires
        old(p).wf(),
    ensures
        views_of_strings(r@) == spec_split_whitespace(old(p).input@, old(p).pos as int),
    decreases old(p).input.len() - old(p).pos,
{
    let ghost s = p.input@;
    let ghost pos0 = p.pos as int;
    p.consume_whitespace();
    if p.eof() {
        let r: Vec<String> = Vec::new();
        proof {
            assert(views_of_strings(r@) =~= Seq::<Seq<char>>::empty());
        }
        return r;
    }
    let ghost start = p.pos as int;
    proof {
        lemma_scan_while_stops(s, pos0, ws_pred());
        assert(non_ws_pred()(s[start]));
    }
    let test = |c: char| -> (b: bool)
        ensures
            b == non_ws_pred()(c),
        { !c.is_whitespace() };
    let token = p.consume_while(test, Ghost(non_ws_pred()));
    proof {
        assert(scan_while(s, start, non_ws_pred()) == scan_while(s, start + 1, non_ws_pred()));
    }
    let mut rest = split_whitespace_tokens(p);
    let ghost restv = views_of_strings(rest@);
    rest.insert(0, token);
    proof {
        assert(views_of_strings(rest@) =~= seq![token@] + restv);
    }
    rest
}

impl ElementData {
    /// Look an attribute up by name.
    pub fn get_attribute(&self, key: &str) -> (r: Option<&String>)
        ensures
            match r {
                Some(v) => spec_attr_lookup(self@.attributes, key@) == Some(v@),
                None => spec_attr_lookup(self@.attributes, key@) is None,
            },
    {
        self.attributes.get(key)
    }

    /// The element's `id` attribute, if it has one.
    pub fn id(&self) -> (r: Option<&String>)
        ensures
            match r {
                Some(v) => spec_attr_lookup(self@.attributes, "id"@) == Some(v@),
                None => spec_attr_lookup(self@.attributes, "id"@) is None,
            },
    {
        self.get_attribute("id")
    }

    /// The element's class tokens: its `class` attribute split on whitespace.
    pub fn classes(&self) -> (r: Vec<String>)
        ensures
            views_of_strings(r@) == spec_classes(self@),
    {
        match self.get_attribute("class") {
            Some(classlist) => {
                let mut p = parser::Parser::new(string_to_chars(classlist.as_str()));
                split_whitespace_tokens(&mut p)
            },
            None => {
                let r: Vec<String> = Vec::new();
                proof {
                    assert(views_of_strings(r@) =~= Seq::<Seq<char>>::empty());
                }
                r
            },
        }
    }
}

impl DocumentData {
    /// The stylesheets harvested while the document was parsed.
    pub fn stylesheets(&self) -> (r: &Vec<Stylesheet>)
        ensures
            r == self.stylesheets,
    {
        &self.stylesheets
    }
}

} // verus!

// The renderer lives beside the tree: an indented, markup-shaped listing for
// inspection; printing it is the caller's business.

use crate::text::{spec_indent, render_indent};
use vstd::string::StringExecFns;

verus! {

/// One rendered attribute: ` name="value"`.
pub open spec fn spec_render_attrs(attrs: Seq<(Seq<char>, Seq<char>)>, i: int) -> Seq<char>
    decreases attrs.len() - i,
{
    if i < 0 || i >= attrs.len() {
        Seq::empty()
    } else {
        " "@ + attrs[i].0 + "=\""@ + attrs[i].1 + "\""@ + spec_render_attrs(attrs, i + 1)
    }
}

/// One level deeper, staying within the machine's integer limit.
pub open spec fn spec_deeper(ind: nat) -> nat {
    if ind < usize::MAX as nat {
        (ind + 1) as nat
    } else {
        ind
    }
}

pub fn deeper(ind: usize) -> (r: usize)
    ensures
        r as nat == spec_deeper(ind as nat),
{
    if ind < usize::MAX {
        ind + 1
    } else {
        ind
    }
}

/// The rendered subtree of one node at an indent level: text and comments on
/// their own lines, an element as its open tag, its children one level
/// deeper, and its close tag; the document node renders as its children.
pub open spec fn spec_render_node(n: NodeV, ind: nat) -> Seq<char>
    decreases n, 0int,
{
    match n.node_type {
        NodeTypeV::Text(t) => spec_indent(ind) + t + "\n"@,
        NodeTypeV::Comment(t) => spec_indent(ind) + "<!--"@ + t + "-->"@ + "\n"@,
        NodeTypeV::Element(e) => spec_indent(ind) + "<"@ + e.tag_name + spec_render_attrs(
            e.attributes,
            0,
        ) + ">"@ + "\n"@ + spec_render_nodes(n.children, spec_deeper(ind), 0) + spec_indent(ind)
            + "</"@ + e.tag_name + ">"@ + "\n"@,
        NodeTypeV::Document(_) => spec_render_nodes(n.children, ind, 0),
    }
}

/// The rendered nodes `cs[i..]`, concatenated.
pub open spec fn spec_render_nodes(cs: Seq<NodeV>, ind: nat, i: int) -> Seq<char>
    decreases cs, cs.len() - i, 1int,
{
    if i < 0 || i >= cs.len() {
        Seq::empty()
    } else {
        spec_render_node(cs[i], ind) + spec_render_nodes(cs, ind, i + 1)
    }
}

impl AttrMap {
    /// Render every attribute as ` name="value"`, in stored order.
    fn render(&self) -> (r: String)
        ensures
            r@ == spec_render_attrs(self@, 0),
    {
        let mut out = String::new();
        let n = self.entries.len();
        let mut i: usize = 0;
        while i < n
            invariant
                n == self.entries.len(),
                out@ + spec_render_attrs(self@, i as int) == spec_render_attrs(self@, 0),
                i <= n,
            decreases n - i,
        {
            let ghost pre = out@;
            out.append(" ");
            out.append(self.entries[i].0.as_str());
            out.append("=\"");
            out.append(self.entries[i].1.as_str());
            out.append("\"");
            i = i + 1;
            proof {
                assert(out@ + spec_render_attrs(self@, i as int) =~= pre + spec_render_attrs(
                    self@,
                    i - 1 as int,
                ));
            }
        }
        proof {
            assert(out@ =~= out@ + spec_render_attrs(self@, n as int));
        }
        out
    }
}

impl Node {
    /// Render the tree from this node down, starting at the given indent
    /// level.
    pub fn pretty_print(&self, indent_level: usize) -> (r: String)
        ensures
            r@ == spec_render_node(self@, indent_level as nat),
        decreases *self,
    {
        let ghost sv = self@;
        let mut out = String::new();
        match &self.node_type {
            NodeType::Text(t) => {
                out.append(render_indent(indent_level).as_str());
                out.append(t.as_str());
                out.append("\n");
                proof {
                    assert(out@ =~= spec_render_node(sv, indent_level as nat));
                }
            },
            NodeType::Comment(t) => {
                out.append(render_indent(indent_level).as_str());
                out.append("<!--");
                out.append(t.as_str());
                out.append("-->");
                out.append("\n");
                proof {
                    assert(out@ =~= spec_render_node(sv, indent_level as nat));
                }
            },
            NodeType::Element(e) => {
                out.append(render_indent(indent_level).as_str());
                out.append("<");
                out.append(e.tag_name.as_str());
                out.append(e.attributes.render().as_str());
                out.append(">");
                out.append("\n");
                let kids = self.render_children(deeper(indent_level));
                out.append(kids.as_str());
                out.append(render_indent(indent_level).as_str());
                out.append("</");
                out.append(e.tag_name.as_str());
                out.append(">");
                out.append("\n");
                proof {
                    assert(out@ =~= spec_render_node(sv, indent_level as nat));
                }
            },
            NodeType::Document(_) => {
                let kids = self.render_children(indent_level);
                out.append(kids.as_str());
                proof {
                    assert(out@ =~= spec_render_node(sv, indent_level as nat));
                }
            },
        }
        out
    }

    /// Render this node's children, concatenated, at the given indent level.
    fn render_children(&self, ind: usize) -> (r: String)
        ensures
            r@ == spec_render_nodes(self@.children, ind as nat, 0),
        decreases *self, 1int,
    {
        let ghost cs = self@.children;
        let mut out = String::new();
        let n = self.children.len();
        let mut i: usize = 0;
        while i < n
            invariant
                n == self.children.len(),
                cs == self@.children,
                i <= n,
                out@ + spec_render_nodes(cs, ind as nat, i as int) == spec_render_nodes(
                    cs,
                    ind as nat,
                    0,
                ),
            decreases n - i,
        {
            proof {
                assert(decreases_to!(*self => self.children));
                assert(decreases_to!(self.children => self.children@));
                assert(decreases_to!(self.children@ => self.children@[i as int]));
                assert(self.children@[i as int]@ == cs[i as int]);
            }
            let ghost pre = out@;
            let line = self.children[i].pretty_print(ind);
            out.append(line.as_str());
            i = i + 1;
            proof {
                assert(out@ + spec_render_nodes(cs, ind as nat, i as int) =~= pre
                    + spec_render_nodes(cs, ind as nat, i - 1 as int));
            }
        }
        proof {
            assert(out@ =~= out@ + spec_render_nodes(cs, ind as nat, n as int));
        }
        out
    }
}

} // verus!
