//! Layout-tree construction: styled nodes are partitioned into block and
//! inline boxes by their computed `display`, consecutive inline children
//! under a block parent are grouped under one anonymous block, and
//! `display: none` subtrees are dropped. Box geometry stays at its zero
//! placeholders: no measurement or positioning happens in this scope.

use vstd::prelude::*;
use crate::css::ValueV;
use crate::style::{StyledNode, StyledNodeV, spec_prop_lookup};

verus! {

broadcast use vstd::std_specs::vec::group_vec_axioms;

#[derive(Debug, PartialEq, Eq, Structural, Clone, Copy)]
pub struct Rect {
    pub x: i64,
    pub y: i64,
    pub width: i64,
    pub height: i64,
}

#[derive(Debug, PartialEq, Eq, Structural, Clone, Copy)]
pub struct EdgeSizes {
    pub left: i64,
    pub right: i64,
    pub top: i64,
    pub bottom: i64,
}

/// The box-model record. In this scope it only ever holds zeroes: the shape
/// exists, no geometry solver fills it.
#[derive(Debug, PartialEq, Eq, Structural, Clone, Copy)]
pub struct Dimensions {
    pub content: Rect,
    pub padding: EdgeSizes,
    pub border: EdgeSizes,
    pub margin: EdgeSizes,
}

/// A computed display value.
#[derive(Debug, PartialEq, Eq, Structural, Clone, Copy)]
pub enum Display {
    Inline,
    Block,
    NoDisplay,
}

/// A box in the layout tree. Block and inline boxes borrow the styled node
/// they were made from; anonymous blocks have none.
pub struct LayoutBox<'a> {
    pub dimensions: Dimensions,
    pub box_type: BoxType<'a>,
    pub children: Vec<LayoutBox<'a>>,
}

pub enum BoxType<'a> {
    BlockNode(&'a StyledNode<'a>),
    InlineNode(&'a StyledNode<'a>),
    AnonymousBlock,
}

/// The configuration violation: the root's display resolved to `none`, so no
/// layout tree exists.
#[derive(Debug, PartialEq, Eq, Structural, Clone, Copy)]
pub struct LayoutError;

#[verifier::ext_equal]
pub ghost struct LayoutBoxV {
    pub dimensions: Dimensions,
    pub box_type: BoxTypeV,
    pub children: Seq<LayoutBoxV>,
}

#[verifier::ext_equal]
pub ghost enum BoxTypeV {
    BlockNode(StyledNodeV),
    InlineNode(StyledNodeV),
    AnonymousBlock,
}

impl<'a> View for BoxType<'a> {
    type V = BoxTypeV;

    open spec fn view(&self) -> BoxTypeV {
        match self {
            BoxType::BlockNode(s) => BoxTypeV::BlockNode((*s)@),
            BoxType::InlineNode(s) => BoxTypeV::InlineNode((*s)@),
            BoxType::AnonymousBlock => BoxTypeV::AnonymousBlock,
        }
    }
}

/// The mathematical tree a layout box denotes. The out-of-range guard never
/// matters: `Seq::new` consults the function on indices below the length
/// only; it keeps the recursion visibly well-founded.
pub open spec fn spec_box_view<'a>(b: LayoutBox<'a>) -> LayoutBoxV
    decreases b,
    via box_view_decreases
{
    LayoutBoxV {
        dimensions: b.dimensions,
        box_type: b.box_type@,
        children: Seq::new(
            b.children@.len(),
            |i: int|
                if 0 <= i < b.children@.len() {
                    spec_box_view(b.children@[i])
                } else {
                    LayoutBoxV {
                        dimensions: zero_dimensions(),
                        box_type: BoxTypeV::AnonymousBlock,
                        children: Seq::empty(),
                    }
                },
        ),
    }
}

#[via_fn]
proof fn box_view_decreases<'a>(b: LayoutBox<'a>) {
    assert forall|i: int| 0 <= i < b.children@.len() implies (decreases_to!(
        b => b.children@[i])) by {
        assert(decreases_to!(b => b.children));
        assert(decreases_to!(b.children => b.children@));
        assert(decreases_to!(b.children@ => b.children@[i]));
    }
}

impl<'a> View for LayoutBox<'a> {
    type V = LayoutBoxV;

    open spec fn view(&self) -> LayoutBoxV {
        spec_box_view(*self)
    }
}

/// The all-zero placeholder dimensions.
pub open spec fn zero_dimensions() -> Dimensions {
    Dimensions {
        content: Rect { x: 0, y: 0, width: 0, height: 0 },
        padding: EdgeSizes { left: 0, right: 0, top: 0, bottom: 0 },
        border: EdgeSizes { left: 0, right: 0, top: 0, bottom: 0 },
        margin: EdgeSizes { left: 0, right: 0, top: 0, bottom: 0 },
    }
}

/// A styled node's computed display: `block` or `none` when its `display`
/// property is that keyword, inline otherwise (in particular when the
/// property is absent or not a keyword).
pub open spec fn spec_display(sn: StyledNodeV) -> Display {
    match spec_prop_lookup(sn.specified_values, "display"@) {
        Some(v) => match v {
            ValueV::Keyword(k) => if k == "block"@ {
                Display::Block
            } else if k == "none"@ {
                Display::NoDisplay
            } else {
                Display::Inline
            },
            _ => Display::Inline,
        },
        None => Display::Inline,
    }
}

impl<'a> LayoutBox<'a> {
    /// A fresh box of the given type: zero dimensions, no children.
    pub fn new(box_type: BoxType<'a>) -> (r: LayoutBox<'a>)
        ensures
            r@ == (LayoutBoxV {
                dimensions: zero_dimensions(),
                box_type: box_type@,
                children: Seq::empty(),
            }),
    {
        let r = LayoutBox {
            box_type,
            dimensions: Dimensions {
                content: Rect { x: 0, y: 0, width: 0, height: 0 },
                padding: EdgeSizes { left: 0, right: 0, top: 0, bottom: 0 },
                border: EdgeSizes { left: 0, right: 0, top: 0, bottom: 0 },
                margin: EdgeSizes { left: 0, right: 0, top: 0, bottom: 0 },
            },
            children: Vec::new(),
        };
        proof {
            assert(r@.children =~= Seq::<LayoutBoxV>::empty());
            assert(r@ =~= LayoutBoxV {
                dimensions: zero_dimensions(),
                box_type: r.box_type@,
                children: Seq::empty(),
            });
        }
        r
    }
}

/// Where an inline child's box lands under `acc`, the children of the current
/// box: directly at the end when the current box is itself inline or
/// anonymous (`parent_block` false); under the current box's last child when
/// that child is already an anonymous block; otherwise under a fresh
/// anonymous block. This coalescing gives consecutive inline children one
/// shared wrapper.
pub open spec fn spec_append_inline(
    acc: Seq<LayoutBoxV>,
    b: LayoutBoxV,
    parent_block: bool,
) -> Seq<LayoutBoxV> {
    if !parent_block {
        acc.push(b)
    } else if acc.len() > 0 && acc.last().box_type is AnonymousBlock {
        acc.update(
            acc.len() - 1,
            LayoutBoxV {
                dimensions: acc.last().dimensions,
                box_type: acc.last().box_type,
                children: acc.last().children.push(b),
            },
        )
    } else {
        acc.push(
            LayoutBoxV {
                dimensions: zero_dimensions(),
                box_type: BoxTypeV::AnonymousBlock,
                children: seq![b],
            },
        )
    }
}

/// The boxes that the children `cs[i..]` contribute, folded left to right
/// onto `acc`: a block child appends its own box, an inline child goes to the
/// inline container, and a `display: none` child contributes nothing at all.
pub open spec fn spec_layout_children(
    cs: Seq<StyledNodeV>,
    i: int,
    acc: Seq<LayoutBoxV>,
    parent_block: bool,
) -> Seq<LayoutBoxV>
    decreases cs, cs.len() - i, 1int,
{
    if i < 0 || i >= cs.len() {
        acc
    } else {
        let acc2 = match spec_display(cs[i]) {
            Display::Block => acc.push(spec_build_layout_tree(cs[i])),
            Display::Inline => spec_append_inline(
                acc,
                spec_build_layout_tree(cs[i]),
                parent_block,
            ),
            Display::NoDisplay => acc,
        };
        spec_layout_children(cs, i + 1, acc2, parent_block)
    }
}

/// The layout box of one styled node whose display is block or inline: a box
/// of the matching type over the boxes its children contribute.
pub open spec fn spec_build_layout_tree(sn: StyledNodeV) -> LayoutBoxV
    recommends
        spec_display(sn) != Display::NoDisplay,
    decreases sn, 0int, 0int,
{
    let parent_block = spec_display(sn) == Display::Block;
    let bt = if parent_block {
        BoxTypeV::BlockNode(sn)
    } else {
        BoxTypeV::InlineNode(sn)
    };
    LayoutBoxV {
        dimensions: zero_dimensions(),
        box_type: bt,
        children: spec_layout_children(sn.children, 0, Seq::empty(), parent_block),
    }
}

impl<'a> LayoutBox<'a> {
    /// Append an inline child's box where it belongs under this box, per
    /// `spec_append_inline`.
    fn append_to_inline_container(&mut self, b: LayoutBox<'a>)
        ensures
            final(self)@.dimensions == old(self)@.dimensions,
            final(self)@.box_type == old(self)@.box_type,
            final(self)@.children == spec_append_inline(
                old(self)@.children,
                b@,
                old(self)@.box_type is BlockNode,
            ),
    {
        let ghost pre = self@;
        let ghost bv = b@;
        let is_block = match &self.box_type {
            BoxType::BlockNode(_) => true,
            BoxType::InlineNode(_) => false,
            BoxType::AnonymousBlock => false,
        };
        if !is_block {
            self.children.push(b);
            proof {
                assert(self@.children =~= pre.children.push(bv));
                assert(self@ =~= LayoutBoxV {
                    dimensions: pre.dimensions,
                    box_type: pre.box_type,
                    children: pre.children.push(bv),
                });
            }
            return ;
        }
        let needs_new = if self.children.len() == 0 {
            true
        } else {
            match &self.children[self.children.len() - 1].box_type {
                BoxType::AnonymousBlock => false,
                _ => true,
            }
        };
        if needs_new {
            let anon = LayoutBox::new(BoxType::AnonymousBlock);
            let mut anon2 = anon;
            anon2.children.push(b);
            proof {
                assert(anon2@.children =~= seq![bv]);
            }
            self.children.push(anon2);
            proof {
                assert(self@.children =~= pre.children.push(
                    LayoutBoxV {
                        dimensions: zero_dimensions(),
                        box_type: BoxTypeV::AnonymousBlock,
                        children: seq![bv],
                    },
                ));
                assert(self@ =~= LayoutBoxV {
                    dimensions: pre.dimensions,
                    box_type: pre.box_type,
                    children: spec_append_inline(pre.children, bv, true),
                });
            }
        } else {
            let mut last = self.children.pop().unwrap();
            let ghost lastv = pre.children.last();
            proof {
                assert(last@ == lastv);
            }
            last.children.push(b);
            proof {
                assert(last@.children =~= lastv.children.push(bv));
                assert(last@ =~= LayoutBoxV {
                    dimensions: lastv.dimensions,
                    box_type: lastv.box_type,
                    children: lastv.children.push(bv),
                });
            }
            self.children.push(last);
            proof {
                assert(self@.children =~= pre.children.update(
                    pre.children.len() - 1,
                    LayoutBoxV {
                        dimensions: lastv.dimensions,
                        box_type: lastv.box_type,
                        children: lastv.children.push(bv),
                    },
                ));
                assert(self@ =~= LayoutBoxV {
                    dimensions: pre.dimensions,
                    box_type: pre.box_type,
                    children: spec_append_inline(pre.children, bv, true),
                });
            }
        }
    }
}

/// The children fold reads only `cs[i..]`: equal suffixes give equal boxes.
proof fn lemma_layout_children_suffix(
    cs1: Seq<StyledNodeV>,
    i1: int,
    cs2: Seq<StyledNodeV>,
    i2: int,
    acc: Seq<LayoutBoxV>,
    pb: bool,
)
    requires
        0 <= i1 <= cs1.len(),
        0 <= i2 <= cs2.len(),
        cs1.skip(i1) == cs2.skip(i2),
    ensures
        spec_layout_children(cs1, i1, acc, pb) == spec_layout_children(cs2, i2, acc, pb),
    decreases cs1.len() - i1,
{
    assert(cs1.len() - i1 == cs2.len() - i2) by {
        assert(cs1.skip(i1).len() == cs1.len() - i1);
        assert(cs2.skip(i2).len() == cs2.len() - i2);
        assert(cs1.skip(i1).len() == cs2.skip(i2).len());
    }
    if i1 < cs1.len() {
        assert(cs1[i1] == cs2[i2]) by {
            assert(cs1.skip(i1)[0] == cs1[i1]);
            assert(cs2.skip(i2)[0] == cs2[i2]);
        }
        assert(cs1.skip(i1 + 1) =~= cs2.skip(i2 + 1)) by {
            assert forall|k: int| #![trigger cs1.skip(i1 + 1)[k]] 0 <= k < cs1.len() - i1
                - 1 implies cs1.skip(i1 + 1)[k] == cs2.skip(i2 + 1)[k] by {
                assert(cs1.skip(i1)[k + 1] == cs1[i1 + 1 + k]);
                assert(cs2.skip(i2)[k + 1] == cs2[i2 + 1 + k]);
            }
        }
        let b = spec_build_layout_tree(cs1[i1]);
        let acc2 = match spec_display(cs1[i1]) {
            Display::Block => acc.push(b),
            Display::Inline => spec_append_inline(acc, b, pb),
            Display::NoDisplay => acc,
        };
        lemma_layout_children_suffix(cs1, i1 + 1, cs2, i2 + 1, acc2, pb);
    }
}

/// Removing a `display: none` child at `i >= j` does not change the boxes
/// the children `cs[j..]` contribute.
proof fn lemma_remove_none_from(
    cs: Seq<StyledNodeV>,
    i: int,
    j: int,
    acc: Seq<LayoutBoxV>,
    pb: bool,
)
    requires
        0 <= j <= i < cs.len(),
        spec_display(cs[i]) == Display::NoDisplay,
    ensures
        spec_layout_children(cs.remove(i), j, acc, pb) == spec_layout_children(cs, j, acc, pb),
    decreases i - j,
{
    if j == i {
        assert(cs.remove(i).skip(j) =~= cs.skip(j + 1)) by {
            assert forall|k: int| #![trigger cs.remove(i).skip(j)[k]] 0 <= k < cs.len() - j
                - 1 implies cs.remove(i).skip(j)[k] == cs.skip(j + 1)[k] by {
                assert(cs.remove(i).skip(j)[k] == cs.remove(i)[j + k]);
                assert(cs.remove(i)[j + k] == cs[j + 1 + k]);
            }
        }
        lemma_layout_children_suffix(cs.remove(i), j, cs, j + 1, acc, pb);
    } else {
        assert(cs.remove(i)[j] == cs[j]);
        let b = spec_build_layout_tree(cs[j]);
        let acc2 = match spec_display(cs[j]) {
            Display::Block => acc.push(b),
            Display::Inline => spec_append_inline(acc, b, pb),
            Display::NoDisplay => acc,
        };
        lemma_remove_none_from(cs, i, j + 1, acc2, pb);
    }
}

/// Law: a child whose computed display is `none` contributes zero boxes, its
/// entire descendant subtree with it: the boxes built under a parent are
/// exactly those built when that child is absent, whatever the displays of
/// parent and siblings.
pub proof fn lemma_display_none_pruned(sn: StyledNodeV, i: int)
    requires
        0 <= i < sn.children.len(),
        spec_display(sn.children[i]) == Display::NoDisplay,
    ensures
        spec_build_layout_tree(
            StyledNodeV { children: sn.children.remove(i), ..sn },
        ).children == spec_build_layout_tree(sn).children,
        spec_build_layout_tree(StyledNodeV { children: sn.children.remove(i), ..sn }).dimensions
            == spec_build_layout_tree(sn).dimensions,
{
    let sn2 = StyledNodeV { children: sn.children.remove(i), ..sn };
    assert(spec_display(sn2) == spec_display(sn));
    lemma_remove_none_from(
        sn.children,
        i,
        0,
        Seq::empty(),
        spec_display(sn) == Display::Block,
    );
}

/// Build and return the layout tree for a styled tree. The root's display
/// must not be `none`: that configuration violation is reported, and nothing
/// is built. Children with `display: none` are dropped with their whole
/// subtrees.
pub fn build_layout_tree<'a>(style_node: &'a StyledNode<'a>) -> (r: Result<
    LayoutBox<'a>,
    LayoutError,
>)
    ensures
        r is Err <==> spec_display(style_node@) == Display::NoDisplay,
        r matches Ok(b) ==> b@ == spec_build_layout_tree(style_node@),
    decreases *style_node,
{
    let ghost snv = style_node@;
    let d = style_node.display();
    let bt = match d {
        Display::Block => BoxType::BlockNode(style_node),
        Display::Inline => BoxType::InlineNode(style_node),
        Display::NoDisplay => {
            return Err(LayoutError);
        },
    };
    let ghost parent_block = spec_display(snv) == Display::Block;
    let mut root = LayoutBox::new(bt);
    let n = style_node.children.len();
    let mut i: usize = 0;
    while i < n
        invariant
            n == style_node.children.len(),
            i <= n,
            snv == style_node@,
            root@.dimensions == zero_dimensions(),
            root@.box_type == (if parent_block {
                BoxTypeV::BlockNode(snv)
            } else {
                BoxTypeV::InlineNode(snv)
            }),
            (root@.box_type is BlockNode) == parent_block,
            spec_layout_children(snv.children, 0, Seq::empty(), parent_block)
                == spec_layout_children(snv.children, i as int, root@.children, parent_block),
        decreases n - i,
    {
        proof {
            assert(decreases_to!(*style_node => style_node.children));
            assert(decreases_to!(style_node.children => style_node.children@));
            assert(decreases_to!(style_node.children@ => style_node.children@[i as int]));
            assert(style_node.children@[i as int]@ == snv.children[i as int]);
        }
        let child = &style_node.children[i];
        let cd = child.display();
        match cd {
            Display::Block => {
                match build_layout_tree(child) {
                    Ok(b) => {
                        let ghost accpre = root@.children;
                        let ghost bv = b@;
                        root.children.push(b);
                        proof {
                            assert(root@.children =~= accpre.push(bv));
                        }
                    },
                    Err(_) => {
                        return Err(LayoutError);
                    },
                }
            },
            Display::Inline => {
                match build_layout_tree(child) {
                    Ok(b) => {
                        root.append_to_inline_container(b);
                    },
                    Err(_) => {
                        return Err(LayoutError);
                    },
                }
            },
            Display::NoDisplay => {},
        }
        i = i + 1;
    }
    proof {
        assert(root@ =~= spec_build_layout_tree(snv));
    }
    Ok(root)
}

} // verus!

// The box renderer: one line per box with its kind, children indented one
// level deeper; printing it is the caller's business.

use crate::dom::{spec_deeper, deeper};
use crate::text::{spec_indent, render_indent};
use vstd::string::StringExecFns;

verus! {

pub open spec fn spec_box_kind(bt: BoxTypeV) -> Seq<char> {
    match bt {
        BoxTypeV::BlockNode(_) => "BlockNode"@,
        BoxTypeV::InlineNode(_) => "InlineNode"@,
        BoxTypeV::AnonymousBlock => "AnonymousBlock"@,
    }
}

/// The rendered subtree of one box at an indent level: its kind on one line,
/// its children one level deeper.
pub open spec fn spec_render_box(b: LayoutBoxV, ind: nat) -> Seq<char>
    decreases b, 0int,
{
    spec_indent(ind) + spec_box_kind(b.box_type) + "\n"@ + spec_render_boxes(
        b.children,
        spec_deeper(ind),
        0,
    )
}

pub open spec fn spec_render_boxes(cs: Seq<LayoutBoxV>, ind: nat, i: int) -> Seq<char>
    decreases cs, cs.len() - i, 1int,
{
    if i < 0 || i >= cs.len() {
        Seq::empty()
    } else {
        spec_render_box(cs[i], ind) + spec_render_boxes(cs, ind, i + 1)
    }
}

impl<'a> LayoutBox<'a> {
    /// Render the tree from this box down, starting at the given indent
    /// level.
    pub fn pretty_print(&self, indent_level: usize) -> (r: String)
        ensures
            r@ == spec_render_box(self@, indent_level as nat),
        decreases *self,
    {
        let ghost bv = self@;
        let mut out = render_indent(indent_level);
        match &self.box_type {
            BoxType::BlockNode(_) => out.append("BlockNode"),
            BoxType::InlineNode(_) => out.append("InlineNode"),
            BoxType::AnonymousBlock => out.append("AnonymousBlock"),
        }
        out.append("\n");
        let ind2 = deeper(indent_level);
        let ghost cs = bv.children;
        let ghost base = out@;
        let n = self.children.len();
        let mut i: usize = 0;
        while i < n
            invariant
                n == self.children.len(),
                cs == self@.children,
                ind2 as nat == spec_deeper(indent_level as nat),
                i <= n,
                out@ + spec_render_boxes(cs, ind2 as nat, i as int) == base + spec_render_boxes(
                    cs,
                    ind2 as nat,
                    0,
                ),
            decreases n - i,
        {
            proof {
                assert(decreases_to!(*self => self.children));
                assert(decreases_to!(self.children => self.children@));
                assert(decreases_to!(self.children@ => self.children@[i as int]));
                assert(self.children@[i as int]@ == cs[i as int]);
            }
            let ghost pre = out@;
            let line = self.children[i].pretty_print(ind2);
            out.append(line.as_str());
            i = i + 1;
            proof {
                assert(out@ + spec_render_boxes(cs, ind2 as nat, i as int) =~= pre
                    + spec_render_boxes(cs, ind2 as nat, i - 1 as int));
            }
        }
        proof {
            assert(out@ =~= out@ + spec_render_boxes(cs, ind2 as nat, n as int));
            assert(out@ =~= spec_render_box(bv, indent_level as nat));
        }
        out
    }
}

} // verus!
