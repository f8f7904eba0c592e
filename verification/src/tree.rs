//! The syntax tree, which `rowan` stores, and the steps that build it.
//!
//! The library never looks inside a tree. It knows a tree by the steps that
//! built it: the same steps, in the same order, are the tree read from its
//! root down and from left to right.

use vstd::prelude::*;
use vstd::utf8::encode_utf8;

verus! {

/// One step in the building of a tree, or in reading one from the root down.
pub enum TreeStep {
    /// A node of this raw kind opens.
    Open(u16),
    /// A leaf of this raw kind with this text.
    Leaf(u16, Seq<char>),
    /// The innermost open node closes.
    Close,
}

/// How many nodes are open after `steps`.
pub open spec fn depth(steps: Seq<TreeStep>) -> int
    decreases steps.len(),
{
    if steps.len() == 0 {
        0
    } else {
        depth(steps.drop_last()) + match steps.last() {
            TreeStep::Open(_) => 1int,
            TreeStep::Leaf(_, _) => 0int,
            TreeStep::Close => -1int,
        }
    }
}

/// The number of bytes of text in the leaves of `steps`.
pub open spec fn text_len(steps: Seq<TreeStep>) -> nat
    decreases steps.len(),
{
    if steps.len() == 0 {
        0
    } else {
        text_len(steps.drop_last()) + match steps.last() {
            TreeStep::Leaf(_, text) => encode_utf8(text).len(),
            _ => 0nat,
        }
    }
}

/// The text of the leaves of `steps`, in order.
pub open spec fn leaf_text(steps: Seq<TreeStep>) -> Seq<char>
    decreases steps.len(),
{
    if steps.len() == 0 {
        Seq::empty()
    } else {
        leaf_text(steps.drop_last()) + match steps.last() {
            TreeStep::Leaf(_, text) => text,
            _ => Seq::<char>::empty(),
        }
    }
}

/// The leaves of `steps`, in order: of each its raw kind and its text.
pub open spec fn leaves(steps: Seq<TreeStep>) -> Seq<(u16, Seq<char>)>
    decreases steps.len(),
{
    if steps.len() == 0 {
        Seq::empty()
    } else {
        match steps.last() {
            TreeStep::Leaf(kind, text) => leaves(steps.drop_last()).push((kind, text)),
            _ => leaves(steps.drop_last()),
        }
    }
}

/// After each of `steps` a node is open.
pub open spec fn inner(steps: Seq<TreeStep>) -> bool {
    forall|n: int| 1 <= n <= steps.len() ==> depth(#[trigger] steps.subrange(0, n)) >= 1
}

/// `steps` build exactly one tree: a node opens first, stays open until the
/// last step, and the last step closes it.
pub open spec fn single_tree(steps: Seq<TreeStep>) -> bool {
    &&& steps.len() >= 2
    &&& depth(steps) == 0
    &&& forall|n: int| 1 <= n < steps.len() ==> depth(#[trigger] steps.subrange(0, n)) >= 1
}

/// What one more step adds.
pub proof fn lemma_step(steps: Seq<TreeStep>, step: TreeStep)
    ensures
        depth(steps.push(step)) == depth(steps) + (match step {
            TreeStep::Open(_) => 1int,
            TreeStep::Leaf(_, _) => 0int,
            TreeStep::Close => -1int,
        }),
        text_len(steps.push(step)) == text_len(steps) + (match step {
            TreeStep::Leaf(_, text) => encode_utf8(text).len(),
            _ => 0nat,
        }),
        leaf_text(steps.push(step)) == leaf_text(steps) + (match step {
            TreeStep::Leaf(_, text) => text,
            _ => Seq::<char>::empty(),
        }),
        leaves(steps.push(step)) == (match step {
            TreeStep::Leaf(kind, text) => leaves(steps).push((kind, text)),
            _ => leaves(steps),
        }),
        inner(steps) && depth(steps.push(step)) >= 1 ==> inner(steps.push(step)),
        inner(steps) && steps.len() >= 1 && depth(steps.push(step)) == 0 ==> single_tree(
            steps.push(step),
        ),
{
    let next = steps.push(step);
    assert(next.drop_last() =~= steps);
    if inner(steps) {
        assert forall|n: int| 1 <= n < next.len() implies depth(#[trigger] next.subrange(0, n))
            >= 1 by {
            assert(next.subrange(0, n) =~= steps.subrange(0, n));
        }
        assert(next.subrange(0, next.len() as int) =~= next);
    }
}

/// `rowan::GreenNodeBuilder`: a tree under construction. The library fills
/// it and never looks inside.
#[verifier::external_type_specification]
#[verifier::external_body]
pub struct ExGreenNodeBuilder<'cache>(rowan::GreenNodeBuilder<'cache>);

/// `rowan::GreenNode`: a finished tree. The library hands it on and never
/// looks inside.
#[verifier::external_type_specification]
#[verifier::external_body]
pub struct ExGreenNode(rowan::GreenNode);

/// The calls made on a builder so far, which are what it holds: its open
/// nodes and, under them, the leaves and the nodes that are finished.
pub uninterp spec fn builder_steps(builder: rowan::GreenNodeBuilder<'static>) -> Seq<TreeStep>;

/// A finished tree, read from its root down and from left to right.
pub uninterp spec fn tree_steps(tree: rowan::GreenNode) -> Seq<TreeStep>;

/// `rowan::GreenNodeBuilder::new`: a builder on which no call was made.
#[verifier::external_body]
pub(crate) fn builder_new() -> (builder: rowan::GreenNodeBuilder<'static>)
    ensures
        builder_steps(builder) == Seq::<TreeStep>::empty(),
{
    rowan::GreenNodeBuilder::new()
}

/// `rowan::GreenNodeBuilder::start_node`: opens a node of the raw kind
/// `kind` under the innermost open node.
#[verifier::external_body]
pub(crate) fn builder_start_node(builder: &mut rowan::GreenNodeBuilder<'static>, kind: u16)
    ensures
        builder_steps(*final(builder)) == builder_steps(*old(builder)).push(TreeStep::Open(kind)),
{
    builder.start_node(rowan::SyntaxKind(kind))
}

/// `rowan::GreenNodeBuilder::token`: adds a leaf of the raw kind `kind` and
/// the text `text` under the innermost open node. The tree library measures
/// text in 32 bits, so the text of all the leaves has to fit.
#[verifier::external_body]
pub(crate) fn builder_token(builder: &mut rowan::GreenNodeBuilder<'static>, kind: u16, text: &str)
    requires
        text_len(builder_steps(*old(builder))) + encode_utf8(text@).len() <= u32::MAX,
    ensures
        builder_steps(*final(builder)) == builder_steps(*old(builder)).push(
            TreeStep::Leaf(kind, text@),
        ),
{
    builder.token(rowan::SyntaxKind(kind), text)
}

/// `rowan::GreenNodeBuilder::finish_node`: closes the innermost open node,
/// of which there has to be one, around what was added since it opened.
#[verifier::external_body]
pub(crate) fn builder_finish_node(builder: &mut rowan::GreenNodeBuilder<'static>)
    requires
        depth(builder_steps(*old(builder))) >= 1,
    ensures
        builder_steps(*final(builder)) == builder_steps(*old(builder)).push(TreeStep::Close),
{
    builder.finish_node()
}

/// `rowan::GreenNodeBuilder::finish`: hands out the tree that was built,
/// which has to be one node with everything inside it.
#[verifier::external_body]
pub(crate) fn builder_finish(builder: rowan::GreenNodeBuilder<'static>) -> (tree: rowan::GreenNode)
    requires
        single_tree(builder_steps(builder)),
    ensures
        tree_steps(tree) == builder_steps(builder),
{
    builder.finish()
}

} // verus!
