//! Generic one-pass rewriting walk over the compiled document tree.
//!
//! A transform implements `Walk`: `block` turns one block into a sequence of
//! output blocks and `inline` does the same for inline nodes, each default
//! behaviour being the identity. The walker rewrites depth-first in a single
//! pass: the nested inline content of a node is walked first, then the
//! transform is applied to the rebuilt node, and the transform's output is
//! never revisited — there is no fixed-point iteration, so each walk is one
//! linear pass over the source tree however many transform stages run.

use vstd::prelude::*;

use crate::doc::Block;
use crate::doc::BlockView;
use crate::doc::Doc;
use crate::doc::Inline;
use crate::doc::InlineView;
use crate::doc::block_view;
use crate::doc::blocks_view;
use crate::doc::inline_view;
use crate::doc::inlines_view;
use crate::doc::lemma_blocks_view_add;
use crate::doc::lemma_inlines_view_add;

verus! {

/// A tree transform: a pair of node rewrites, each specified exactly by a
/// spec-level counterpart.
pub trait Walk {
    /// What `block` returns, as a function of the block's value.
    spec fn block_spec(&self, b: BlockView) -> Seq<BlockView>;

    /// What `inline` returns, as a function of the inline node's value.
    spec fn inline_spec(&self, i: InlineView) -> Seq<InlineView>;

    /// Rewrite one block into zero, one or many output blocks.
    fn block(&self, b: Block) -> (out: Vec<Block>)
        ensures
            blocks_view(out@) == self.block_spec(block_view(b)),
    ;

    /// Rewrite one inline node into zero, one or many output nodes.
    fn inline(&self, i: Inline) -> (out: Vec<Inline>)
        ensures
            inlines_view(out@) == self.inline_spec(inline_view(i)),
    ;
}

/// The block rewrite of a transform, as a single spec-level function.
pub open spec fn block_fn<W: Walk>(w: &W) -> spec_fn(BlockView) -> Seq<BlockView> {
    |b: BlockView| w.block_spec(b)
}

/// The inline rewrite of a transform, as a single spec-level function.
pub open spec fn inline_fn<W: Walk>(w: &W) -> spec_fn(InlineView) -> Seq<InlineView> {
    |i: InlineView| w.inline_spec(i)
}

/// The walk of one inline node: its nested content is walked first, then
/// the transform is applied to the rebuilt node.
pub open spec fn spec_walk_inline(
    g: spec_fn(InlineView) -> Seq<InlineView>,
    i: InlineView,
) -> Seq<InlineView>
    decreases i,
{
    let rebuilt = match i {
        InlineView::Emph(children) => InlineView::Emph(spec_walk_inlines(g, children)),
        InlineView::Strong(children) => InlineView::Strong(spec_walk_inlines(g, children)),
        InlineView::Span(a, children) => InlineView::Span(a, spec_walk_inlines(g, children)),
        _ => i,
    };
    g(rebuilt)
}

/// The walk of a sequence of inline nodes: each node's outputs, concatenated
/// in order.
pub open spec fn spec_walk_inlines(
    g: spec_fn(InlineView) -> Seq<InlineView>,
    s: Seq<InlineView>,
) -> Seq<InlineView>
    decreases s,
{
    if s.len() == 0 {
        Seq::empty()
    } else {
        spec_walk_inline(g, s[0]) + spec_walk_inlines(g, s.drop_first())
    }
}

/// The walk of one block: the inline content of a plain or paragraph block
/// is walked first, then the block transform is applied to the rebuilt
/// block. Only plain and paragraph blocks carry walked inline children;
/// every other block kind keeps its content as it is.
pub open spec fn spec_walk_block(
    f: spec_fn(BlockView) -> Seq<BlockView>,
    g: spec_fn(InlineView) -> Seq<InlineView>,
    b: BlockView,
) -> Seq<BlockView> {
    let rebuilt = match b {
        BlockView::Plain(children) => BlockView::Plain(spec_walk_inlines(g, children)),
        BlockView::Para(children) => BlockView::Para(spec_walk_inlines(g, children)),
        _ => b,
    };
    f(rebuilt)
}

/// The walk of a whole document: each block's outputs, concatenated in
/// order.
pub open spec fn spec_walk_blocks(
    f: spec_fn(BlockView) -> Seq<BlockView>,
    g: spec_fn(InlineView) -> Seq<InlineView>,
    s: Seq<BlockView>,
) -> Seq<BlockView>
    decreases s,
{
    if s.len() == 0 {
        Seq::empty()
    } else {
        spec_walk_block(f, g, s[0]) + spec_walk_blocks(f, g, s.drop_first())
    }
}

/// Walk one inline node through a transform.
pub fn walk_inline<W: Walk>(walker: &W, inline: Inline) -> (out: Vec<Inline>)
    ensures
        inlines_view(out@) == spec_walk_inline(inline_fn(walker), inline_view(inline)),
    decreases inline,
{
    let rebuilt: Inline = match inline {
        Inline::Emph(children) => Inline::Emph(walk_inlines(walker, children)),
        Inline::Strong(children) => Inline::Strong(walk_inlines(walker, children)),
        Inline::Span(a, children) => Inline::Span(a, walk_inlines(walker, children)),
        other => other,
    };
    walker.inline(rebuilt)
}

/// Walk a list of inline nodes through a transform, concatenating the
/// outputs in order.
pub fn walk_inlines<W: Walk>(walker: &W, inlines: Vec<Inline>) -> (out: Vec<Inline>)
    ensures
        inlines_view(out@) == spec_walk_inlines(inline_fn(walker), inlines_view(inlines@)),
    decreases inlines@,
{
    let mut rest = inlines;
    let mut out: Vec<Inline> = Vec::new();
    if rest.len() == 0 {
        return out;
    }
    let ghost orig = rest@;
    let first = rest.remove(0);
    proof {
        assert(rest@ =~= orig.subrange(1, orig.len() as int));
        assert(decreases_to!(orig => orig.subrange(1, orig.len() as int)));
    }
    let mut head = walk_inline(walker, first);
    let ghost head_out = head@;
    let mut tail = walk_inlines(walker, rest);
    let ghost tail_out = tail@;
    out.append(&mut head);
    out.append(&mut tail);
    proof {
        assert(orig.drop_first() =~= orig.remove(0));
        assert(out@ =~= head_out + tail_out);
        lemma_inlines_view_add(head_out, tail_out);
        assert(inlines_view(out@) =~= spec_walk_inline(inline_fn(walker), inline_view(orig[0]))
            + spec_walk_inlines(inline_fn(walker), inlines_view(orig.drop_first())));
        assert(inlines_view(orig)[0] == inline_view(orig[0])) by {
            crate::doc::lemma_inlines_view_index(orig);
        }
        assert(inlines_view(orig).drop_first() =~= inlines_view(orig.drop_first()));
    }
    out
}

/// Walk one block through a transform.
pub fn walk_block<W: Walk>(walker: &W, block: Block) -> (out: Vec<Block>)
    ensures
        blocks_view(out@) == spec_walk_block(
            block_fn(walker),
            inline_fn(walker),
            block_view(block),
        ),
{
    let rebuilt: Block = match block {
        Block::Plain(children) => Block::Plain(walk_inlines(walker, children)),
        Block::Para(children) => Block::Para(walk_inlines(walker, children)),
        other => other,
    };
    walker.block(rebuilt)
}

/// Walk a whole document through a transform: a single linear pass that
/// produces a brand-new tree and never revisits a node it has produced.
pub fn walk_pandoc<W: Walk>(walker: &W, doc: Doc) -> (out: Doc)
    ensures
        blocks_view(out@) == spec_walk_blocks(
            block_fn(walker),
            inline_fn(walker),
            blocks_view(doc@),
        ),
{
    let mut rest = doc;
    let mut out: Vec<Block> = Vec::new();
    let ghost orig = rest@;
    proof {
        crate::doc::lemma_blocks_view_index(orig);
    }
    while rest.len() > 0
        invariant
            rest@.len() <= orig.len(),
            blocks_view(orig).len() == orig.len(),
            blocks_view(out@) == spec_walk_blocks(
                block_fn(walker),
                inline_fn(walker),
                blocks_view(orig).take(orig.len() - rest@.len()),
            ),
            rest@ == orig.subrange(orig.len() - rest@.len(), orig.len() as int),
        decreases rest@.len(),
    {
        let ghost k = orig.len() - rest@.len();
        let ghost out_before = out@;
        let first = rest.remove(0);
        proof {
            crate::doc::lemma_blocks_view_index(orig);
            assert(orig[k] == first);
        }
        let mut produced = walk_block(walker, first);
        let ghost produced_before = produced@;
        out.append(&mut produced);
        proof {
            assert(out@ =~= out_before + produced_before);
            lemma_blocks_view_add(out_before, produced_before);
            lemma_spec_walk_blocks_take_step(
                block_fn(walker),
                inline_fn(walker),
                blocks_view(orig),
                k,
            );
            assert(blocks_view(orig)[k] == block_view(orig[k]));
            assert(rest@ =~= orig.subrange(orig.len() - rest@.len(), orig.len() as int));
        }
    }
    proof {
        assert(blocks_view(orig).take(orig.len() as int) =~= blocks_view(orig));
    }
    out
}

/// One step of walking a block sequence: the walk of the first `k + 1`
/// blocks is the walk of the first `k` followed by the walk of block `k`.
proof fn lemma_spec_walk_blocks_take_step(
    f: spec_fn(BlockView) -> Seq<BlockView>,
    g: spec_fn(InlineView) -> Seq<InlineView>,
    s: Seq<BlockView>,
    k: int,
)
    requires
        0 <= k < s.len(),
    ensures
        spec_walk_blocks(f, g, s.take(k + 1)) == spec_walk_blocks(f, g, s.take(k)) + spec_walk_block(
            f,
            g,
            s[k],
        ),
    decreases k,
{
    if k == 0 {
        assert(s.take(1).drop_first() =~= Seq::<BlockView>::empty());
        assert(s.take(0) =~= Seq::<BlockView>::empty());
        assert(s.take(1)[0] == s[0]);
        assert(spec_walk_blocks(f, g, s.take(1)) =~= spec_walk_blocks(f, g, s.take(0))
            + spec_walk_block(f, g, s[0]));
    } else {
        lemma_spec_walk_blocks_take_step(f, g, s.drop_first(), k - 1);
        assert(s.take(k + 1)[0] == s[0]);
        assert(s.take(k)[0] == s[0]);
        assert(s.take(k + 1).drop_first() =~= s.drop_first().take(k));
        assert(s.take(k).drop_first() =~= s.drop_first().take(k - 1));
        assert(s.drop_first()[k - 1] == s[k]);
        assert(spec_walk_blocks(f, g, s.take(k + 1)) =~= spec_walk_blocks(f, g, s.take(k))
            + spec_walk_block(f, g, s[k]));
    }
}

} // verus!
