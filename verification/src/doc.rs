//! The structured document tree that compilation derives from source text.
//!
//! The external markdown compiler turns raw text into a serialized tree of
//! block nodes (paragraphs, code blocks tagged with a language, headers, and
//! so on) with inline nodes nested within them. The embedding program parses
//! that serialized form and hands the tree to this module as plain values;
//! block kinds the pipeline never rewrites are carried through `Opaque`
//! nodes unchanged.

use vstd::prelude::*;

use crate::cache::ContentCache;
use crate::walk_pandoc::Walk;
use crate::walk_pandoc::block_fn;
use crate::walk_pandoc::inline_fn;
use crate::walk_pandoc::spec_walk_blocks;
use crate::walk_pandoc::walk_pandoc;

verus! {

/// Attributes attached to a block or inline node: an identifier, a list of
/// classes (the first class of a code block names its language), and a list
/// of key-value pairs.
#[derive(Debug)]
pub struct Attr {
    pub identifier: String,
    pub classes: Vec<String>,
    pub attributes: Vec<(String, String)>,
}

/// Link or image target: a URL and a title.
#[derive(Debug)]
pub struct Target {
    pub url: String,
    pub title: String,
}

/// An inline node nested within a block.
#[derive(Debug)]
pub enum Inline {
    /// Plain text.
    Str(String),
    /// An inter-word space.
    Space,
    /// Emphasized content.
    Emph(Vec<Inline>),
    /// Strongly emphasized content.
    Strong(Vec<Inline>),
    /// A generic span with attributes.
    Span(Attr, Vec<Inline>),
    /// Inline code.
    Code(Attr, String),
    /// An image reference: attributes, alternative content, and target.
    Image(Attr, Vec<Inline>, Target),
    /// An inline kind the pipeline does not rewrite, kept in its serialized
    /// form and carried through unchanged.
    Opaque(String),
}

/// A block node of the compiled document.
#[derive(Debug)]
pub enum Block {
    /// Plain text, not a paragraph.
    Plain(Vec<Inline>),
    /// A paragraph.
    Para(Vec<Inline>),
    /// A literal code block with attributes; the first class of the
    /// attributes names the language.
    CodeBlock(Attr, String),
    /// A header: level, attributes, and inline content.
    Header(u32, Attr, Vec<Inline>),
    /// A horizontal rule.
    HorizontalRule,
    /// A block kind the pipeline does not rewrite, kept in its serialized
    /// form and carried through unchanged.
    Opaque(String),
}

/// A compiled document: the ordered blocks of one file.
pub type Doc = Vec<Block>;

/// The mathematical value of an `Attr`.
pub struct AttrView {
    pub identifier: Seq<char>,
    pub classes: Seq<Seq<char>>,
    pub attributes: Seq<(Seq<char>, Seq<char>)>,
}

/// The mathematical value of a `Target`.
pub struct TargetView {
    pub url: Seq<char>,
    pub title: Seq<char>,
}

/// The mathematical value of an `Inline`.
pub enum InlineView {
    Str(Seq<char>),
    Space,
    Emph(Seq<InlineView>),
    Strong(Seq<InlineView>),
    Span(AttrView, Seq<InlineView>),
    Code(AttrView, Seq<char>),
    Image(AttrView, Seq<InlineView>, TargetView),
    Opaque(Seq<char>),
}

/// The mathematical value of a `Block`.
pub enum BlockView {
    Plain(Seq<InlineView>),
    Para(Seq<InlineView>),
    CodeBlock(AttrView, Seq<char>),
    Header(u32, AttrView, Seq<InlineView>),
    HorizontalRule,
    Opaque(Seq<char>),
}

/// The value of an `Attr`.
pub open spec fn attr_view(a: Attr) -> AttrView {
    AttrView {
        identifier: a.identifier@,
        classes: a.classes@.map_values(|c: String| c@),
        attributes: a.attributes@.map_values(|p: (String, String)| (p.0@, p.1@)),
    }
}

/// The value of a `Target`.
pub open spec fn target_view(t: Target) -> TargetView {
    TargetView { url: t.url@, title: t.title@ }
}

/// The value of an `Inline`.
pub open spec fn inline_view(i: Inline) -> InlineView
    decreases i,
{
    match i {
        Inline::Str(s) => InlineView::Str(s@),
        Inline::Space => InlineView::Space,
        Inline::Emph(children) => InlineView::Emph(inlines_view(children@)),
        Inline::Strong(children) => InlineView::Strong(inlines_view(children@)),
        Inline::Span(a, children) => InlineView::Span(attr_view(a), inlines_view(children@)),
        Inline::Code(a, s) => InlineView::Code(attr_view(a), s@),
        Inline::Image(a, alt, t) => InlineView::Image(
            attr_view(a),
            inlines_view(alt@),
            target_view(t),
        ),
        Inline::Opaque(s) => InlineView::Opaque(s@),
    }
}

/// The values of a sequence of `Inline`s, element by element.
pub open spec fn inlines_view(s: Seq<Inline>) -> Seq<InlineView>
    decreases s,
{
    if s.len() == 0 {
        Seq::empty()
    } else {
        seq![inline_view(s[0])] + inlines_view(s.drop_first())
    }
}

/// The value of a `Block`.
pub open spec fn block_view(b: Block) -> BlockView {
    match b {
        Block::Plain(children) => BlockView::Plain(inlines_view(children@)),
        Block::Para(children) => BlockView::Para(inlines_view(children@)),
        Block::CodeBlock(a, s) => BlockView::CodeBlock(attr_view(a), s@),
        Block::Header(level, a, children) => BlockView::Header(
            level,
            attr_view(a),
            inlines_view(children@),
        ),
        Block::HorizontalRule => BlockView::HorizontalRule,
        Block::Opaque(s) => BlockView::Opaque(s@),
    }
}

/// The values of a sequence of `Block`s, element by element.
pub open spec fn blocks_view(s: Seq<Block>) -> Seq<BlockView>
    decreases s,
{
    if s.len() == 0 {
        Seq::empty()
    } else {
        seq![block_view(s[0])] + blocks_view(s.drop_first())
    }
}

/// `inlines_view` reads each element in place.
pub proof fn lemma_inlines_view_index(s: Seq<Inline>)
    ensures
        inlines_view(s).len() == s.len(),
        forall|k: int| 0 <= k < s.len() ==> inlines_view(s)[k] == inline_view(#[trigger] s[k]),
    decreases s,
{
    if s.len() > 0 {
        lemma_inlines_view_index(s.drop_first());
        assert forall|k: int| 0 <= k < s.len() implies inlines_view(s)[k] == inline_view(
            #[trigger] s[k],
        ) by {
            if k > 0 {
                assert(s.drop_first()[k - 1] == s[k]);
                assert(inlines_view(s)[k] == inlines_view(s.drop_first())[k - 1]);
            }
        }
    }
}

/// `blocks_view` reads each element in place.
pub proof fn lemma_blocks_view_index(s: Seq<Block>)
    ensures
        blocks_view(s).len() == s.len(),
        forall|k: int| 0 <= k < s.len() ==> blocks_view(s)[k] == block_view(#[trigger] s[k]),
    decreases s,
{
    if s.len() > 0 {
        lemma_blocks_view_index(s.drop_first());
        assert forall|k: int| 0 <= k < s.len() implies blocks_view(s)[k] == block_view(
            #[trigger] s[k],
        ) by {
            if k > 0 {
                assert(s.drop_first()[k - 1] == s[k]);
                assert(blocks_view(s)[k] == blocks_view(s.drop_first())[k - 1]);
            }
        }
    }
}

/// Appending sequences of blocks appends their views.
pub proof fn lemma_blocks_view_add(s: Seq<Block>, t: Seq<Block>)
    ensures
        blocks_view(s + t) == blocks_view(s) + blocks_view(t),
    decreases s,
{
    if s.len() == 0 {
        assert(s + t =~= t);
        assert(blocks_view(s) + blocks_view(t) =~= blocks_view(t));
    } else {
        assert((s + t).drop_first() =~= s.drop_first() + t);
        assert((s + t)[0] == s[0]);
        lemma_blocks_view_add(s.drop_first(), t);
        assert(blocks_view(s + t) =~= blocks_view(s) + blocks_view(t));
    }
}

/// Appending sequences of inlines appends their views.
pub proof fn lemma_inlines_view_add(s: Seq<Inline>, t: Seq<Inline>)
    ensures
        inlines_view(s + t) == inlines_view(s) + inlines_view(t),
    decreases s,
{
    if s.len() == 0 {
        assert(s + t =~= t);
        assert(inlines_view(s) + inlines_view(t) =~= inlines_view(t));
    } else {
        assert((s + t).drop_first() =~= s.drop_first() + t);
        assert((s + t)[0] == s[0]);
        lemma_inlines_view_add(s.drop_first(), t);
        assert(inlines_view(s + t) =~= inlines_view(s) + inlines_view(t));
    }
}

impl Attr {
    /// The empty attribute set.
    pub fn null() -> (r: Attr)
        ensures
            attr_view(r) == null_attr_view(),
    {
        let r = Attr { identifier: String::new(), classes: Vec::new(), attributes: Vec::new() };
        proof {
            assert(attr_view(r).classes =~= null_attr_view().classes);
            assert(attr_view(r).attributes =~= null_attr_view().attributes);
            assert(attr_view(r) =~= null_attr_view());
        }
        r
    }

    /// The language marker of a code block carrying these attributes: its
    /// first class, if any.
    pub open spec fn language_spec(self) -> Option<Seq<char>> {
        if self.classes@.len() == 0 {
            None
        } else {
            Some(self.classes@[0]@)
        }
    }

    /// Whether the first class of these attributes is `lang`.
    pub fn has_language(&self, lang: &str) -> (r: bool)
        ensures
            r == (self.language_spec() == Some(lang@)),
    {
        if self.classes.len() == 0 {
            false
        } else {
            let l: String = lang.to_owned();
            self.classes[0] == l
        }
    }
}


/// Small-sequence views, written out once so the transforms can unfold them.
pub proof fn lemma_blocks_view_one(a: Block)
    ensures
        blocks_view(seq![a]) == seq![block_view(a)],
{
    assert(seq![a].drop_first() =~= Seq::<Block>::empty());
    assert(blocks_view(Seq::<Block>::empty()) =~= Seq::<BlockView>::empty());
    assert(seq![a][0] == a);
    assert(blocks_view(seq![a]) =~= seq![block_view(a)]);
}

/// The view of a two-block sequence, element by element.
pub proof fn lemma_blocks_view_two(a: Block, b: Block)
    ensures
        blocks_view(seq![a, b]) == seq![block_view(a), block_view(b)],
{
    assert(seq![a, b].drop_first() =~= seq![b]);
    lemma_blocks_view_one(b);
    assert(blocks_view(seq![a, b]) =~= seq![block_view(a), block_view(b)]);
}

/// The view of a one-element inline sequence.
pub proof fn lemma_inlines_view_one(a: Inline)
    ensures
        inlines_view(seq![a]) == seq![inline_view(a)],
{
    assert(seq![a].drop_first() =~= Seq::<Inline>::empty());
    assert(inlines_view(Seq::<Inline>::empty()) =~= Seq::<InlineView>::empty());
    assert(seq![a][0] == a);
    assert(inlines_view(seq![a]) =~= seq![inline_view(a)]);
}

/// The language marker of a code block's attributes: its first class.
pub open spec fn lang_of(a: AttrView) -> Option<Seq<char>> {
    if a.classes.len() == 0 {
        None
    } else {
        Some(a.classes[0])
    }
}

/// The empty attribute set: no identifier, no classes, no key-value pairs.
pub open spec fn null_attr_view() -> AttrView {
    AttrView { identifier: Seq::empty(), classes: Seq::empty(), attributes: Seq::empty() }
}

/// The attributes of an appended execution-output block: no identifier, one
/// empty class, no key-value pairs.
pub open spec fn output_attr_view() -> AttrView {
    AttrView {
        identifier: Seq::empty(),
        classes: seq![Seq::<char>::empty()],
        attributes: Seq::empty(),
    }
}

/// Build the attributes of an appended execution-output block.
pub fn output_attr() -> (r: Attr)
    ensures
        attr_view(r) == output_attr_view(),
{
    let mut classes: Vec<String> = Vec::new();
    classes.push(String::new());
    let r = Attr { identifier: String::new(), classes, attributes: Vec::new() };
    proof {
        assert(attr_view(r).classes =~= output_attr_view().classes);
        assert(attr_view(r).attributes =~= output_attr_view().attributes);
        assert(attr_view(r) =~= output_attr_view());
    }
    r
}

/// What the executable-code transform makes of one block, given the cached
/// interpreter outputs: a code block whose language marker is the
/// interpreter's and whose text has a cached output gets a second block
/// holding that output appended immediately after it; every other block
/// passes through unchanged.
pub open spec fn run_python_view(
    b: BlockView,
    cache: Map<Seq<char>, Seq<char>>,
) -> Seq<BlockView> {
    match b {
        BlockView::CodeBlock(a, src) => {
            if lang_of(a) == Some("python"@) && cache.contains_key(src) {
                seq![
                    BlockView::CodeBlock(a, src),
                    BlockView::CodeBlock(output_attr_view(), cache[src]),
                ]
            } else {
                seq![b]
            }
        },
        _ => seq![b],
    }
}

/// What the diagram transform makes of one block, given the cached paths of
/// rendered images: a code block whose language marker is the renderer's
/// and whose text has a cached image path is replaced by a paragraph
/// holding an image reference to that path; every other block passes
/// through unchanged.
pub open spec fn graphviz_view(
    b: BlockView,
    cache: Map<Seq<char>, Seq<char>>,
) -> Seq<BlockView> {
    match b {
        BlockView::CodeBlock(a, src) => {
            if lang_of(a) == Some("graphviz"@) && cache.contains_key(src) {
                seq![
                    BlockView::Para(
                        seq![
                            InlineView::Image(
                                null_attr_view(),
                                Seq::empty(),
                                TargetView { url: cache[src], title: cache[src] },
                            ),
                        ],
                    ),
                ]
            } else {
                seq![b]
            }
        },
        _ => seq![b],
    }
}

/// The identity inline rewrite, shared by both built-in transforms.
pub open spec fn identity_inline_fn() -> spec_fn(InlineView) -> Seq<InlineView> {
    |i: InlineView| seq![i]
}

/// The executable-code rewrite over a given cache, as a single function.
pub open spec fn run_python_fn(
    cache: Map<Seq<char>, Seq<char>>,
) -> spec_fn(BlockView) -> Seq<BlockView> {
    |b: BlockView| run_python_view(b, cache)
}

/// The diagram rewrite over a given cache, as a single function.
pub open spec fn graphviz_fn(
    cache: Map<Seq<char>, Seq<char>>,
) -> spec_fn(BlockView) -> Seq<BlockView> {
    |b: BlockView| graphviz_view(b, cache)
}

/// The executable-code transform: appends the cached interpreter output
/// after each code block tagged with the interpreter's language marker.
pub struct RunPython<'a> {
    /// The process-wide cache of captured interpreter output, keyed by the
    /// code block's text.
    pub cache: &'a ContentCache,
}

/// The diagram transform: replaces each code block tagged with the diagram
/// language marker by an image reference to the cached rendered file.
pub struct Graphviz<'a> {
    /// The process-wide cache of rendered image paths, keyed by the diagram
    /// description's text.
    pub cache: &'a ContentCache,
}

impl<'a> Walk for RunPython<'a> {
    open spec fn block_spec(&self, b: BlockView) -> Seq<BlockView> {
        run_python_view(b, self.cache.contents())
    }

    open spec fn inline_spec(&self, i: InlineView) -> Seq<InlineView> {
        seq![i]
    }

    fn block(&self, b: Block) -> (out: Vec<Block>) {
        let ghost bv = block_view(b);
        match b {
            Block::CodeBlock(attr, src) => {
                proof {
                    assert(attr_view(attr).classes.len() == attr.classes@.len());
                    if attr.classes@.len() > 0 {
                        assert(attr_view(attr).classes[0] == attr.classes@[0]@);
                    }
                }
                if attr.has_language("python") {
                    let cached: Option<String> = match self.cache.get(&src) {
                        Some(t) => Some(t.clone()),
                        None => None,
                    };
                    match cached {
                        Some(text) => {
                            let mut out: Vec<Block> = Vec::new();
                            out.push(Block::CodeBlock(attr, src));
                            out.push(Block::CodeBlock(output_attr(), text));
                            proof {
                                assert(out@ =~= seq![out@[0], out@[1]]);
                                lemma_blocks_view_two(out@[0], out@[1]);
                                assert(blocks_view(out@) =~= self.block_spec(bv));
                            }
                            out
                        },
                        None => {
                            let mut out: Vec<Block> = Vec::new();
                            out.push(Block::CodeBlock(attr, src));
                            proof {
                                assert(out@ =~= seq![out@[0]]);
                                lemma_blocks_view_one(out@[0]);
                                assert(blocks_view(out@) =~= self.block_spec(bv));
                            }
                            out
                        },
                    }
                } else {
                    let mut out: Vec<Block> = Vec::new();
                    out.push(Block::CodeBlock(attr, src));
                    proof {
                        assert(out@ =~= seq![out@[0]]);
                        lemma_blocks_view_one(out@[0]);
                        assert(blocks_view(out@) =~= self.block_spec(bv));
                    }
                    out
                }
            },
            other => {
                let mut out: Vec<Block> = Vec::new();
                out.push(other);
                proof {
                    assert(out@ =~= seq![out@[0]]);
                    lemma_blocks_view_one(out@[0]);
                    assert(blocks_view(out@) =~= self.block_spec(bv));
                }
                out
            },
        }
    }

    fn inline(&self, i: Inline) -> (out: Vec<Inline>) {
        let ghost iv = inline_view(i);
        let mut out: Vec<Inline> = Vec::new();
        out.push(i);
        proof {
            assert(out@ =~= seq![out@[0]]);
            lemma_inlines_view_one(out@[0]);
            assert(inlines_view(out@) =~= seq![iv]);
        }
        out
    }
}

impl<'a> Walk for Graphviz<'a> {
    open spec fn block_spec(&self, b: BlockView) -> Seq<BlockView> {
        graphviz_view(b, self.cache.contents())
    }

    open spec fn inline_spec(&self, i: InlineView) -> Seq<InlineView> {
        seq![i]
    }

    fn block(&self, b: Block) -> (out: Vec<Block>) {
        let ghost bv = block_view(b);
        match b {
            Block::CodeBlock(attr, src) => {
                proof {
                    assert(attr_view(attr).classes.len() == attr.classes@.len());
                    if attr.classes@.len() > 0 {
                        assert(attr_view(attr).classes[0] == attr.classes@[0]@);
                    }
                }
                if attr.has_language("graphviz") {
                    let cached: Option<String> = match self.cache.get(&src) {
                        Some(t) => Some(t.clone()),
                        None => None,
                    };
                    match cached {
                        Some(name) => {
                            let title = name.clone();
                            let image = Inline::Image(
                                Attr::null(),
                                Vec::new(),
                                Target { url: name, title },
                            );
                            let ghost image_v = inline_view(image);
                            let mut para: Vec<Inline> = Vec::new();
                            para.push(image);
                            let mut out: Vec<Block> = Vec::new();
                            out.push(Block::Para(para));
                            proof {
                                assert(out@ =~= seq![out@[0]]);
                                lemma_blocks_view_one(out@[0]);
                                lemma_inlines_view_one(out@[0]->Para_0@[0]);
                                assert(out@[0]->Para_0@ =~= seq![out@[0]->Para_0@[0]]);
                                assert(inlines_view(Seq::<Inline>::empty())
                                    =~= Seq::<InlineView>::empty());
                                assert(blocks_view(out@) =~= self.block_spec(bv));
                            }
                            out
                        },
                        None => {
                            let mut out: Vec<Block> = Vec::new();
                            out.push(Block::CodeBlock(attr, src));
                            proof {
                                assert(out@ =~= seq![out@[0]]);
                                lemma_blocks_view_one(out@[0]);
                                assert(blocks_view(out@) =~= self.block_spec(bv));
                            }
                            out
                        },
                    }
                } else {
                    let mut out: Vec<Block> = Vec::new();
                    out.push(Block::CodeBlock(attr, src));
                    proof {
                        assert(out@ =~= seq![out@[0]]);
                        lemma_blocks_view_one(out@[0]);
                        assert(blocks_view(out@) =~= self.block_spec(bv));
                    }
                    out
                }
            },
            other => {
                let mut out: Vec<Block> = Vec::new();
                out.push(other);
                proof {
                    assert(out@ =~= seq![out@[0]]);
                    lemma_blocks_view_one(out@[0]);
                    assert(blocks_view(out@) =~= self.block_spec(bv));
                }
                out
            },
        }
    }

    fn inline(&self, i: Inline) -> (out: Vec<Inline>) {
        let ghost iv = inline_view(i);
        let mut out: Vec<Inline> = Vec::new();
        out.push(i);
        proof {
            assert(out@ =~= seq![out@[0]]);
            lemma_inlines_view_one(out@[0]);
            assert(inlines_view(out@) =~= seq![iv]);
        }
        out
    }
}

/// What compilation makes of a parsed document, given both caches: the
/// executable-code transform runs first, then the diagram transform, each
/// as one linear walk.
pub open spec fn spec_compile(
    doc: Seq<BlockView>,
    code: Map<Seq<char>, Seq<char>>,
    diagrams: Map<Seq<char>, Seq<char>>,
) -> Seq<BlockView> {
    spec_walk_blocks(
        graphviz_fn(diagrams),
        identity_inline_fn(),
        spec_walk_blocks(run_python_fn(code), identity_inline_fn(), doc),
    )
}

/// Run the ordered list of built-in transforms over a parsed document.
/// Every code block whose language marker matches a transform and whose
/// text has a cached result is rewritten; blocks whose results are not yet
/// cached pass through unchanged, so the caches should first be filled for
/// every text that `pending_blocks` reports.
pub fn compile(doc: Doc, code_cache: &ContentCache, diagram_cache: &ContentCache) -> (out: Doc)
    ensures
        blocks_view(out@) == spec_compile(
            blocks_view(doc@),
            code_cache.contents(),
            diagram_cache.contents(),
        ),
{
    let python = RunPython { cache: code_cache };
    let ghost dv = blocks_view(doc@);
    let mid = walk_pandoc(&python, doc);
    let graphviz = Graphviz { cache: diagram_cache };
    let out = walk_pandoc(&graphviz, mid);
    proof {
        assert(block_fn(&python) =~= run_python_fn(code_cache.contents()));
        assert(inline_fn(&python) =~= identity_inline_fn());
        assert(block_fn(&graphviz) =~= graphviz_fn(diagram_cache.contents()));
        assert(inline_fn(&graphviz) =~= identity_inline_fn());
    }
    out
}


/// The values of a sequence of strings, element by element.
pub open spec fn strings_view(s: Seq<String>) -> Seq<Seq<char>> {
    s.map_values(|x: String| x@)
}

/// The text of a code block tagged with `lang`, if this block is one.
pub open spec fn tagged_code(b: BlockView, lang: Seq<char>) -> Option<Seq<char>> {
    match b {
        BlockView::CodeBlock(a, src) => {
            if lang_of(a) == Some(lang) {
                Some(src)
            } else {
                None
            }
        },
        _ => None,
    }
}

/// The keys known after recording each collected text in order, on top of a
/// base set.
pub open spec fn seen_after(base: Set<Seq<char>>, collected: Seq<Seq<char>>) -> Set<Seq<char>>
    decreases collected,
{
    if collected.len() == 0 {
        base
    } else {
        seen_after(base, collected.drop_last()).insert(collected.last())
    }
}

/// The external work a document still needs for one transform: the texts of
/// code blocks tagged with `lang` whose results are not yet known, in first
/// occurrence order, each text listed once however often it occurs.
pub open spec fn spec_pending(
    s: Seq<BlockView>,
    lang: Seq<char>,
    seen: Set<Seq<char>>,
) -> Seq<Seq<char>>
    decreases s,
{
    if s.len() == 0 {
        Seq::empty()
    } else {
        match tagged_code(s[0], lang) {
            Some(src) => {
                if !seen.contains(src) {
                    seq![src] + spec_pending(s.drop_first(), lang, seen.insert(src))
                } else {
                    spec_pending(s.drop_first(), lang, seen)
                }
            },
            None => spec_pending(s.drop_first(), lang, seen),
        }
    }
}

/// What `seen_after` knows: the base keys and the collected texts, nothing
/// else.
pub proof fn lemma_seen_after_contains(
    base: Set<Seq<char>>,
    collected: Seq<Seq<char>>,
    x: Seq<char>,
)
    ensures
        seen_after(base, collected).contains(x) == (base.contains(x) || collected.contains(x)),
    decreases collected,
{
    if collected.len() > 0 {
        lemma_seen_after_contains(base, collected.drop_last(), x);
        if collected.contains(x) {
            let k = choose|k: int| 0 <= k < collected.len() && collected[k] == x;
            if k < collected.len() - 1 {
                assert(collected.drop_last()[k] == x);
            }
        }
        if collected.drop_last().contains(x) {
            assert(collected.contains(x));
        }
    }
}

/// Whether some element of `v` holds exactly the text `s`.
fn vec_contains_string(v: &Vec<String>, s: &String) -> (r: bool)
    ensures
        r == strings_view(v@).contains(s@),
{
    let mut i: usize = 0;
    while i < v.len()
        invariant
            i <= v@.len(),
            forall|k: int| 0 <= k < i ==> strings_view(v@)[k] != s@,
        decreases v@.len() - i,
    {
        if v[i] == *s {
            proof {
                assert(strings_view(v@)[i as int] == s@);
            }
            return true;
        }
        i = i + 1;
    }
    proof {
        assert forall|k: int| 0 <= k < strings_view(v@).len() implies strings_view(v@)[k] != s@
        by {
        }
    }
    false
}

/// List the texts of code blocks tagged with `lang` whose results the cache
/// does not yet hold: the external work one compile still needs. Each text
/// appears once, in first occurrence order; a text whose result is cached is
/// never listed, however often it occurs.
pub fn pending_blocks(doc: &Doc, lang: &str, cache: &ContentCache) -> (out: Vec<String>)
    ensures
        strings_view(out@) == spec_pending(
            blocks_view(doc@),
            lang@,
            cache.contents().dom(),
        ),
{
    let ghost full = blocks_view(doc@);
    let ghost dom0 = cache.contents().dom();
    let mut out: Vec<String> = Vec::new();
    let mut i: usize = 0;
    proof {
        lemma_blocks_view_index(doc@);
        assert(full.skip(0) =~= full);
        assert(strings_view(out@) =~= Seq::<Seq<char>>::empty());
        assert(strings_view(out@) + spec_pending(full, lang@, dom0) =~= spec_pending(
            full,
            lang@,
            dom0,
        ));
    }
    while i < doc.len()
        invariant
            i <= doc@.len(),
            full == blocks_view(doc@),
            full.len() == doc@.len(),
            dom0 == cache.contents().dom(),
            forall|k: int| 0 <= k < doc@.len() ==> full[k] == block_view(#[trigger] doc@[k]),
            spec_pending(full, lang@, dom0) == strings_view(out@) + spec_pending(
                full.skip(i as int),
                lang@,
                seen_after(dom0, strings_view(out@)),
            ),
        decreases doc@.len() - i,
    {
        let ghost seen_now = seen_after(dom0, strings_view(out@));
        let ghost rest = full.skip(i as int);
        proof {
            assert(rest[0] == full[i as int]);
            assert(rest.drop_first() =~= full.skip(i as int + 1));
        }
        match &doc[i] {
            Block::CodeBlock(attr, src) => {
                proof {
                    assert(attr_view(*attr).classes.len() == attr.classes@.len());
                    if attr.classes@.len() > 0 {
                        assert(attr_view(*attr).classes[0] == attr.classes@[0]@);
                    }
                }
                let is_lang = attr.has_language(lang);
                let in_cache = cache.contains(src);
                let collected = vec_contains_string(&out, src);
                proof {
                    lemma_seen_after_contains(dom0, strings_view(out@), src@);
                }
                if is_lang && !in_cache && !collected {
                    let ghost out_before = out@;
                    out.push(src.clone());
                    proof {
                        assert(strings_view(out@) =~= strings_view(out_before).push(src@));
                        assert(strings_view(out@).drop_last() =~= strings_view(out_before));
                        assert(seen_after(dom0, strings_view(out@)) =~= seen_now.insert(src@));
                        assert(strings_view(out_before) + (seq![src@] + spec_pending(
                            rest.drop_first(),
                            lang@,
                            seen_now.insert(src@),
                        )) =~= strings_view(out@) + spec_pending(
                            rest.drop_first(),
                            lang@,
                            seen_now.insert(src@),
                        ));
                    }
                }
            },
            _ => {
            },
        }
        i = i + 1;
    }
    proof {
        assert(full.skip(doc@.len() as int) =~= Seq::<BlockView>::empty());
        assert(strings_view(out@) + Seq::<Seq<char>>::empty() =~= strings_view(out@));
    }
    out
}

/// A text whose result is already known is never listed as pending: cached
/// work is reused, not redone.
pub proof fn lemma_pending_excludes_seen(
    s: Seq<BlockView>,
    lang: Seq<char>,
    seen: Set<Seq<char>>,
    x: Seq<char>,
)
    requires
        seen.contains(x),
    ensures
        !spec_pending(s, lang, seen).contains(x),
    decreases s,
{
    if s.len() > 0 {
        match tagged_code(s[0], lang) {
            Some(src) => {
                if !seen.contains(src) {
                    lemma_pending_excludes_seen(s.drop_first(), lang, seen.insert(src), x);
                    let p = spec_pending(s, lang, seen);
                    let q = spec_pending(s.drop_first(), lang, seen.insert(src));
                    assert forall|k: int| 0 <= k < p.len() implies p[k] != x by {
                        if k > 0 {
                            assert(p[k] == q[k - 1]);
                        }
                    }
                } else {
                    lemma_pending_excludes_seen(s.drop_first(), lang, seen, x);
                }
            },
            None => {
                lemma_pending_excludes_seen(s.drop_first(), lang, seen, x);
            },
        }
    }
}

/// A list of texts with no repetition.
pub open spec fn distinct_texts(p: Seq<Seq<char>>) -> bool {
    forall|i: int, j: int| 0 <= i < j < p.len() ==> p[i] != p[j]
}

/// The pending list never repeats a text: identical code text is external
/// work once, however often it occurs in the document.
pub proof fn lemma_pending_no_duplicates(s: Seq<BlockView>, lang: Seq<char>, seen: Set<Seq<char>>)
    ensures
        distinct_texts(spec_pending(s, lang, seen)),
    decreases s,
{
    if s.len() > 0 {
        let p = spec_pending(s, lang, seen);
        match tagged_code(s[0], lang) {
            Some(src) => {
                if !seen.contains(src) {
                    let q = spec_pending(s.drop_first(), lang, seen.insert(src));
                    lemma_pending_no_duplicates(s.drop_first(), lang, seen.insert(src));
                    lemma_pending_excludes_seen(s.drop_first(), lang, seen.insert(src), src);
                    assert(p =~= seq![src] + q);
                    assert forall|i: int, j: int| 0 <= i < j < p.len() implies p[i] != p[j] by {
                        if i == 0 {
                            assert(p[0] == src);
                            assert(p[j] == q[j - 1]);
                            assert(q.contains(q[j - 1]));
                        } else {
                            assert(p[i] == q[i - 1]);
                            assert(p[j] == q[j - 1]);
                            assert(q[i - 1] != q[j - 1]);
                        }
                    }
                } else {
                    lemma_pending_no_duplicates(s.drop_first(), lang, seen);
                }
            },
            None => {
                lemma_pending_no_duplicates(s.drop_first(), lang, seen);
            },
        }
    }
}

/// Every tagged text is either already known or listed as pending: filling
/// the cache for the pending list leaves no tagged block behind.
pub proof fn lemma_pending_covers(s: Seq<BlockView>, lang: Seq<char>, seen: Set<Seq<char>>)
    ensures
        forall|k: int|
            0 <= k < s.len() && tagged_code(s[k], lang) is Some ==> seen.contains(
                tagged_code(#[trigger] s[k], lang)->0,
            ) || spec_pending(s, lang, seen).contains(tagged_code(s[k], lang)->0),
    decreases s,
{
    if s.len() > 0 {
        let p = spec_pending(s, lang, seen);
        match tagged_code(s[0], lang) {
            Some(src) => {
                if !seen.contains(src) {
                    let q = spec_pending(s.drop_first(), lang, seen.insert(src));
                    lemma_pending_covers(s.drop_first(), lang, seen.insert(src));
                    assert forall|k: int|
                        0 <= k < s.len() && tagged_code(s[k], lang) is Some implies seen.contains(
                        tagged_code(#[trigger] s[k], lang)->0,
                    ) || p.contains(tagged_code(s[k], lang)->0) by {
                        let x = tagged_code(s[k], lang)->0;
                        if k == 0 {
                            assert(p[0] == src);
                            assert(p.contains(src));
                        } else {
                            assert(s.drop_first()[k - 1] == s[k]);
                            if seen.insert(src).contains(x) {
                                if x == src {
                                    assert(p[0] == src);
                                    assert(p.contains(src));
                                }
                            } else {
                                if q.contains(x) {
                                    let m = choose|m: int| 0 <= m < q.len() && q[m] == x;
                                    assert(p[m + 1] == q[m]);
                                    assert(p.contains(x));
                                }
                            }
                        }
                    }
                } else {
                    lemma_pending_covers(s.drop_first(), lang, seen);
                    assert forall|k: int|
                        0 <= k < s.len() && tagged_code(s[k], lang) is Some implies seen.contains(
                        tagged_code(#[trigger] s[k], lang)->0,
                    ) || p.contains(tagged_code(s[k], lang)->0) by {
                        if k > 0 {
                            assert(s.drop_first()[k - 1] == s[k]);
                            let x = tagged_code(s[k], lang)->0;
                            let q = spec_pending(s.drop_first(), lang, seen);
                            if q.contains(x) {
                                let m = choose|m: int| 0 <= m < q.len() && q[m] == x;
                                assert(p[m] == q[m]);
                                assert(p.contains(x));
                            }
                        }
                    }
                }
            },
            None => {
                lemma_pending_covers(s.drop_first(), lang, seen);
                assert forall|k: int|
                    0 <= k < s.len() && tagged_code(s[k], lang) is Some implies seen.contains(
                    tagged_code(#[trigger] s[k], lang)->0,
                ) || p.contains(tagged_code(s[k], lang)->0) by {
                    if k > 0 {
                        assert(s.drop_first()[k - 1] == s[k]);
                        let x = tagged_code(s[k], lang)->0;
                        let q = spec_pending(s.drop_first(), lang, seen);
                        if q.contains(x) {
                            let m = choose|m: int| 0 <= m < q.len() && q[m] == x;
                            assert(p[m] == q[m]);
                            assert(p.contains(x));
                        }
                    }
                }
            },
        }
    }
}

/// Once every tagged text is known, nothing is pending: a second compile of
/// identical text runs no external work, it is served from the cache.
pub proof fn lemma_pending_empty(s: Seq<BlockView>, lang: Seq<char>, seen: Set<Seq<char>>)
    requires
        forall|k: int|
            0 <= k < s.len() && tagged_code(s[k], lang) is Some ==> seen.contains(
                tagged_code(#[trigger] s[k], lang)->0,
            ),
    ensures
        spec_pending(s, lang, seen) == Seq::<Seq<char>>::empty(),
    decreases s,
{
    if s.len() > 0 {
        assert(tagged_code(s[0], lang) is Some ==> seen.contains(tagged_code(s[0], lang)->0));
        assert forall|k: int|
            0 <= k < s.drop_first().len() && tagged_code(s.drop_first()[k], lang) is Some
            implies seen.contains(tagged_code(#[trigger] s.drop_first()[k], lang)->0) by {
            assert(s.drop_first()[k] == s[k + 1]);
        }
        lemma_pending_empty(s.drop_first(), lang, seen);
    }
}


/// Copy an attribute set: the copy has the same value.
pub fn clone_attr(a: &Attr) -> (r: Attr)
    ensures
        attr_view(r) == attr_view(*a),
{
    let mut classes: Vec<String> = Vec::new();
    let mut i: usize = 0;
    while i < a.classes.len()
        invariant
            i <= a.classes@.len(),
            classes@.len() == i,
            forall|k: int| 0 <= k < i ==> classes@[k]@ == #[trigger] a.classes@[k]@,
        decreases a.classes@.len() - i,
    {
        classes.push(a.classes[i].clone());
        i = i + 1;
    }
    let mut attributes: Vec<(String, String)> = Vec::new();
    let mut j: usize = 0;
    while j < a.attributes.len()
        invariant
            j <= a.attributes@.len(),
            attributes@.len() == j,
            forall|k: int| 0 <= k < j ==> #[trigger] attributes@[k].0@ == a.attributes@[k].0@
                && attributes@[k].1@ == a.attributes@[k].1@,
        decreases a.attributes@.len() - j,
    {
        attributes.push((a.attributes[j].0.clone(), a.attributes[j].1.clone()));
        j = j + 1;
    }
    let r = Attr { identifier: a.identifier.clone(), classes, attributes };
    proof {
        assert(attr_view(r).classes =~= attr_view(*a).classes);
        assert(attr_view(r).attributes =~= attr_view(*a).attributes);
        assert(attr_view(r) =~= attr_view(*a));
    }
    r
}

/// Copy an inline node: the copy has the same value.
pub fn clone_inline(i: &Inline) -> (r: Inline)
    ensures
        inline_view(r) == inline_view(*i),
    decreases i,
{
    match i {
        Inline::Str(s) => Inline::Str(s.clone()),
        Inline::Space => Inline::Space,
        Inline::Emph(children) => Inline::Emph(clone_inlines(children)),
        Inline::Strong(children) => Inline::Strong(clone_inlines(children)),
        Inline::Span(a, children) => Inline::Span(clone_attr(a), clone_inlines(children)),
        Inline::Code(a, s) => Inline::Code(clone_attr(a), s.clone()),
        Inline::Image(a, alt, t) => Inline::Image(
            clone_attr(a),
            clone_inlines(alt),
            Target { url: t.url.clone(), title: t.title.clone() },
        ),
        Inline::Opaque(s) => Inline::Opaque(s.clone()),
    }
}

/// Copy a list of inline nodes: the copy has the same value.
pub fn clone_inlines(v: &Vec<Inline>) -> (r: Vec<Inline>)
    ensures
        inlines_view(r@) == inlines_view(v@),
    decreases v,
{
    let mut out: Vec<Inline> = Vec::new();
    let mut i: usize = 0;
    while i < v.len()
        invariant
            i <= v@.len(),
            out@.len() == i,
            forall|k: int| 0 <= k < i ==> inline_view(#[trigger] out@[k]) == inline_view(v@[k]),
        decreases v@.len() - i,
    {
        out.push(clone_inline(&v[i]));
        i = i + 1;
    }
    proof {
        lemma_inlines_view_index(out@);
        lemma_inlines_view_index(v@);
        assert forall|k: int| 0 <= k < inlines_view(out@).len() implies inlines_view(out@)[k]
            == inlines_view(v@)[k] by {
            assert(inlines_view(out@)[k] == inline_view(out@[k]));
            assert(inlines_view(v@)[k] == inline_view(v@[k]));
        }
        assert(inlines_view(out@) =~= inlines_view(v@));
    }
    out
}

/// Copy a block node: the copy has the same value.
pub fn clone_block(b: &Block) -> (r: Block)
    ensures
        block_view(r) == block_view(*b),
{
    match b {
        Block::Plain(children) => Block::Plain(clone_inlines(children)),
        Block::Para(children) => Block::Para(clone_inlines(children)),
        Block::CodeBlock(a, s) => Block::CodeBlock(clone_attr(a), s.clone()),
        Block::Header(level, a, children) => Block::Header(
            *level,
            clone_attr(a),
            clone_inlines(children),
        ),
        Block::HorizontalRule => Block::HorizontalRule,
        Block::Opaque(s) => Block::Opaque(s.clone()),
    }
}

/// Copy a compiled document: the copy has the same value.
pub fn clone_doc(d: &Doc) -> (r: Doc)
    ensures
        blocks_view(r@) == blocks_view(d@),
{
    let mut out: Vec<Block> = Vec::new();
    let mut i: usize = 0;
    while i < d.len()
        invariant
            i <= d@.len(),
            out@.len() == i,
            forall|k: int| 0 <= k < i ==> block_view(#[trigger] out@[k]) == block_view(d@[k]),
        decreases d@.len() - i,
    {
        out.push(clone_block(&d[i]));
        i = i + 1;
    }
    proof {
        lemma_blocks_view_index(out@);
        lemma_blocks_view_index(d@);
        assert forall|k: int| 0 <= k < blocks_view(out@).len() implies blocks_view(out@)[k]
            == blocks_view(d@)[k] by {
            assert(blocks_view(out@)[k] == block_view(out@[k]));
            assert(blocks_view(d@)[k] == block_view(d@[k]));
        }
        assert(blocks_view(out@) =~= blocks_view(d@));
    }
    out
}

} // verus!
