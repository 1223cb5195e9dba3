use coedit::cache::ContentCache;
use coedit::doc::{compile, pending_blocks, Attr, Block, Doc, Inline, Target};
use coedit::walk_pandoc::{walk_pandoc, Walk};

fn attr_with_class(class: &str) -> Attr {
    Attr {
        identifier: String::new(),
        classes: vec![class.to_string()],
        attributes: Vec::new(),
    }
}

fn python_block(src: &str) -> Block {
    Block::CodeBlock(attr_with_class("python"), src.to_string())
}

fn graphviz_block(src: &str) -> Block {
    Block::CodeBlock(attr_with_class("graphviz"), src.to_string())
}

#[test]
fn cache_round_trip() {
    let mut c = ContentCache::new();
    assert!(!c.contains(&"print(7)".to_string()));
    assert!(c.get(&"print(7)".to_string()).is_none());
    c.insert("print(7)".to_string(), "7\n".to_string());
    assert!(c.contains(&"print(7)".to_string()));
    assert_eq!(c.get(&"print(7)".to_string()).unwrap(), "7\n");
    // replacing an entry is keyed by content alone
    c.insert("print(7)".to_string(), "seven".to_string());
    assert_eq!(c.get(&"print(7)".to_string()).unwrap(), "seven");
}

#[test]
fn pending_lists_uncached_tagged_texts_once() {
    let cache = ContentCache::new();
    let doc: Doc = vec![
        python_block("print(1)"),
        python_block("print(2)"),
        python_block("print(1)"),
        Block::CodeBlock(attr_with_class("text"), "not code".to_string()),
        Block::HorizontalRule,
    ];
    let pending = pending_blocks(&doc, "python", &cache);
    assert_eq!(pending, vec!["print(1)".to_string(), "print(2)".to_string()]);
}

#[test]
fn pending_skips_cached_texts() {
    let mut cache = ContentCache::new();
    cache.insert("print(1)".to_string(), "1\n".to_string());
    let doc: Doc = vec![python_block("print(1)"), python_block("print(2)")];
    let pending = pending_blocks(&doc, "python", &cache);
    assert_eq!(pending, vec!["print(2)".to_string()]);
}

#[test]
fn second_scan_after_filling_cache_is_empty() {
    let mut cache = ContentCache::new();
    let doc: Doc = vec![python_block("print(1)"), python_block("print(2)")];
    let pending = pending_blocks(&doc, "python", &cache);
    assert_eq!(pending.len(), 2);
    // the embedding program runs the interpreter once per pending text
    for text in pending {
        cache.insert(text, "out".to_string());
    }
    // identical text is never re-executed: nothing is pending any more
    let again = pending_blocks(&doc, "python", &cache);
    assert!(again.is_empty());
}

#[test]
fn code_transform_appends_captured_output() {
    let mut code = ContentCache::new();
    code.insert("print(7)".to_string(), "7\n".to_string());
    let diagrams = ContentCache::new();
    let doc: Doc = vec![python_block("print(7)")];
    let out = compile(doc, &code, &diagrams);
    assert_eq!(out.len(), 2);
    match &out[0] {
        Block::CodeBlock(a, src) => {
            assert_eq!(a.classes, vec!["python".to_string()]);
            assert_eq!(src, "print(7)");
        }
        _ => panic!("expected the original code block first"),
    }
    match &out[1] {
        Block::CodeBlock(a, outtext) => {
            assert_eq!(a.classes, vec![String::new()]);
            assert_eq!(outtext, "7\n");
        }
        _ => panic!("expected the appended output block"),
    }
}

#[test]
fn uncached_code_block_passes_through_unchanged() {
    let code = ContentCache::new();
    let diagrams = ContentCache::new();
    let doc: Doc = vec![python_block("print(7)")];
    let out = compile(doc, &code, &diagrams);
    assert_eq!(out.len(), 1);
    assert!(matches!(&out[0], Block::CodeBlock(_, s) if s == "print(7)"));
}

#[test]
fn diagram_transform_replaces_block_with_image() {
    let code = ContentCache::new();
    let mut diagrams = ContentCache::new();
    diagrams.insert("digraph { a -> b }".to_string(), "graph-1.png".to_string());
    let doc: Doc = vec![graphviz_block("digraph { a -> b }")];
    let out = compile(doc, &code, &diagrams);
    assert_eq!(out.len(), 1);
    match &out[0] {
        Block::Para(inlines) => {
            assert_eq!(inlines.len(), 1);
            match &inlines[0] {
                Inline::Image(a, alt, Target { url, title }) => {
                    assert!(a.identifier.is_empty());
                    assert!(a.classes.is_empty());
                    assert!(a.attributes.is_empty());
                    assert!(alt.is_empty());
                    assert_eq!(url, "graph-1.png");
                    assert_eq!(title, "graph-1.png");
                }
                _ => panic!("expected an image reference"),
            }
        }
        _ => panic!("expected a paragraph holding the image"),
    }
}

#[test]
fn both_transforms_run_in_one_compile() {
    let mut code = ContentCache::new();
    code.insert("print(7)".to_string(), "7\n".to_string());
    let mut diagrams = ContentCache::new();
    diagrams.insert("digraph {}".to_string(), "g.png".to_string());
    let doc: Doc = vec![
        Block::Para(vec![Inline::Str("hello".to_string())]),
        python_block("print(7)"),
        graphviz_block("digraph {}"),
    ];
    let out = compile(doc, &code, &diagrams);
    assert_eq!(out.len(), 4);
    assert!(matches!(&out[0], Block::Para(_)));
    assert!(matches!(&out[1], Block::CodeBlock(_, s) if s == "print(7)"));
    assert!(matches!(&out[2], Block::CodeBlock(_, s) if s == "7\n"));
    assert!(matches!(&out[3], Block::Para(_)));
}

#[test]
fn non_code_blocks_pass_through_compile() {
    let code = ContentCache::new();
    let diagrams = ContentCache::new();
    let doc: Doc = vec![
        Block::Header(1, attr_with_class("h"), vec![Inline::Str("T".to_string())]),
        Block::Opaque("{\"t\":\"BulletList\"}".to_string()),
        Block::Plain(vec![
            Inline::Emph(vec![Inline::Str("e".to_string())]),
            Inline::Space,
        ]),
    ];
    let out = compile(doc, &code, &diagrams);
    assert_eq!(out.len(), 3);
    assert!(matches!(&out[0], Block::Header(1, _, _)));
    assert!(matches!(&out[1], Block::Opaque(s) if s == "{\"t\":\"BulletList\"}"));
    assert!(matches!(&out[2], Block::Plain(_)));
}

#[test]
fn walker_reaches_nested_inline_content() {
    // walk a document through the code transform: it leaves inline
    // content alone but the walk still rebuilds it in place
    let mut code = ContentCache::new();
    code.insert("x".to_string(), "y".to_string());
    let walker = coedit::doc::RunPython { cache: &code };
    let doc: Doc = vec![Block::Para(vec![
        Inline::Strong(vec![Inline::Str("deep".to_string())]),
        Inline::Span(attr_with_class("s"), vec![Inline::Code(attr_with_class("c"), "i".to_string())]),
    ])];
    let out = walk_pandoc(&walker, doc);
    assert_eq!(out.len(), 1);
    match &out[0] {
        Block::Para(inlines) => {
            assert_eq!(inlines.len(), 2);
            assert!(matches!(&inlines[0], Inline::Strong(v) if v.len() == 1));
            assert!(matches!(&inlines[1], Inline::Span(_, v) if v.len() == 1));
        }
        _ => panic!("expected the paragraph back"),
    }
}

#[test]
fn walk_block_and_inline_identity() {
    let code = ContentCache::new();
    let walker = coedit::doc::RunPython { cache: &code };
    let out = coedit::walk_pandoc::walk_block(&walker, Block::HorizontalRule);
    assert_eq!(out.len(), 1);
    assert!(matches!(&out[0], Block::HorizontalRule));
    let out = coedit::walk_pandoc::walk_inline(&walker, Inline::Space);
    assert_eq!(out.len(), 1);
    assert!(matches!(&out[0], Inline::Space));
    let out = walker.inline(Inline::Str("s".to_string()));
    assert_eq!(out.len(), 1);
    assert!(matches!(&out[0], Inline::Str(s) if s == "s"));
}

#[test]
fn clone_doc_preserves_value() {
    let doc: Doc = vec![
        python_block("a"),
        Block::Para(vec![Inline::Emph(vec![Inline::Str("t".to_string())])]),
    ];
    let copy = coedit::doc::clone_doc(&doc);
    assert_eq!(copy.len(), 2);
    assert!(matches!(&copy[0], Block::CodeBlock(_, s) if s == "a"));
    assert!(matches!(&copy[1], Block::Para(v) if v.len() == 1));
}
