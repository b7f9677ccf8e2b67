use pagedown::ir::{inlines_to_plain_text, Alignment, Block, Inline, QuoteKind};
use pagedown::markdown::{CodeKind, HeadingTag, MdEvent, MdTag, MdTagEnd};
use pagedown::parser::{document_from_events, parse_markdown};

#[test]
fn parses_supported_block_types() {
    let doc = parse_markdown(
        r#"# Title

Paragraph with `code`, $x^2$, and [link](https://example.com).

---

```rust
fn main() {}
```

$$
\frac{1}{3}
$$

![Alt text](image.png)
"#,
    );

    assert!(matches!(doc.blocks[0], Block::Heading { level: 1, .. }));
    assert!(matches!(doc.blocks[1], Block::Paragraph(_)));
    assert!(matches!(doc.blocks[2], Block::Divider));
    assert!(matches!(doc.blocks[3], Block::CodeBlock { .. }));
    assert!(matches!(doc.blocks[4], Block::MathBlock(_)));
    assert!(matches!(doc.blocks[5], Block::Image { .. }));
}

#[test]
fn keeps_inline_code_math_and_links_distinct() {
    let doc = parse_markdown("Text `LayoutLine`, $a^2$, [Rust](https://rust-lang.org).");
    let Block::Paragraph(inlines) = &doc.blocks[0] else {
        panic!("expected paragraph");
    };

    assert!(
        inlines
            .iter()
            .any(|inline| matches!(inline, Inline::Code(code) if code == "LayoutLine"))
    );
    assert!(
        inlines
            .iter()
            .any(|inline| matches!(inline, Inline::Math(tex) if tex == "a^2"))
    );
    assert!(inlines.iter().any(|inline| matches!(inline, Inline::Link { href, content } if href == "https://rust-lang.org" && content.len() == 1)));
}

#[test]
fn parses_table_header_rows_and_alignment() {
    let doc = parse_markdown(
        r#"| Feature | Status |
| :-- | --: |
| Math | Done |
"#,
    );
    let Block::Table(table) = &doc.blocks[0] else {
        panic!("expected table");
    };

    assert_eq!(table.header.len(), 2);
    assert_eq!(table.rows.len(), 1);
    assert!(matches!(table.alignments[0], Alignment::Left));
    assert!(matches!(table.alignments[1], Alignment::Right));
}

#[test]
fn heading_levels_and_code_languages_are_read() {
    let doc = parse_markdown("### Third\n\n```python extra words\nprint(1)\n```\n\n    indented\n");
    match &doc.blocks[0] {
        Block::Heading { level, content } => {
            assert_eq!(*level, 3);
            assert!(matches!(&content[0], Inline::Text(t) if t == "Third"));
        }
        other => panic!("unexpected {other:?}"),
    }
    match &doc.blocks[1] {
        Block::CodeBlock { lang, text } => {
            assert_eq!(lang.as_deref(), Some("python"));
            assert_eq!(text, "print(1)\n");
        }
        other => panic!("unexpected {other:?}"),
    }
    match &doc.blocks[2] {
        Block::CodeBlock { lang, text } => {
            assert_eq!(*lang, None);
            assert_eq!(text, "indented\n");
        }
        other => panic!("unexpected {other:?}"),
    }
}

#[test]
fn image_alt_text_is_collected() {
    let doc = parse_markdown("![A *structured* diagram](figure.png)");
    assert_eq!(doc.blocks.len(), 1);
    match &doc.blocks[0] {
        Block::Image { src, alt } => {
            assert_eq!(src, "figure.png");
            assert_eq!(alt, "A structured diagram");
        }
        other => panic!("unexpected {other:?}"),
    }
}

#[test]
fn soft_breaks_become_spaces() {
    let doc = parse_markdown("one\ntwo");
    let Block::Paragraph(inlines) = &doc.blocks[0] else {
        panic!("expected paragraph");
    };
    let texts: Vec<String> = inlines.iter().map(|i| i.plain_text()).collect();
    assert_eq!(texts.concat(), "one two");
}

#[test]
fn table_cells_keep_their_inlines() {
    let doc = parse_markdown("| A | `b` |\n|---|---|\n| $x$ | [l](u) |\n");
    let Block::Table(table) = &doc.blocks[0] else {
        panic!("expected table");
    };
    assert!(matches!(table.alignments[0], Alignment::Unaligned));
    assert!(matches!(&table.header[1][0], Inline::Code(c) if c == "b"));
    assert!(matches!(&table.rows[0][0][0], Inline::Math(t) if t == "x"));
    assert!(matches!(&table.rows[0][1][0], Inline::Link { href, .. } if href == "u"));
}

#[test]
fn events_build_a_math_block_from_a_lone_math_paragraph() {
    let events = vec![
        MdEvent::Start(MdTag::Paragraph),
        MdEvent::Text(" ".to_string()),
        MdEvent::InlineMath("x^2".to_string()),
        MdEvent::End(MdTagEnd::Paragraph),
        MdEvent::Start(MdTag::Paragraph),
        MdEvent::End(MdTagEnd::Paragraph),
        MdEvent::Rule,
    ];
    let doc = document_from_events(events);
    assert_eq!(doc.blocks.len(), 2);
    assert!(matches!(&doc.blocks[0], Block::MathBlock(t) if t == "x^2"));
    assert!(matches!(doc.blocks[1], Block::Divider));
}

#[test]
fn unclosed_constructs_are_dropped() {
    let events = vec![
        MdEvent::Start(MdTag::Heading(HeadingTag::H2)),
        MdEvent::Text("open".to_string()),
        MdEvent::Rule,
    ];
    let doc = document_from_events(events);
    assert_eq!(doc.blocks.len(), 1);
    assert!(matches!(doc.blocks[0], Block::Divider));
}

#[test]
fn inline_outside_a_block_opens_a_paragraph() {
    let events = vec![
        MdEvent::Code("c".to_string()),
        MdEvent::End(MdTagEnd::Paragraph),
        MdEvent::Start(MdTag::CodeBlock(CodeKind::Fenced("  rust  ".to_string()))),
        MdEvent::Code("x".to_string()),
        MdEvent::End(MdTagEnd::CodeBlock),
    ];
    let doc = document_from_events(events);
    assert!(matches!(&doc.blocks[0], Block::Paragraph(c) if c.len() == 1));
    match &doc.blocks[1] {
        Block::CodeBlock { lang, text } => {
            assert_eq!(lang.as_deref(), Some("rust"));
            assert_eq!(text, "x");
        }
        other => panic!("unexpected {other:?}"),
    }
}

#[test]
fn display_math_inside_a_paragraph_stays_inline() {
    let doc = parse_markdown("before $$x$$ after");
    let Block::Paragraph(inlines) = &doc.blocks[0] else {
        panic!("expected paragraph");
    };
    assert!(inlines.iter().any(|i| matches!(i, Inline::Math(t) if t == "x")));
}

#[test]
fn parsed_blocks_are_well_formed() {
    let doc = parse_markdown("# a\n\n###### f\n\n \n\npara\n\n$y$\n\n- item\n");
    for block in &doc.blocks {
        match block {
            Block::Heading { level, .. } => assert!((1..=6).contains(level)),
            Block::Paragraph(content) => assert!(!content.is_empty()),
            _ => {}
        }
    }
    assert!(matches!(&doc.blocks[3], Block::MathBlock(t) if t == "y"));
}

#[test]
fn more_events_only_append_blocks() {
    let make = || {
        vec![
            MdEvent::Rule,
            MdEvent::Start(MdTag::Paragraph),
            MdEvent::Text("a".to_string()),
            MdEvent::End(MdTagEnd::Paragraph),
        ]
    };
    let first = document_from_events(make());
    let mut longer = make();
    longer.push(MdEvent::Start(MdTag::Image("i.png".to_string())));
    longer.push(MdEvent::Text("alt".to_string()));
    longer.push(MdEvent::End(MdTagEnd::Image));
    let second = document_from_events(longer);
    assert_eq!(first.blocks.len(), 2);
    assert_eq!(second.blocks.len(), 3);
    assert!(matches!(second.blocks[0], Block::Divider));
    assert!(matches!(&second.blocks[1], Block::Paragraph(c) if c.len() == 1));
    assert!(matches!(&second.blocks[2], Block::Image { src, alt } if src == "i.png" && alt == "alt"));
}

#[test]
fn callouts_become_quote_blocks() {
    let doc = parse_markdown("> [!NOTE]\n> Be careful.\n");
    assert_eq!(doc.blocks.len(), 1);
    match &doc.blocks[0] {
        Block::Quote { kind, content } => {
            assert_eq!(*kind, QuoteKind::Note);
            assert_eq!(inlines_to_plain_text(content), "Be careful.");
        }
        other => panic!("unexpected {other:?}"),
    }
    let doc = parse_markdown("> plain quote\n");
    assert!(matches!(&doc.blocks[0], Block::Quote { kind: QuoteKind::Regular, .. }));
}

#[test]
fn task_lists_keep_their_marks() {
    let doc = parse_markdown("- [x] done\n- [ ] todo\n");
    assert_eq!(doc.blocks.len(), 1);
    match &doc.blocks[0] {
        Block::List { ordered, start, items } => {
            assert!(!*ordered);
            assert_eq!(*start, 1);
            assert_eq!(items.len(), 2);
            assert_eq!(items[0].checked, Some(true));
            assert_eq!(items[1].checked, Some(false));
            assert_eq!(inlines_to_plain_text(&items[0].content), "done");
            assert_eq!(inlines_to_plain_text(&items[1].content), "todo");
        }
        other => panic!("unexpected {other:?}"),
    }
}

#[test]
fn ordered_lists_start_at_their_number() {
    let doc = parse_markdown("3. three\n4. four\n");
    match &doc.blocks[0] {
        Block::List { ordered, start, items } => {
            assert!(*ordered);
            assert_eq!(*start, 3);
            assert_eq!(items.len(), 2);
            assert_eq!(items[0].checked, None);
        }
        other => panic!("unexpected {other:?}"),
    }
}

#[test]
fn citation_markers_become_citations() {
    let doc = parse_markdown("See [@doe2024].");
    assert_eq!(doc.blocks.len(), 1);
    let Block::Paragraph(c) = &doc.blocks[0] else {
        panic!("expected paragraph");
    };
    assert!(c.iter().any(|i| matches!(i, Inline::Citation(k) if k == "doe2024")));
    assert_eq!(inlines_to_plain_text(c), "See doe2024.");
}

#[test]
fn footnote_references_and_definitions_are_kept() {
    let doc = parse_markdown("Text[^a].\n\n[^a]: The note.\n");
    let Block::Paragraph(c) = &doc.blocks[0] else {
        panic!("expected paragraph");
    };
    assert!(c.iter().any(|i| matches!(i, Inline::FootnoteRef(l) if l == "a")));
    assert!(doc.blocks.iter().any(|b| matches!(b, Block::Footnote { label, content }
        if label == "a" && inlines_to_plain_text(content) == "The note.")));
}

#[test]
fn citation_markers_in_headings_cells_and_links_are_recognised() {
    let doc = parse_markdown("# On [@knuth1984]\n\n| a |\n|---|\n| [@doe2024] |\n");
    let Block::Heading { content, .. } = &doc.blocks[0] else {
        panic!("expected heading");
    };
    assert!(content.iter().any(|i| matches!(i, Inline::Citation(k) if k == "knuth1984")));
    let Block::Table(table) = &doc.blocks[1] else {
        panic!("expected table");
    };
    assert!(table.rows[0][0].iter().any(|i| matches!(i, Inline::Citation(k) if k == "doe2024")));
}

#[test]
fn text_runs_without_markers_stay_separate() {
    let doc = document_from_events(vec![
        MdEvent::Start(MdTag::Paragraph),
        MdEvent::Text("one ".to_string()),
        MdEvent::Text("two".to_string()),
        MdEvent::End(MdTagEnd::Paragraph),
    ]);
    let Block::Paragraph(c) = &doc.blocks[0] else {
        panic!("expected paragraph");
    };
    assert_eq!(c.len(), 2);
    assert!(matches!(&c[0], Inline::Text(t) if t == "one "));
    assert!(matches!(&c[1], Inline::Text(t) if t == "two"));
}
