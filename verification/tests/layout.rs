use pagedown::ir::{Alignment, Block, Document, Inline, QuoteKind, Table};
use pagedown::layout::{
    code_accent, decimal_text, number_label, placeholder_label, quote_title, CodeAccent, FontFace,
    FontFamily, FootnoteNumbers,
};

#[test]
fn code_accents_follow_the_language() {
    assert_eq!(code_accent(Some("Rust")), CodeAccent::Rust);
    assert_eq!(code_accent(Some("rs")), CodeAccent::Rust);
    assert_eq!(code_accent(Some("TSX")), CodeAccent::TypeScript);
    assert_eq!(code_accent(Some("jsx")), CodeAccent::JavaScript);
    assert_eq!(code_accent(Some("py")), CodeAccent::Python);
    assert_eq!(code_accent(Some("golang")), CodeAccent::Go);
    assert_eq!(code_accent(Some("swift")), CodeAccent::Swift);
    assert_eq!(code_accent(Some("xml")), CodeAccent::Markup);
    assert_eq!(code_accent(Some("scss")), CodeAccent::Stylesheet);
    assert_eq!(code_accent(Some("yml")), CodeAccent::Data);
    assert_eq!(code_accent(Some("zsh")), CodeAccent::Shell);
    assert_eq!(code_accent(Some("SQL")), CodeAccent::Sql);
    assert_eq!(code_accent(Some("LaTeX")), CodeAccent::Tex);
    assert_eq!(code_accent(Some("cobol")), CodeAccent::Neutral);
    assert_eq!(code_accent(None), CodeAccent::Neutral);
}

#[test]
fn callouts_have_titles() {
    assert_eq!(quote_title(QuoteKind::Regular), None);
    assert_eq!(quote_title(QuoteKind::Note), Some("NOTE"));
    assert_eq!(quote_title(QuoteKind::Tip), Some("TIP"));
    assert_eq!(quote_title(QuoteKind::Important), Some("IMPORTANT"));
    assert_eq!(quote_title(QuoteKind::Warning), Some("WARNING"));
    assert_eq!(quote_title(QuoteKind::Caution), Some("CAUTION"));
}

#[test]
fn font_switches_for_emphasis_and_strength() {
    assert_eq!(FontFace::Serif.emphasized(), FontFace::SerifItalic);
    assert_eq!(FontFace::SansBold.emphasized(), FontFace::SansItalic);
    assert_eq!(FontFace::Mono.emphasized(), FontFace::Mono);
    assert_eq!(FontFace::SerifItalic.strengthened(), FontFace::SerifBold);
    assert_eq!(FontFace::Sans.strengthened(), FontFace::SansBold);
    assert_eq!(FontFace::MonoBold.strengthened(), FontFace::MonoBold);
    assert_eq!(FontFace::SerifItalic.emphasized().emphasized(), FontFace::SerifItalic);
    assert_eq!(FontFace::SansItalic.family(), FontFamily::Sans);
    assert_eq!(FontFace::MonoBold.family(), FontFamily::Mono);
}

#[test]
fn footnotes_are_numbered_in_order_of_first_use() {
    let mut numbers = FootnoteNumbers::new();
    assert_eq!(numbers.number("note"), 1);
    assert_eq!(numbers.number("other"), 2);
    assert_eq!(numbers.number("note"), 1);
    assert_eq!(numbers.number("third"), 3);
    assert_eq!(numbers.number("other"), 2);
}

#[test]
fn footnote_definitions_are_indexed_in_document_order() {
    let doc = Document::new(vec![
        Block::Paragraph(vec![Inline::FootnoteRef("b".to_string())]),
        Block::Footnote { label: "b".to_string(), content: vec![] },
        Block::Divider,
        Block::Footnote { label: "a".to_string(), content: vec![] },
        Block::Footnote { label: "b".to_string(), content: vec![] },
    ]);
    let mut numbers = FootnoteNumbers::new();
    numbers.index_footnotes(&doc);
    assert_eq!(numbers.number("a"), 2);
    assert_eq!(numbers.number("b"), 1);
    assert_eq!(numbers.number("c"), 3);
}

#[test]
fn numerals_and_labels() {
    assert_eq!(decimal_text(0), "0");
    assert_eq!(decimal_text(7), "7");
    assert_eq!(decimal_text(1984), "1984");
    assert_eq!(decimal_text(u64::MAX), u64::MAX.to_string());
    assert_eq!(number_label(12), "12.");
}

#[test]
fn table_columns_cover_the_widest_row() {
    let cell = |s: &str| vec![Inline::Text(s.to_string())];
    let table = Table {
        alignments: vec![Alignment::Left, Alignment::Right],
        header: vec![cell("a"), cell("b")],
        rows: vec![vec![cell("1")], vec![cell("1"), cell("2"), cell("3")]],
    };
    assert_eq!(table.column_count(), 3);
    assert_eq!(table.alignment_at(1), Alignment::Right);
    assert_eq!(table.alignment_at(2), Alignment::Unaligned);
    let empty = Table { alignments: vec![], header: vec![], rows: vec![] };
    assert_eq!(empty.column_count(), 1);
}

#[test]
fn placeholders_prefer_alt_text() {
    assert_eq!(placeholder_label("img.png", "A chart"), "A chart");
    assert_eq!(placeholder_label("img.png", "  "), "img.png");
}
