use pagedown::ir::Inline;
use pagedown::layout::{FontFace, FootnoteNumbers};
use pagedown::pieces::{inline_pieces, PieceKind};

fn text(s: &str) -> Inline {
    Inline::Text(s.to_string())
}

#[test]
fn styles_follow_emphasis_strong_and_strike() {
    let mut notes = FootnoteNumbers::new();
    let inlines = vec![
        text("a"),
        Inline::Emphasis(vec![text("b"), Inline::Strong(vec![text("c")])]),
        Inline::Strikethrough(vec![text("d")]),
        Inline::Code("e".to_string()),
    ];
    let pieces = inline_pieces(&inlines, FontFace::Serif, &mut notes);
    assert_eq!(pieces.len(), 5);
    assert_eq!(pieces[0].font, FontFace::Serif);
    assert_eq!(pieces[1].font, FontFace::SerifItalic);
    assert_eq!(pieces[2].font, FontFace::SerifBold);
    assert!(pieces[3].strike);
    assert!(!pieces[0].strike);
    assert_eq!(pieces[4].font, FontFace::Mono);
    assert!(matches!(&pieces[4].kind, PieceKind::Code(c) if c == "e"));
}

#[test]
fn the_outer_link_wins_and_underlines_text() {
    let mut notes = FootnoteNumbers::new();
    let inlines = vec![Inline::Link {
        href: "https://outer".to_string(),
        content: vec![
            text("x"),
            Inline::Link { href: "https://inner".to_string(), content: vec![text("y")] },
            Inline::Math("z".to_string()),
        ],
    }];
    let pieces = inline_pieces(&inlines, FontFace::Sans, &mut notes);
    assert_eq!(pieces.len(), 3);
    for p in &pieces {
        assert_eq!(p.link.as_deref(), Some("https://outer"));
    }
    assert!(pieces[0].underline);
    assert!(pieces[1].underline);
    assert!(!pieces[2].underline);
    assert_eq!(pieces[2].font, FontFace::Serif);
}

#[test]
fn footnote_references_are_numbered_by_first_use_and_citations_labelled() {
    let mut notes = FootnoteNumbers::new();
    let inlines = vec![
        Inline::FootnoteRef("b".to_string()),
        Inline::FootnoteRef("a".to_string()),
        Inline::FootnoteRef("b".to_string()),
        Inline::Citation("doe2024".to_string()),
    ];
    let pieces = inline_pieces(&inlines, FontFace::Serif, &mut notes);
    assert!(matches!(pieces[0].kind, PieceKind::FootnoteRef(1)));
    assert!(matches!(pieces[1].kind, PieceKind::FootnoteRef(2)));
    assert!(matches!(pieces[2].kind, PieceKind::FootnoteRef(1)));
    assert_eq!(pieces[0].font, FontFace::SansBold);
    assert!(matches!(&pieces[3].kind, PieceKind::Citation(t) if t == "(Doe 2024)"));
    assert_eq!(pieces[3].font, FontFace::SerifItalic);
    assert_eq!(notes.number("a"), 2);
    assert_eq!(notes.number("c"), 3);
}
