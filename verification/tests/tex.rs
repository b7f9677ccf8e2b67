use pagedown::tex::{escape_xml, math_dvi_tex_document, math_pdf_tex_document, math_tex_body, resources_source, svg_attr, ResourcesSource};

#[test]
fn escape_xml_writes_entities() {
    assert_eq!(escape_xml("a<b & 'c' > \"d\""), "a&lt;b &amp; &apos;c&apos; &gt; &quot;d&quot;");
    assert_eq!(escape_xml("x^2"), "x^2");
    let escaped = escape_xml("<'\"'>");
    assert!(!escaped.contains('<') && !escaped.contains('>') && !escaped.contains('\'') && !escaped.contains('"'));
}

#[test]
fn tex_bodies_wrap_the_formula() {
    assert_eq!(math_tex_body("x", false), "$x$");
    assert_eq!(math_tex_body("x", true), "\\[\\displaystyle\nx\n\\]");
}

#[test]
fn tex_documents_are_standalone() {
    assert_eq!(
        math_dvi_tex_document("a^2", false),
        "\\documentclass[preview,border=0pt]{standalone}\n\\usepackage[T1]{fontenc}\n\\usepackage{amsmath,amssymb,mathtools,bm}\n\\begin{document}\n$a^2$\n\\end{document}\n"
    );
    assert_eq!(
        math_pdf_tex_document("a^2", true),
        "\\documentclass[preview,border=0pt]{standalone}\n\\usepackage{amsmath,amssymb,mathtools,bm}\n\\usepackage{unicode-math}\n\\setmathfont{Latin Modern Math}\n\\begin{document}\n$\\displaystyle\na^2\n$\n\\end{document}\n"
    );
}

#[test]
fn svg_attr_reads_single_quoted_attributes() {
    let svg = "<svg version='1.1' width='12.5pt' height='7pt' viewBox='0 -5 12 7'>";
    assert_eq!(svg_attr(svg, "width").as_deref(), Some("12.5pt"));
    assert_eq!(svg_attr(svg, "height").as_deref(), Some("7pt"));
    assert_eq!(svg_attr(svg, "viewBox").as_deref(), Some("0 -5 12 7"));
    assert_eq!(svg_attr(svg, "depth"), None);
    assert_eq!(svg_attr("<svg width='3", "width"), None);
}

#[test]
fn svg_attr_reads_back_what_was_written() {
    assert_eq!(svg_attr("width='4.5pt' height='2pt'", "width").as_deref(), Some("4.5pt"));
    assert_eq!(svg_attr("width='' x", "width").as_deref(), Some(""));
}

#[test]
fn escaping_is_per_character_and_reads_back() {
    assert_eq!(format!("{}{}", escape_xml("a&"), escape_xml("<b")), escape_xml("a&<b"));
    let escaped = escape_xml("if a < b && c > 'd' \"e\"");
    let back = escaped
        .replace("&lt;", "<")
        .replace("&gt;", ">")
        .replace("&quot;", "\"")
        .replace("&apos;", "'")
        .replace("&amp;", "&");
    assert_eq!(back, "if a < b && c > 'd' \"e\"");
}

#[test]
fn formula_resources_come_from_the_first_available_source() {
    assert_eq!(resources_source(true, true, true), ResourcesSource::PageEntry);
    assert_eq!(resources_source(false, true, true), ResourcesSource::Referenced);
    assert_eq!(resources_source(false, false, true), ResourcesSource::Inherited);
    assert_eq!(resources_source(false, false, false), ResourcesSource::Empty);
}
