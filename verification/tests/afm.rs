use pagedown::afm::afm_fields;
use std::collections::HashMap;

/// The metric fold a renderer applies to the fields, with defaults.
fn metrics(afm: &str) -> (f32, f32, HashMap<char, f32>) {
    let fields = afm_fields(afm);
    let mut ascent = 800.0;
    let mut descent = 200.0;
    for a in &fields.ascenders {
        ascent = a.parse().unwrap_or(ascent);
    }
    for d in &fields.descenders {
        let parsed: f32 = d.parse().unwrap_or(-descent);
        descent = -parsed;
    }
    let mut advances = HashMap::new();
    for w in &fields.widths {
        if let Ok(width) = w.width.parse::<f32>() {
            advances.insert(w.ch, width);
        }
    }
    (ascent, descent, advances)
}

/// The same reading done directly with std string functions.
fn reference(afm: &str) -> (f32, f32, HashMap<char, f32>) {
    let mut advances = HashMap::new();
    let mut ascent = 800.0;
    let mut descent = 200.0;
    for line in afm.lines() {
        if let Some(value) = line.strip_prefix("Ascender ") {
            ascent = value.trim().parse().unwrap_or(ascent);
        } else if let Some(value) = line.strip_prefix("Descender ") {
            let parsed: f32 = value.trim().parse().unwrap_or(-descent);
            descent = -parsed;
        } else if line.starts_with("C ") {
            let mut code = None;
            let mut width = None;
            for part in line.split(';') {
                let part = part.trim();
                if let Some(value) = part.strip_prefix("C ") {
                    code = value.trim().parse::<i32>().ok();
                } else if let Some(value) = part.strip_prefix("WX ") {
                    width = value.trim().parse::<f32>().ok();
                }
            }
            if let (Some(code), Some(width)) = (code, width) {
                if (0..=255).contains(&code) {
                    if let Some(ch) = char::from_u32(code as u32) {
                        advances.insert(ch, width);
                    }
                }
            }
        }
    }
    (ascent, descent, advances)
}

const SAMPLE: &str = "StartFontMetrics 4.1\r\nFontName Times-Roman\nAscender 683\nDescender -217\nStartCharMetrics 3\nC 32 ; WX 250 ; N space ; B 0 0 0 0 ;\nC 65 ; WX 722 ; N A ; B 15 0 706 674 ;\nC 97 ; WX 444.5 ; N a ; B 37 -10 442 460 ;\nC -1 ; WX 500 ; N bullet ;\nC 300 ; WX 10 ;\nC +66 ; WX 667 ;\nC x ; WX 1 ;\nC 67 ; WX ;\n C 68 ; WX 9\nEndCharMetrics\n";

#[test]
fn metrics_fields_are_read_line_by_line() {
    let fields = afm_fields(SAMPLE);
    assert_eq!(fields.ascenders, vec!["683"]);
    assert_eq!(fields.descenders, vec!["-217"]);
    let widths: Vec<(char, &str)> = fields.widths.iter().map(|w| (w.ch, w.width.as_str())).collect();
    assert_eq!(widths, vec![(' ', "250"), ('A', "722"), ('a', "444.5"), ('B', "667")]);
}

#[test]
fn metrics_agree_with_a_direct_reading() {
    for afm in [SAMPLE, "", "Ascender x\nAscender 700\nDescender 10\n", "C 65 ; C 66 ; WX 1 ; WX 2\n",
        "C 2147483647 ; WX 1\nC -2147483648 ; WX 1\nC 2147483648 ; WX 1\nC 65;WX 3;WX\n"]
    {
        assert_eq!(metrics(afm), reference(afm), "{afm:?}");
    }
}
