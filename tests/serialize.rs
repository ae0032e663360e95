use gtf_font::{parse_gtf_content, serialize_gtf_document, Glyph, GtfDocument, Palette, Size};

fn sample_doc() -> GtfDocument {
    let mut doc = GtfDocument::new();
    doc.header.font_name = Some("Tiny".to_string());
    doc.header.description = Some("two\nlines".to_string());
    doc.header.default_size = Some(Size { width: 2, height: 1 });
    let mut g = Glyph::new("A".to_string());
    g.unicode = Some("U+0041".to_string());
    g.char_repr = Some('A');
    g.size = Some(Size { width: 2, height: 1 });
    g.palette.insert('.', "#000".to_string());
    g.palette.insert('#', "#FFFFFF".to_string());
    g.bitmap.push("#.".to_string());
    doc.glyphs.push(g);
    doc
}

#[test]
fn serializes_in_canonical_form() {
    let text = serialize_gtf_document(&sample_doc()).unwrap();
    let expected = "HEADER
FONT Tiny
DESCRIPTION two lines
DEFAULT_SIZE 2x1
END HEADER

GLYPH A
UNICODE U+0041
CHAR A
SIZE 2x1
PALETTE
# #FFFFFF
. #000
END PALETTE
DATA
#.
END DATA
END GLYPH A";
    assert_eq!(text, expected);
}

#[test]
fn empty_document_serializes_to_header_only() {
    let text = serialize_gtf_document(&GtfDocument::new()).unwrap();
    assert_eq!(text, "HEADER\nEND HEADER");
}

#[test]
fn round_trip_on_canonical_output() {
    let mut doc = sample_doc();
    doc.header.description = Some("one line".to_string());
    let text = serialize_gtf_document(&doc).unwrap();
    let back = parse_gtf_content(&text).unwrap();
    assert_eq!(back.header.font_name, doc.header.font_name);
    assert_eq!(back.header.description, doc.header.description);
    assert_eq!(back.header.default_size, doc.header.default_size);
    assert_eq!(back.glyphs.len(), 1);
    let (a, b) = (&back.glyphs[0], &doc.glyphs[0]);
    assert_eq!(a.name, b.name);
    assert_eq!(a.unicode, b.unicode);
    assert_eq!(a.char_repr, b.char_repr);
    assert_eq!(a.size, b.size);
    assert_eq!(a.palette.entries, b.palette.entries);
    assert_eq!(a.bitmap, b.bitmap);
    assert!(a.validation_warnings.is_empty());
}

#[test]
fn serialization_is_idempotent() {
    let text = serialize_gtf_document(&sample_doc()).unwrap();
    let again = serialize_gtf_document(&parse_gtf_content(&text).unwrap()).unwrap();
    assert_eq!(again, text);
}

#[test]
fn palette_output_ignores_insertion_order() {
    let mut first = Palette::new();
    first.insert('b', "#111".to_string());
    first.insert('a', "#222".to_string());
    first.insert('Z', "#333".to_string());
    let mut second = Palette::new();
    second.insert('Z', "#333".to_string());
    second.insert('a', "#222".to_string());
    second.insert('b', "#111".to_string());
    let mut d1 = GtfDocument::new();
    d1.header.default_palette = Some(first);
    let mut d2 = GtfDocument::new();
    d2.header.default_palette = Some(second);
    let t1 = serialize_gtf_document(&d1).unwrap();
    let t2 = serialize_gtf_document(&d2).unwrap();
    assert_eq!(t1, t2);
    assert_eq!(t1, "HEADER\nDEFAULT_PALETTE\nZ #333\na #222\nb #111\nEND HEADER");
}

#[test]
fn space_char_round_trips() {
    let mut doc = GtfDocument::new();
    let mut g = Glyph::new("space".to_string());
    g.char_repr = Some(' ');
    doc.glyphs.push(g);
    let text = serialize_gtf_document(&doc).unwrap();
    assert!(text.contains("\nCHAR  \n"));
    let back = parse_gtf_content(&text).unwrap();
    assert_eq!(back.glyphs[0].char_repr, Some(' '));
}

#[test]
fn palette_insert_replaces_existing_key() {
    let mut p = Palette::new();
    assert_eq!(p.insert('#', "#FFF".to_string()), None);
    assert_eq!(p.insert('#', "#000".to_string()), Some("#FFF".to_string()));
    assert_eq!(p.len(), 1);
    assert!(p.contains_key('#'));
    assert_eq!(p.get('#').map(|s| s.as_str()), Some("#000"));
}

#[test]
fn idempotent_with_warnings_and_short_data() {
    let text = "GLYPH A\nSIZE 3x3\nPALETTE\n# #FFF\nEND PALETTE\nDATA\n#x\n#\nEND DATA\nEND GLYPH A\n";
    let doc = parse_gtf_content(text).unwrap();
    assert!(!doc.glyphs[0].validation_warnings.is_empty());
    let once = serialize_gtf_document(&doc).unwrap();
    let twice = serialize_gtf_document(&parse_gtf_content(&once).unwrap()).unwrap();
    assert_eq!(once, twice);
}

#[test]
fn name_mismatch_reported_at_closing_line() {
    let e = parse_gtf_content("GLYPH left\nEND GLYPH right\n").unwrap_err();
    assert_eq!(e, "Line 2: END GLYPH name mismatch: Found 'right', expected 'left'.");
}

#[test]
fn hand_built_palette_is_written_sorted() {
    let mut doc = GtfDocument::new();
    let mut g = Glyph::new("A".to_string());
    g.palette.entries.push(('b', "#111".to_string()));
    g.palette.entries.push(('a', "#222".to_string()));
    doc.glyphs.push(g);
    let text = serialize_gtf_document(&doc).unwrap();
    assert_eq!(
        text,
        "HEADER\nEND HEADER\n\nGLYPH A\nPALETTE\na #222\nb #111\nEND PALETTE\nEND GLYPH A"
    );
}

#[test]
fn sized_glyph_without_palette_reads_back() {
    let mut doc = GtfDocument::new();
    let mut g = Glyph::new("A".to_string());
    g.size = Some(Size { width: 2, height: 1 });
    g.bitmap.push("##".to_string());
    doc.glyphs.push(g);
    let text = serialize_gtf_document(&doc).unwrap();
    let back = parse_gtf_content(&text).unwrap();
    assert_eq!(back.glyphs[0].bitmap, vec!["##".to_string()]);
    assert_eq!(serialize_gtf_document(&back).unwrap(), text);
}
