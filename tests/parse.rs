use gtf_font::{parse_gtf_content, Size};

const SAMPLE: &str = "HEADER
FONT Tiny
VERSION 1.0
AUTHOR Someone
DESCRIPTION A small font
DEFAULT_SIZE 3x2
DEFAULT_PALETTE
. #000000
# #FFFFFF
END HEADER

GLYPH A
UNICODE U+0041
CHAR A
SIZE 3x2
PALETTE
# #FFFFFF
. #000
END PALETTE
DATA
#.#
.#.
END DATA
END GLYPH A
";

#[test]
fn parses_full_sample() {
    let doc = parse_gtf_content(SAMPLE).expect("sample parses");
    assert_eq!(doc.header.font_name.as_deref(), Some("Tiny"));
    assert_eq!(doc.header.version.as_deref(), Some("1.0"));
    assert_eq!(doc.header.author.as_deref(), Some("Someone"));
    assert_eq!(doc.header.description.as_deref(), Some("A small font"));
    assert_eq!(doc.header.default_size, Some(Size { width: 3, height: 2 }));
    let dp = doc.header.default_palette.as_ref().unwrap();
    assert_eq!(dp.entries.len(), 2);
    assert_eq!(dp.entries[0].0, '#');
    assert_eq!(dp.entries[1].0, '.');
    assert_eq!(doc.glyphs.len(), 1);
    let g = &doc.glyphs[0];
    assert_eq!(g.name, "A");
    assert_eq!(g.unicode.as_deref(), Some("U+0041"));
    assert_eq!(g.char_repr, Some('A'));
    assert_eq!(g.size, Some(Size { width: 3, height: 2 }));
    assert_eq!(g.palette.get('.').map(|s| s.as_str()), Some("#000"));
    assert_eq!(g.bitmap, vec!["#.#".to_string(), ".#.".to_string()]);
    assert!(g.validation_warnings.is_empty());
}

#[test]
fn name_mismatch_is_fatal() {
    let r = parse_gtf_content("GLYPH A\nEND GLYPH B\n");
    let e = r.expect_err("must fail");
    assert_eq!(e, "Line 2: END GLYPH name mismatch: Found 'B', expected 'A'.");
}

#[test]
fn early_end_data_is_a_warning() {
    let text = "GLYPH A\nSIZE 3x2\nPALETTE\n# #FFFFFF\nEND PALETTE\nDATA\n###\nEND DATA\nEND GLYPH A\n";
    let doc = parse_gtf_content(text).expect("parses");
    let g = &doc.glyphs[0];
    assert_eq!(g.bitmap, vec!["###".to_string()]);
    assert_eq!(g.validation_warnings.len(), 1);
    assert!(g.validation_warnings[0].to_lowercase().contains("expected 2 lines, found 1"));
}

#[test]
fn unknown_palette_char_is_a_warning() {
    let text = "GLYPH A\nSIZE 2x1\nPALETTE\n# #FFFFFF\nEND PALETTE\nDATA\n#X\nEND DATA\nEND GLYPH A\n";
    let doc = parse_gtf_content(text).expect("parses");
    let g = &doc.glyphs[0];
    assert_eq!(g.bitmap, vec!["#X".to_string()]);
    assert_eq!(g.validation_warnings.len(), 1);
    assert_eq!(
        g.validation_warnings[0],
        "Line 7: Invalid character 'X' at position 2 in bitmap for glyph 'A'. Character not found in palette."
    );
}

#[test]
fn char_line_with_space_value() {
    let doc = parse_gtf_content("GLYPH space\nCHAR \nEND GLYPH space\n").expect("parses");
    assert_eq!(doc.glyphs[0].char_repr, Some(' '));
}

#[test]
fn char_line_without_value_fails() {
    let e = parse_gtf_content("GLYPH A\nCHAR\nEND GLYPH A\n").unwrap_err();
    assert!(e.starts_with("Line 2: Invalid CHAR format"));
    assert!(e.contains("missing character"));
}

#[test]
fn char_line_with_two_chars_fails() {
    let e = parse_gtf_content("GLYPH A\nCHAR ab\nEND GLYPH A\n").unwrap_err();
    assert_eq!(
        e,
        "Line 2: Invalid CHAR format: 'CHAR ab'. Expected exactly one character after 'CHAR ', found 2 characters."
    );
}

#[test]
fn end_of_input_in_data_is_salvaged() {
    let text = "GLYPH A\nSIZE 3x2\nPALETTE\n# #FFF\nEND PALETTE\nDATA\n###";
    let doc = parse_gtf_content(text).expect("salvaged");
    let g = &doc.glyphs[0];
    assert_eq!(g.bitmap.len(), 1);
    let last = g.validation_warnings.last().unwrap();
    assert_eq!(
        last,
        "Parsing ended while in bitmap section for glyph 'A'. Expected 2 lines, found 1. Missing END DATA or END GLYPH?"
    );
}

#[test]
fn end_of_input_in_header_fails() {
    let e = parse_gtf_content("HEADER\nFONT x\n").unwrap_err();
    assert_eq!(e, "Parsing ended unexpectedly in state: InHeader. Missing END statement?");
}

#[test]
fn unknown_header_key_fails() {
    let e = parse_gtf_content("HEADER\nCOLOR red\nEND HEADER\n").unwrap_err();
    assert_eq!(e, "Line 2: Unknown header key: 'COLOR'");
}

#[test]
fn header_line_without_value_fails() {
    let e = parse_gtf_content("HEADER\nFONT\nEND HEADER\n").unwrap_err();
    assert_eq!(e, "Line 2: Invalid header line format: 'FONT'. Expected 'KEY value'.");
}

#[test]
fn default_palette_with_value_fails() {
    let e = parse_gtf_content("HEADER\nDEFAULT_PALETTE x\nEND HEADER\n").unwrap_err();
    assert_eq!(e, "Line 2: DEFAULT_PALETTE keyword should not have a value on the same line.");
}

#[test]
fn bad_size_text_fails() {
    let e = parse_gtf_content("GLYPH A\nSIZE 3by2\nEND GLYPH A\n").unwrap_err();
    assert_eq!(e, "Line 2: Invalid SIZE format: '3by2'. Expected 'WxH'.");
    let e = parse_gtf_content("GLYPH A\nSIZE ax2\nEND GLYPH A\n").unwrap_err();
    assert_eq!(e, "Line 2: Invalid width: a. invalid digit found in string");
    let e = parse_gtf_content("GLYPH A\nSIZE 3x\nEND GLYPH A\n").unwrap_err();
    assert_eq!(e, "Line 2: Invalid height: . cannot parse integer from empty string");
    let e = parse_gtf_content("GLYPH A\nSIZE 3x99999999999\nEND GLYPH A\n").unwrap_err();
    assert_eq!(e, "Line 2: Invalid height: 99999999999. number too large to fit in target type");
}

#[test]
fn zero_size_fails() {
    let e = parse_gtf_content("GLYPH A\nSIZE 0x2\nEND GLYPH A\n").unwrap_err();
    assert_eq!(e, "Line 2: Invalid width: 0. Size must be positive.");
}

#[test]
fn size_parse_accepts_plus_sign() {
    assert_eq!(Size::parse("+8x16"), Ok(Size { width: 8, height: 16 }));
    assert_eq!("12x7".parse::<Size>(), Ok(Size { width: 12, height: 7 }));
    assert!(Size::parse("1x2x3").is_err());
}

#[test]
fn duplicate_palette_key_fails() {
    let text = "GLYPH A\nPALETTE\n# #FFF\n# #000\nEND PALETTE\nEND GLYPH A\n";
    let e = parse_gtf_content(text).unwrap_err();
    assert_eq!(e, "Line 4: Error parsing palette entry: Duplicate palette definition for character '#'");
}

#[test]
fn second_palette_block_is_rejected() {
    let text = "GLYPH A\nPALETTE\nEND PALETTE\nPALETTE\nEND GLYPH A\n";
    let e = parse_gtf_content(text).unwrap_err();
    assert_eq!(e, "Line 4: Expected END GLYPH for glyph 'A', found 'PALETTE'.");
    let text = "GLYPH A\nSIZE 1x1\nPALETTE\n";
    let doc = parse_gtf_content(text);
    assert!(doc.is_err());
}

#[test]
fn malformed_palette_lines_fail() {
    let e = parse_gtf_content("GLYPH A\nPALETTE\n#\nEND PALETTE\nEND GLYPH A\n").unwrap_err();
    assert_eq!(e, "Line 3: Error parsing palette entry: Invalid palette line format: '#'. Expected 'char #HEXCOLOR'.");
    let e = parse_gtf_content("GLYPH A\nPALETTE\nab #FFF\nEND PALETTE\nEND GLYPH A\n").unwrap_err();
    assert_eq!(e, "Line 3: Error parsing palette entry: Invalid palette character definition: 'ab'. Expected a single character.");
    let e = parse_gtf_content("GLYPH A\nPALETTE\n# FFFFFF\nEND PALETTE\nEND GLYPH A\n").unwrap_err();
    assert_eq!(e, "Line 3: Error parsing palette entry: Invalid palette color format: 'FFFFFF'. Expected '#RRGGBB' or '#RGB'.");
    let e = parse_gtf_content("HEADER\nDEFAULT_PALETTE\n# #FF\nEND HEADER\n").unwrap_err();
    assert_eq!(e, "Line 3: Error parsing default palette entry: Invalid palette color format: '#FF'. Expected '#RRGGBB' or '#RGB'.");
}

#[test]
fn data_keyword_expected_after_palette() {
    let text = "GLYPH A\nSIZE 1x1\nPALETTE\n# #FFF\nEND PALETTE\n#\nEND GLYPH A\n";
    let e = parse_gtf_content(text).unwrap_err();
    assert_eq!(e, "Line 6: Expected DATA keyword after palette for glyph 'A', found '#'.");
}

#[test]
fn size_without_data_fails() {
    let e = parse_gtf_content("GLYPH A\nSIZE 1x1\nEND GLYPH A\n").unwrap_err();
    assert_eq!(
        e,
        "Line 3: END GLYPH found for 'A' but no bitmap data was provided (SIZE was defined)."
    );
}

#[test]
fn bad_unicode_and_unknown_key_fail() {
    let e = parse_gtf_content("GLYPH A\nUNICODE 0041\nEND GLYPH A\n").unwrap_err();
    assert_eq!(e, "Line 2: Invalid UNICODE format: '0041'. Expected 'U+XXXX'.");
    let e = parse_gtf_content("GLYPH A\nWIDTH 3\nEND GLYPH A\n").unwrap_err();
    assert_eq!(e, "Line 2: Unknown or invalid glyph metadata key: 'WIDTH'");
}

#[test]
fn extra_rows_are_ignored_with_warning() {
    let text = "GLYPH A\nSIZE 1x1\nPALETTE\n# #FFF\nEND PALETTE\nDATA\n#\n#\nEND DATA\nEND GLYPH A\n";
    let doc = parse_gtf_content(text).unwrap();
    let g = &doc.glyphs[0];
    assert_eq!(g.bitmap, vec!["#".to_string()]);
    assert_eq!(
        g.validation_warnings,
        vec!["Line 8: Expected END DATA after 1 bitmap lines for glyph 'A', found '#'. Ignoring line.".to_string()]
    );
}

#[test]
fn width_mismatch_is_kept_with_warning() {
    let text = "GLYPH A\nSIZE 3x1\nPALETTE\n# #FFF\nEND PALETTE\nDATA\n##\nEND DATA\nEND GLYPH A\n";
    let doc = parse_gtf_content(text).unwrap();
    let g = &doc.glyphs[0];
    assert_eq!(g.bitmap, vec!["##".to_string()]);
    assert_eq!(
        g.validation_warnings,
        vec!["Line 7: Bitmap line length (2) does not match expected width (3) for glyph 'A'. Loading as-is.".to_string()]
    );
}

#[test]
fn row_without_palette_warns_once() {
    let text = "GLYPH A\nSIZE 2x1\nDATA\n##\nEND DATA\nEND GLYPH A\n";
    let doc = parse_gtf_content(text).unwrap();
    let g = &doc.glyphs[0];
    assert_eq!(g.bitmap, vec!["##".to_string()]);
    assert_eq!(
        g.validation_warnings,
        vec!["Line 4: Cannot validate bitmap characters for glyph 'A' because palette data is missing unexpectedly.".to_string()]
    );
}

#[test]
fn comments_outside_blocks_and_crlf_are_ignored() {
    let text = "# a comment\r\nGLYPH  dot \r\n\r\n   END GLYPH  dot\r\n";
    let doc = parse_gtf_content(text).unwrap();
    assert_eq!(doc.glyphs.len(), 1);
    assert_eq!(doc.glyphs[0].name, " dot");
}

#[test]
fn duplicate_glyph_names_are_kept() {
    let doc = parse_gtf_content("GLYPH A\nEND GLYPH A\nGLYPH A\nEND GLYPH A\n").unwrap();
    assert_eq!(doc.glyphs.len(), 2);
}

#[test]
fn empty_input_gives_empty_document() {
    let doc = parse_gtf_content("").unwrap();
    assert!(doc.glyphs.is_empty());
    assert!(doc.header.font_name.is_none());
}

#[test]
fn char_space_after_size() {
    let text = "GLYPH sp\nSIZE 1x1\nCHAR \nPALETTE\n. #000\nEND PALETTE\nDATA\n.\nEND DATA\nEND GLYPH sp\n";
    let doc = parse_gtf_content(text).unwrap();
    assert_eq!(doc.glyphs[0].char_repr, Some(' '));
    assert_eq!(doc.glyphs[0].bitmap, vec![".".to_string()]);
}

#[test]
fn row_before_data_is_not_a_row() {
    let e = parse_gtf_content("GLYPH A\nSIZE 2x1\n##\nEND GLYPH A\n").unwrap_err();
    assert_eq!(e, "Line 3: Invalid glyph metadata line format: '##'. Expected 'KEY value'.");
}
