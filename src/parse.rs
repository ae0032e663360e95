//! Reading GTF text: a line-by-line state machine that builds a document,
//! stops on structural faults and records content faults as glyph warnings.
use vstd::prelude::*;

use crate::text::{
    chars_of, copy_range, dec, equals_at, index_of, index_of_from, lines_from, lines_of,
    next_line, non_ws_from, non_ws_index, push_dec, push_range, push_str, range_equals,
    starts_with, starts_with_at, string_from, string_of_range, string_of_str, trim, trim_bounds,
    trim_start, utf8_len, utf8_len_capped, ws_from, ws_index,
};
use crate::types::{
    empty_doc_model, has_key, new_glyph_model, put, strings_view, DocModel, EntriesModel, Glyph,
    GlyphModel, GtfDocument, GtfHeader, HeaderModel, Palette, Size,
};

verus! {

/// Where the reader stands between two lines.
#[derive(Clone, Copy, Debug, PartialEq, Eq, Structural)]
pub enum ParseState {
    Searching,
    InHeader,
    InDefaultPalette,
    InGlyphDefinition,
    InPalette,
    ExpectingDataKeyword,
    InBitmap,
    ExpectingEndGlyph,
}

pub open spec fn state_name(st: ParseState) -> Seq<char> {
    match st {
        ParseState::Searching => "Searching"@,
        ParseState::InHeader => "InHeader"@,
        ParseState::InDefaultPalette => "InDefaultPalette"@,
        ParseState::InGlyphDefinition => "InGlyphDefinition"@,
        ParseState::InPalette => "InPalette"@,
        ParseState::ExpectingDataKeyword => "ExpectingDataKeyword"@,
        ParseState::InBitmap => "InBitmap"@,
        ParseState::ExpectingEndGlyph => "ExpectingEndGlyph"@,
    }
}

/// The states in which a glyph is open.
pub open spec fn in_glyph(st: ParseState) -> bool {
    !(st == ParseState::Searching || st == ParseState::InHeader || st
        == ParseState::InDefaultPalette)
}

/// Everything the reader carries from one line to the next.
pub struct ContextModel {
    pub doc: DocModel,
    /// The open glyph; a nameless blank one when no glyph is open.
    pub glyph: GlyphModel,
    /// Rows read since the data block opened.
    pub collected: nat,
    /// Whether the open glyph has had its `PALETTE` block.
    pub palette_seen: bool,
}

pub open spec fn initial_context() -> ContextModel {
    ContextModel {
        doc: empty_doc_model(),
        glyph: new_glyph_model(Seq::empty()),
        collected: 0,
        palette_seen: false,
    }
}

// ---- messages ----
/// A fatal message with the 1-based line number in front.
pub open spec fn at(n: nat, m: Seq<char>) -> Seq<char> {
    "Line "@ + dec(n) + ": "@ + m
}

pub open spec fn quoted(s: Seq<char>) -> Seq<char> {
    "'"@ + s + "'"@
}

pub open spec fn width_warning(n: nat, len: nat, width: nat, name: Seq<char>) -> Seq<char> {
    at(
        n,
        "Bitmap line length ("@ + dec(len) + ") does not match expected width ("@ + dec(width)
            + ") for glyph "@ + quoted(name) + ". Loading as-is."@,
    )
}

pub open spec fn bad_char_warning(n: nat, c: char, column: nat, name: Seq<char>) -> Seq<char> {
    at(
        n,
        "Invalid character "@ + quoted(seq![c]) + " at position "@ + dec(column)
            + " in bitmap for glyph "@ + quoted(name) + ". Character not found in palette."@,
    )
}

pub open spec fn no_palette_warning(n: nat, name: Seq<char>) -> Seq<char> {
    at(
        n,
        "Cannot validate bitmap characters for glyph "@ + quoted(name)
            + " because palette data is missing unexpectedly."@,
    )
}

pub open spec fn extra_line_warning(n: nat, height: nat, name: Seq<char>, t: Seq<char>) -> Seq<
    char,
> {
    at(
        n,
        "Expected END DATA after "@ + dec(height) + " bitmap lines for glyph "@ + quoted(name)
            + ", found "@ + quoted(t) + ". Ignoring line."@,
    )
}

pub open spec fn early_end_warning(n: nat, name: Seq<char>, height: nat, found: nat) -> Seq<char> {
    at(
        n,
        "END DATA came early for glyph "@ + quoted(name) + ". Expected "@ + dec(height)
            + " lines, found "@ + dec(found) + "."@,
    )
}

pub open spec fn eof_warning(name: Seq<char>, height: nat, found: nat) -> Seq<char> {
    "Parsing ended while in bitmap section for glyph "@ + quoted(name) + ". Expected "@ + dec(
        height,
    ) + " lines, found "@ + dec(found) + ". Missing END DATA or END GLYPH?"@
}

// ---- numbers and sizes ----
pub open spec fn is_digit(c: char) -> bool {
    48 <= (c as u32) && (c as u32) <= 57
}

pub open spec fn digit_value(c: char) -> nat {
    ((c as u32) - 48) as nat
}

/// The value of the digits `d[i..]` read after `acc`, as `u32`'s parser reads
/// them from the left: the first bad digit or the first overflow decides.
pub open spec fn digits_value(d: Seq<char>, i: int, acc: nat) -> Result<nat, Seq<char>>
    decreases d.len() - i,
{
    if i < 0 || i >= d.len() {
        Ok(acc)
    } else if !is_digit(d[i]) {
        Err("invalid digit found in string"@)
    } else if acc * 10 + digit_value(d[i]) > u32::MAX {
        Err("number too large to fit in target type"@)
    } else {
        digits_value(d, i + 1, acc * 10 + digit_value(d[i]))
    }
}

/// Decimal text to `u32`, with an optional leading `+`.
pub open spec fn u32_of(s: Seq<char>) -> Result<u32, Seq<char>> {
    if s.len() == 0 {
        Err("cannot parse integer from empty string"@)
    } else if s.len() == 1 && s[0] == '+' {
        Err("invalid digit found in string"@)
    } else {
        match digits_value(s, if s[0] == '+' { 1 } else { 0 }, 0) {
            Ok(v) => Ok(v as u32),
            Err(e) => Err(e),
        }
    }
}

/// One positive component of a size, `what` naming it in the message.
pub open spec fn size_part(s: Seq<char>, what: Seq<char>) -> Result<u32, Seq<char>> {
    match u32_of(s) {
        Err(e) => Err("Invalid "@ + what + ": "@ + s + ". "@ + e),
        Ok(v) => if v == 0 {
            Err("Invalid "@ + what + ": "@ + s + ". Size must be positive."@)
        } else {
            Ok(v)
        },
    }
}

/// `<width>x<height>`, both positive.
pub open spec fn size_of_text(s: Seq<char>) -> Result<Size, Seq<char>> {
    let k = index_of_from(s, 'x', 0);
    if k >= s.len() || index_of_from(s, 'x', k + 1) < s.len() {
        Err("Invalid SIZE format: "@ + quoted(s) + ". Expected 'WxH'."@)
    } else {
        match size_part(s.subrange(0, k), "width"@) {
            Err(e) => Err(e),
            Ok(w) => match size_part(s.subrange(k + 1, s.len() as int), "height"@) {
                Err(e) => Err(e),
                Ok(h) => Ok(Size { width: w, height: h }),
            },
        }
    }
}

// ---- line kinds ----
/// A `KEY value` line of the header.
pub open spec fn header_line(t: Seq<char>, h: HeaderModel) -> Result<HeaderModel, Seq<char>> {
    let k = index_of_from(t, ' ', 0);
    if k >= t.len() {
        Err("Invalid header line format: "@ + quoted(t) + ". Expected 'KEY value'."@)
    } else {
        let key = t.subrange(0, k);
        let value = trim(t.subrange(k + 1, t.len() as int));
        if key == "FONT"@ {
            Ok(HeaderModel { font_name: Some(value), ..h })
        } else if key == "VERSION"@ {
            Ok(HeaderModel { version: Some(value), ..h })
        } else if key == "AUTHOR"@ {
            Ok(HeaderModel { author: Some(value), ..h })
        } else if key == "DESCRIPTION"@ {
            Ok(HeaderModel { description: Some(value), ..h })
        } else if key == "DEFAULT_SIZE"@ {
            match size_of_text(value) {
                Err(e) => Err(e),
                Ok(s) => Ok(HeaderModel { default_size: Some(s), ..h }),
            }
        } else if key == "DEFAULT_PALETTE"@ {
            Err("DEFAULT_PALETTE keyword should not have a value on the same line."@)
        } else {
            Err("Unknown header key: "@ + quoted(key))
        }
    }
}

/// A `<char> <#color>` line: exactly two whitespace-separated words, the first
/// a single character, the second `#` and 3 or 6 more bytes of UTF-8.
pub open spec fn palette_line(t: Seq<char>, p: EntriesModel) -> Result<EntriesModel, Seq<char>> {
    let a = non_ws_from(t, 0);
    let i = ws_from(t, a);
    let j = non_ws_from(t, i);
    let k = ws_from(t, j);
    if a >= t.len() || j >= t.len() || non_ws_from(t, k) < t.len() {
        Err("Invalid palette line format: "@ + quoted(t) + ". Expected 'char #HEXCOLOR'."@)
    } else if i - a != 1 {
        Err("Invalid palette character definition: "@ + quoted(t.subrange(a, i))
            + ". Expected a single character."@)
    } else if !(t[j] == '#' && (utf8_len(t.subrange(j, k)) == 7 || utf8_len(t.subrange(j, k))
        == 4)) {
        Err("Invalid palette color format: "@ + quoted(t.subrange(j, k))
            + ". Expected '#RRGGBB' or '#RGB'."@)
    } else if has_key(p, t[a]) {
        Err("Duplicate palette definition for character "@ + quoted(seq![t[a]]))
    } else {
        Ok(put(p, t[a], t.subrange(j, k)))
    }
}

/// A metadata line of a glyph: `UNICODE`, `CHAR` or `SIZE`.
pub open spec fn glyph_meta_line(l: Seq<char>, g: GlyphModel) -> Result<GlyphModel, Seq<char>> {
    if starts_with(l, "CHAR"@) {
        if l.len() < 5 {
            Err("Invalid CHAR format: "@ + quoted(l)
                + ". Expected 'CHAR <character>' (missing character)."@)
        } else if starts_with(l, "CHAR "@) {
            let v = l.subrange(5, l.len() as int);
            if trim(v).len() == 0 {
                Ok(GlyphModel { char_repr: Some(' '), ..g })
            } else if v.len() != 1 {
                Err("Invalid CHAR format: "@ + quoted(l)
                    + ". Expected exactly one character after 'CHAR ', found "@ + dec(v.len())
                    + " characters."@)
            } else {
                Ok(GlyphModel { char_repr: Some(v[0]), ..g })
            }
        } else {
            Err("Invalid CHAR format: "@ + quoted(l)
                + ". Expected 'CHAR <character>' (missing space after CHAR)."@)
        }
    } else {
        let k = index_of_from(l, ' ', 0);
        if k >= l.len() {
            Err("Invalid glyph metadata line format: "@ + quoted(l) + ". Expected 'KEY value'."@)
        } else {
            let key = l.subrange(0, k);
            let value = trim(l.subrange(k + 1, l.len() as int));
            if key == "UNICODE"@ {
                if !starts_with(value, "U+"@) {
                    Err("Invalid UNICODE format: "@ + quoted(value) + ". Expected 'U+XXXX'."@)
                } else {
                    Ok(GlyphModel { unicode: Some(value), ..g })
                }
            } else if key == "SIZE"@ {
                match size_of_text(value) {
                    Err(e) => Err(e),
                    Ok(s) => Ok(GlyphModel { size: Some(s), ..g }),
                }
            } else {
                Err("Unknown or invalid glyph metadata key: "@ + quoted(key))
            }
        }
    }
}

/// An `END GLYPH <name>` line that closes the glyph called `name`.
pub open spec fn end_glyph_check(t: Seq<char>, name: Seq<char>) -> Result<(), Seq<char>> {
    if !starts_with(t, "END GLYPH "@) {
        Err("Invalid END GLYPH format: "@ + quoted(t) + "."@)
    } else if t.subrange(10, t.len() as int) != name {
        Err("END GLYPH name mismatch: Found "@ + quoted(t.subrange(10, t.len() as int))
            + ", expected "@ + quoted(name) + "."@)
    } else {
        Ok(())
    }
}

// ---- rows ----
/// Warnings for the characters among the first `k` of `row` that the palette lacks.
pub open spec fn char_warnings(row: Seq<char>, p: EntriesModel, name: Seq<char>, n: nat, k: nat) -> Seq<
    Seq<char>,
>
    decreases k,
{
    if k == 0 || k > row.len() {
        Seq::empty()
    } else {
        char_warnings(row, p, name, n, (k - 1) as nat) + if has_key(p, row[k - 1]) {
            Seq::<Seq<char>>::empty()
        } else {
            seq![bad_char_warning(n, row[k - 1], k, name)]
        }
    }
}

/// Warnings from checking a row against the palette.
pub open spec fn row_warnings(row: Seq<char>, p: EntriesModel, name: Seq<char>, n: nat) -> Seq<
    Seq<char>,
> {
    if p.len() > 0 {
        char_warnings(row, p, name, n, row.len())
    } else {
        seq![no_palette_warning(n, name)]
    }
}

pub open spec fn add_warning(g: GlyphModel, w: Seq<char>) -> GlyphModel {
    GlyphModel { warnings: g.warnings.push(w), ..g }
}

/// The glyph after taking `t` (line `n`) as its next row: width warning,
/// palette warnings, then the row itself, stored as it is.
pub open spec fn take_row(g: GlyphModel, t: Seq<char>, n: nat) -> GlyphModel {
    let width = g.size->Some_0.width as nat;
    let w1 = if t.len() != width {
        g.warnings.push(width_warning(n, t.len(), width, g.name))
    } else {
        g.warnings
    };
    GlyphModel {
        warnings: w1 + row_warnings(t, g.palette, g.name, n),
        bitmap: g.bitmap.push(t),
        ..g
    }
}

/// The context after the open glyph went into the document.
pub open spec fn commit(c: ContextModel) -> ContextModel {
    ContextModel {
        doc: DocModel { glyphs: c.doc.glyphs.push(c.glyph), ..c.doc },
        glyph: new_glyph_model(Seq::empty()),
        ..c
    }
}

pub type StepResult = Result<(ParseState, ContextModel), Seq<char>>;

/// One line `raw`, numbered `n`, read in state `st`.
#[verifier::opaque]
pub open spec fn step(st: ParseState, c: ContextModel, n: nat, raw: Seq<char>) -> StepResult {
    let t = trim(raw);
    let g = c.glyph;
    if t.len() == 0 {
        Ok((st, c))
    } else {
        match st {
            ParseState::Searching => if t == "HEADER"@ {
                Ok((ParseState::InHeader, c))
            } else if starts_with(t, "GLYPH "@) {
                let name = t.subrange(6, t.len() as int);
                if name.len() == 0 {
                    Err(at(n, "Invalid GLYPH definition, missing name."@))
                } else {
                    Ok(
                        (
                            ParseState::InGlyphDefinition,
                            ContextModel {
                                glyph: new_glyph_model(name),
                                collected: 0,
                                palette_seen: false,
                                ..c
                            },
                        ),
                    )
                }
            } else {
                Ok((st, c))
            },
            ParseState::InHeader => if t == "DEFAULT_PALETTE"@ {
                Ok((ParseState::InDefaultPalette, c))
            } else if t == "END HEADER"@ {
                Ok((ParseState::Searching, c))
            } else {
                match header_line(t, c.doc.header) {
                    Err(e) => Err(at(n, e)),
                    Ok(h) => Ok(
                        (st, ContextModel { doc: DocModel { header: h, ..c.doc }, ..c }),
                    ),
                }
            },
            ParseState::InDefaultPalette => if t == "END HEADER"@ {
                Ok((ParseState::Searching, c))
            } else {
                match palette_line(t, c.doc.header.default_palette) {
                    Err(e) => Err(at(n, "Error parsing default palette entry: "@ + e)),
                    Ok(p) => Ok(
                        (
                            st,
                            ContextModel {
                                doc: DocModel {
                                    header: HeaderModel { default_palette: p, ..c.doc.header },
                                    ..c.doc
                                },
                                ..c
                            },
                        ),
                    ),
                }
            },
            ParseState::InGlyphDefinition => if t == "PALETTE"@ {
                if c.palette_seen {
                    Err(at(n, "Duplicate PALETTE definition for glyph "@ + quoted(g.name) + "."@))
                } else {
                    Ok((ParseState::InPalette, ContextModel { palette_seen: true, ..c }))
                }
            } else if starts_with(t, "END GLYPH "@) {
                match end_glyph_check(t, g.name) {
                    Err(e) => Err(at(n, e)),
                    Ok(_) => if g.size is Some && g.bitmap.len() == 0 {
                        Err(
                            at(
                                n,
                                "END GLYPH found for "@ + quoted(g.name)
                                    + " but no bitmap data was provided (SIZE was defined)."@,
                            ),
                        )
                    } else {
                        Ok((ParseState::Searching, commit(c)))
                    },
                }
            } else if g.size is Some && t == "DATA"@ {
                // A glyph with a size and no palette block opens its data here.
                Ok((ParseState::InBitmap, ContextModel { collected: 0, ..c }))
            } else {
                let l = if starts_with(trim_start(raw), "CHAR"@) {
                    trim_start(raw)
                } else {
                    t
                };
                match glyph_meta_line(l, g) {
                    Err(e) => Err(at(n, e)),
                    Ok(g2) => Ok((st, ContextModel { glyph: g2, ..c })),
                }
            },
            ParseState::InPalette => if t == "END PALETTE"@ {
                if g.size is Some {
                    Ok((ParseState::ExpectingDataKeyword, c))
                } else {
                    Ok((ParseState::ExpectingEndGlyph, c))
                }
            } else {
                match palette_line(t, g.palette) {
                    Err(e) => Err(at(n, "Error parsing palette entry: "@ + e)),
                    Ok(p) => Ok(
                        (st, ContextModel { glyph: GlyphModel { palette: p, ..g }, ..c }),
                    ),
                }
            },
            ParseState::ExpectingDataKeyword => if t == "DATA"@ {
                Ok((ParseState::InBitmap, ContextModel { collected: 0, ..c }))
            } else {
                Err(
                    at(
                        n,
                        "Expected DATA keyword after palette for glyph "@ + quoted(g.name)
                            + ", found "@ + quoted(t) + "."@,
                    ),
                )
            },
            ParseState::InBitmap => {
                let height = g.size->Some_0.height as nat;
                if c.collected < height {
                    // A block that ends before `height` rows keeps the rows it has.
                    if t == "END DATA"@ {
                        Ok(
                            (
                                ParseState::ExpectingEndGlyph,
                                ContextModel {
                                    glyph: add_warning(
                                        g,
                                        early_end_warning(n, g.name, height, c.collected),
                                    ),
                                    ..c
                                },
                            ),
                        )
                    } else {
                        Ok(
                            (
                                st,
                                ContextModel {
                                    glyph: take_row(g, t, n),
                                    collected: c.collected + 1,
                                    ..c
                                },
                            ),
                        )
                    }
                } else if t == "END DATA"@ {
                    Ok((ParseState::ExpectingEndGlyph, c))
                } else {
                    Ok(
                        (
                            st,
                            ContextModel {
                                glyph: add_warning(g, extra_line_warning(n, height, g.name, t)),
                                ..c
                            },
                        ),
                    )
                }
            },
            ParseState::ExpectingEndGlyph => if starts_with(t, "END GLYPH "@) {
                match end_glyph_check(t, g.name) {
                    Err(e) => Err(at(n, e)),
                    Ok(_) => Ok((ParseState::Searching, commit(c))),
                }
            } else {
                Err(
                    at(
                        n,
                        "Expected END GLYPH for glyph "@ + quoted(g.name) + ", found "@ + quoted(t)
                            + "."@,
                    ),
                )
            },
        }
    }
}

/// The lines `ls`, the first numbered `n`, read from state `st`.
pub open spec fn run(ls: Seq<Seq<char>>, n: nat, st: ParseState, c: ContextModel) -> StepResult
    decreases ls.len(),
{
    if ls.len() == 0 {
        Ok((st, c))
    } else {
        match step(st, c, n, ls[0]) {
            Err(e) => Err(e),
            Ok((st2, c2)) => run(ls.drop_first(), n + 1, st2, c2),
        }
    }
}

/// What the end of the input makes of the reader's last state.
pub open spec fn finish(st: ParseState, c: ContextModel) -> Result<DocModel, Seq<char>> {
    if st == ParseState::InBitmap {
        let g = c.glyph;
        Ok(
            DocModel {
                glyphs: c.doc.glyphs.push(
                    add_warning(g, eof_warning(g.name, g.size->Some_0.height as nat, c.collected)),
                ),
                ..c.doc
            },
        )
    } else if st != ParseState::Searching {
        Err("Parsing ended unexpectedly in state: "@ + state_name(st) + ". Missing END statement?"@)
    } else {
        Ok(c.doc)
    }
}

/// The document that a GTF text describes, or the fatal error that stops it.
pub open spec fn parse_spec(text: Seq<char>) -> Result<DocModel, Seq<char>> {
    match run(lines_of(text), 1, ParseState::Searching, initial_context()) {
        Err(e) => Err(e),
        Ok((st, c)) => finish(st, c),
    }
}

// ---- exec: numbers and sizes ----
/// `u32_of`, computed.
fn parse_u32(s: &[char]) -> (r: Result<u32, &'static str>)
    ensures
        match u32_of(s@) {
            Ok(v) => r == Ok::<u32, &'static str>(v),
            Err(e) => r is Err && r->Err_0@ == e,
        },
{
    if s.len() == 0 {
        return Err("cannot parse integer from empty string");
    }
    if s.len() == 1 && s[0] == '+' {
        return Err("invalid digit found in string");
    }
    let start: usize = if s[0] == '+' {
        1
    } else {
        0
    };
    let mut i = start;
    let mut acc: u64 = 0;
    while i < s.len()
        invariant
            start <= i <= s@.len(),
            s@.len() > 0,
            start == (if s@[0] == '+' { 1int } else { 0int }),
            !(s@.len() == 1 && s@[0] == '+'),
            acc <= u32::MAX,
            digits_value(s@, start as int, 0) == digits_value(s@, i as int, acc as nat),
        decreases s@.len() - i,
    {
        let u = s[i] as u32;
        if !(48 <= u && u <= 57) {
            proof {
                assert(!is_digit(s@[i as int]));
                assert(digits_value(s@, i as int, acc as nat) == Err::<nat, Seq<char>>(
                    "invalid digit found in string"@,
                ));
            }
            return Err("invalid digit found in string");
        }
        let next = acc * 10 + (u - 48) as u64;
        if next > 4294967295 {
            return Err("number too large to fit in target type");
        }
        acc = next;
        i = i + 1;
    }
    Ok(acc as u32)
}

/// `size_part`, computed.
fn parse_size_part(s: &[char], what: &str) -> (r: Result<u32, String>)
    ensures
        match size_part(s@, what@) {
            Ok(v) => r matches Ok(x) && x == v,
            Err(e) => r matches Err(m) && m@ == e,
        },
{
    match parse_u32(s) {
        Ok(v) => {
            if v == 0 {
                let mut m: Vec<char> = Vec::new();
                push_str(&mut m, "Invalid ");
                push_str(&mut m, what);
                push_str(&mut m, ": ");
                push_range(&mut m, s, 0, s.len());
                push_str(&mut m, ". Size must be positive.");
                proof {
                    assert(s@.subrange(0, s@.len() as int) =~= s@);
                    assert(m@ =~= "Invalid "@ + what@ + ": "@ + s@ + ". Size must be positive."@);
                }
                Err(string_from(m.as_slice()))
            } else {
                Ok(v)
            }
        },
        Err(e) => {
            let mut m: Vec<char> = Vec::new();
            push_str(&mut m, "Invalid ");
            push_str(&mut m, what);
            push_str(&mut m, ": ");
            push_range(&mut m, s, 0, s.len());
            push_str(&mut m, ". ");
            push_str(&mut m, e);
            proof {
                assert(s@.subrange(0, s@.len() as int) =~= s@);
                assert(m@ =~= "Invalid "@ + what@ + ": "@ + s@ + ". "@ + e@);
            }
            Err(string_from(m.as_slice()))
        },
    }
}

/// `size_of_text`, computed.
pub fn parse_size(s: &[char]) -> (r: Result<Size, String>)
    ensures
        match size_of_text(s@) {
            Ok(v) => r matches Ok(x) && x == v,
            Err(e) => r matches Err(m) && m@ == e,
        },
{
    let k = index_of(s, 'x', 0);
    if k >= s.len() || index_of(s, 'x', k + 1) < s.len() {
        let mut m: Vec<char> = Vec::new();
        push_str(&mut m, "Invalid SIZE format: '");
        push_range(&mut m, s, 0, s.len());
        push_str(&mut m, "'. Expected 'WxH'.");
        proof {
            reveal_strlit("Invalid SIZE format: '");
            reveal_strlit("Invalid SIZE format: ");
            reveal_strlit("'");
            reveal_strlit("'. Expected 'WxH'.");
            reveal_strlit(". Expected 'WxH'.");
            assert(s@.subrange(0, s@.len() as int) =~= s@);
            assert(m@ =~= "Invalid SIZE format: "@ + quoted(s@) + ". Expected 'WxH'."@);
        }
        return Err(string_from(m.as_slice()));
    }
    let w_text = copy_range(s, 0, k);
    let h_text = copy_range(s, k + 1, s.len());
    let w = match parse_size_part(w_text.as_slice(), "width") {
        Ok(w) => w,
        Err(e) => {
            return Err(e);
        },
    };
    let h = match parse_size_part(h_text.as_slice(), "height") {
        Ok(h) => h,
        Err(e) => {
            return Err(e);
        },
    };
    Ok(Size { width: w, height: h })
}

// ---- exec: messages ----
fn push_quoted(m: &mut Vec<char>, s: &[char], from: usize, to: usize)
    requires
        from <= to <= s@.len(),
    ensures
        final(m)@ == old(m)@ + quoted(s@.subrange(from as int, to as int)),
{
    push_str(m, "'");
    push_range(m, s, from, to);
    push_str(m, "'");
    proof {
        assert(final(m)@ =~= old(m)@ + quoted(s@.subrange(from as int, to as int)));
    }
}

/// `pre` + `'s[from..to]'` + `post`.
fn quote_msg(pre: &str, s: &[char], from: usize, to: usize, post: &str) -> (r: String)
    requires
        from <= to <= s@.len(),
    ensures
        r@ == pre@ + quoted(s@.subrange(from as int, to as int)) + post@,
{
    let mut m: Vec<char> = Vec::new();
    push_str(&mut m, pre);
    push_quoted(&mut m, s, from, to);
    push_str(&mut m, post);
    proof {
        assert(m@ =~= pre@ + quoted(s@.subrange(from as int, to as int)) + post@);
    }
    string_from(m.as_slice())
}

/// `pre` + `'s[from..to]'`.
fn quote_msg_end(pre: &str, s: &[char], from: usize, to: usize) -> (r: String)
    requires
        from <= to <= s@.len(),
    ensures
        r@ == pre@ + quoted(s@.subrange(from as int, to as int)),
{
    let mut m: Vec<char> = Vec::new();
    push_str(&mut m, pre);
    push_quoted(&mut m, s, from, to);
    proof {
        assert(m@ =~= pre@ + quoted(s@.subrange(from as int, to as int)));
    }
    string_from(m.as_slice())
}

/// The message with its line number in front.
fn with_line(n: usize, m: &String) -> (r: String)
    ensures
        r@ == at(n as nat, m@),
{
    let mut v: Vec<char> = Vec::new();
    push_str(&mut v, "Line ");
    push_dec(&mut v, n as u64);
    push_str(&mut v, ": ");
    push_str(&mut v, m.as_str());
    proof {
        assert(v@ =~= at(n as nat, m@));
    }
    string_from(v.as_slice())
}

/// Appends a warning to the glyph.
fn push_warning(glyph: &mut Glyph, w: String)
    ensures
        final(glyph)@ == add_warning(old(glyph)@, w@),
{
    let ghost before = glyph.validation_warnings@;
    glyph.validation_warnings.push(w);
    proof {
        assert(strings_view(glyph.validation_warnings@) =~= strings_view(before).push(w@));
    }
}

impl Size {
    /// A size from `<width>x<height>` text, both parts positive decimal numbers.
    pub fn parse(s: &str) -> (r: Result<Size, String>)
        ensures
            match size_of_text(s@) {
                Ok(v) => r matches Ok(x) && x == v,
                Err(e) => r matches Err(m) && m@ == e,
            },
    {
        let cs = chars_of(s);
        parse_size(cs.as_slice())
    }
}

impl std::str::FromStr for Size {
    type Err = String;

    fn from_str(s: &str) -> Result<Size, String> {
        Size::parse(s)
    }
}

// ---- exec: line kinds ----
/// `header_line`, computed: sets the header field that the line names.
fn parse_header_line(t: &[char], header: &mut GtfHeader) -> (r: Result<(), String>)
    ensures
        final(header).default_palette == old(header).default_palette,
        r is Err ==> *final(header) == *old(header),
        match header_line(t@, old(header)@) {
            Ok(h) => r is Ok && final(header)@ == h,
            Err(e) => r matches Err(m) && m@ == e,
        },
{
    let n = t.len();
    let k = index_of(t, ' ', 0);
    if k >= n {
        proof {
            assert(t@.subrange(0, n as int) =~= t@);
        }
        return Err(quote_msg("Invalid header line format: ", t, 0, n, ". Expected 'KEY value'."));
    }
    let (a, b) = trim_bounds(t, k + 1, n);
    if equals_at(t, 0, k, "FONT") {
        header.font_name = Some(string_of_range(t, a, b));
    } else if equals_at(t, 0, k, "VERSION") {
        header.version = Some(string_of_range(t, a, b));
    } else if equals_at(t, 0, k, "AUTHOR") {
        header.author = Some(string_of_range(t, a, b));
    } else if equals_at(t, 0, k, "DESCRIPTION") {
        header.description = Some(string_of_range(t, a, b));
    } else if equals_at(t, 0, k, "DEFAULT_SIZE") {
        let v = copy_range(t, a, b);
        match parse_size(v.as_slice()) {
            Ok(size) => {
                header.default_size = Some(size);
            },
            Err(e) => {
                return Err(e);
            },
        }
    } else if equals_at(t, 0, k, "DEFAULT_PALETTE") {
        return Err(string_of_str("DEFAULT_PALETTE keyword should not have a value on the same line."));
    } else {
        return Err(quote_msg_end("Unknown header key: ", t, 0, k));
    }
    Ok(())
}

/// `palette_line`, computed: adds the entry the line gives.
fn parse_palette_line(t: &[char], palette: &mut Palette) -> (r: Result<(), String>)
    requires
        old(palette).wf(),
    ensures
        final(palette).wf(),
        r is Err ==> *final(palette) == *old(palette),
        match palette_line(t@, old(palette)@) {
            Ok(p) => r is Ok && final(palette)@ == p,
            Err(e) => r matches Err(m) && m@ == e,
        },
{
    let n = t.len();
    let a = non_ws_index(t, 0);
    let i = ws_index(t, a);
    let j = non_ws_index(t, i);
    let k = ws_index(t, j);
    if a >= n || j >= n || non_ws_index(t, k) < n {
        proof {
            assert(t@.subrange(0, n as int) =~= t@);
        }
        return Err(
            quote_msg("Invalid palette line format: ", t, 0, n, ". Expected 'char #HEXCOLOR'."),
        );
    }
    if i - a != 1 {
        return Err(
            quote_msg(
                "Invalid palette character definition: ",
                t,
                a,
                i,
                ". Expected a single character.",
            ),
        );
    }
    let w = utf8_len_capped(t, j, k);
    if !(t[j] == '#' && (w == 7 || w == 4)) {
        return Err(
            quote_msg(
                "Invalid palette color format: ",
                t,
                j,
                k,
                ". Expected '#RRGGBB' or '#RGB'.",
            ),
        );
    }
    let c = t[a];
    proof {
        assert(t@.subrange(a as int, i as int) =~= seq![t@[a as int]]);
    }
    if palette.contains_key(c) {
        return Err(quote_msg_end("Duplicate palette definition for character ", t, a, i));
    }
    palette.insert(c, string_of_range(t, j, k));
    Ok(())
}

/// `glyph_meta_line`, computed: sets the field that the line names.
fn parse_glyph_meta_line(l: &[char], glyph: &mut Glyph) -> (r: Result<(), String>)
    ensures
        r is Err ==> *final(glyph) == *old(glyph),
        match glyph_meta_line(l@, old(glyph)@) {
            Ok(g) => r is Ok && final(glyph)@ == g,
            Err(e) => r matches Err(m) && m@ == e,
        },
{
    let n = l.len();
    proof {
        assert(l@.subrange(0, n as int) =~= l@);
    }
    if starts_with_at(l, 0, n, "CHAR") {
        if n < 5 {
            return Err(
                quote_msg(
                    "Invalid CHAR format: ",
                    l,
                    0,
                    n,
                    ". Expected 'CHAR <character>' (missing character).",
                ),
            );
        } else if starts_with_at(l, 0, n, "CHAR ") {
            let (va, vb) = trim_bounds(l, 5, n);
            if va == vb {
                glyph.char_repr = Some(' ');
            } else if n - 5 != 1 {
                let mut m: Vec<char> = Vec::new();
                push_str(&mut m, "Invalid CHAR format: ");
                push_quoted(&mut m, l, 0, n);
                push_str(&mut m, ". Expected exactly one character after 'CHAR ', found ");
                push_dec(&mut m, (n - 5) as u64);
                push_str(&mut m, " characters.");
                proof {
                    assert(m@ =~= "Invalid CHAR format: "@ + quoted(l@)
                        + ". Expected exactly one character after 'CHAR ', found "@ + dec(
                        (n - 5) as nat,
                    ) + " characters."@);
                }
                return Err(string_from(m.as_slice()));
            } else {
                glyph.char_repr = Some(l[5]);
            }
        } else {
            return Err(
                quote_msg(
                    "Invalid CHAR format: ",
                    l,
                    0,
                    n,
                    ". Expected 'CHAR <character>' (missing space after CHAR).",
                ),
            );
        }
        return Ok(());
    }
    let k = index_of(l, ' ', 0);
    if k >= n {
        return Err(
            quote_msg(
                "Invalid glyph metadata line format: ",
                l,
                0,
                n,
                ". Expected 'KEY value'.",
            ),
        );
    }
    let (a, b) = trim_bounds(l, k + 1, n);
    if equals_at(l, 0, k, "UNICODE") {
        if !starts_with_at(l, a, b, "U+") {
            return Err(quote_msg("Invalid UNICODE format: ", l, a, b, ". Expected 'U+XXXX'."));
        }
        glyph.unicode = Some(string_of_range(l, a, b));
    } else if equals_at(l, 0, k, "SIZE") {
        let v = copy_range(l, a, b);
        match parse_size(v.as_slice()) {
            Ok(size) => {
                glyph.size = Some(size);
            },
            Err(e) => {
                return Err(e);
            },
        }
    } else {
        return Err(quote_msg_end("Unknown or invalid glyph metadata key: ", l, 0, k));
    }
    Ok(())
}

/// `end_glyph_check`, computed.
fn validate_end_glyph(t: &[char], expected: &[char]) -> (r: Result<(), String>)
    ensures
        match end_glyph_check(t@, expected@) {
            Ok(_) => r is Ok,
            Err(e) => r matches Err(m) && m@ == e,
        },
{
    let n = t.len();
    proof {
        assert(t@.subrange(0, n as int) =~= t@);
    }
    if !starts_with_at(t, 0, n, "END GLYPH ") {
        return Err(quote_msg("Invalid END GLYPH format: ", t, 0, n, "."));
    }
    proof {
        reveal_strlit("END GLYPH ");
    }
    if !range_equals(t, 10, n, expected) {
        let mut m: Vec<char> = Vec::new();
        push_str(&mut m, "END GLYPH name mismatch: Found ");
        push_quoted(&mut m, t, 10, n);
        push_str(&mut m, ", expected ");
        push_quoted(&mut m, expected, 0, expected.len());
        push_str(&mut m, ".");
        proof {
            assert(expected@.subrange(0, expected@.len() as int) =~= expected@);
            assert(m@ =~= "END GLYPH name mismatch: Found "@ + quoted(t@.subrange(10, n as int))
                + ", expected "@ + quoted(expected@) + "."@);
        }
        return Err(string_from(m.as_slice()));
    }
    Ok(())
}

/// `pre` + `'s'` + `post`.
fn quote_whole(pre: &str, s: &[char], post: &str) -> (r: String)
    ensures
        r@ == pre@ + quoted(s@) + post@,
{
    proof {
        assert(s@.subrange(0, s@.len() as int) =~= s@);
    }
    quote_msg(pre, s, 0, s.len(), post)
}

/// `pre` + `'a'` + `mid` + `'b'` + `post`.
fn two_quotes(pre: &str, a: &[char], mid: &str, b: &[char], post: &str) -> (r: String)
    ensures
        r@ == pre@ + quoted(a@) + mid@ + quoted(b@) + post@,
{
    let mut m: Vec<char> = Vec::new();
    push_str(&mut m, pre);
    push_quoted(&mut m, a, 0, a.len());
    push_str(&mut m, mid);
    push_quoted(&mut m, b, 0, b.len());
    push_str(&mut m, post);
    proof {
        assert(a@.subrange(0, a@.len() as int) =~= a@);
        assert(b@.subrange(0, b@.len() as int) =~= b@);
        assert(m@ =~= pre@ + quoted(a@) + mid@ + quoted(b@) + post@);
    }
    string_from(m.as_slice())
}

fn bad_char_msg(n: usize, c: char, column: usize, name: &[char]) -> (r: String)
    ensures
        r@ == bad_char_warning(n as nat, c, column as nat, name@),
{
    let cs = [c];
    let mut m: Vec<char> = Vec::new();
    push_str(&mut m, "Invalid character ");
    push_quoted(&mut m, &cs, 0, 1);
    push_str(&mut m, " at position ");
    push_dec(&mut m, column as u64);
    push_str(&mut m, " in bitmap for glyph ");
    push_quoted(&mut m, name, 0, name.len());
    push_str(&mut m, ". Character not found in palette.");
    proof {
        assert(cs@.subrange(0, 1) =~= seq![c]);
        assert(name@.subrange(0, name@.len() as int) =~= name@);
        assert(m@ =~= "Invalid character "@ + quoted(seq![c]) + " at position "@ + dec(
            column as nat,
        ) + " in bitmap for glyph "@ + quoted(name@) + ". Character not found in palette."@);
    }
    with_line(n, &string_from(m.as_slice()))
}

fn width_msg(n: usize, len: usize, width: u32, name: &[char]) -> (r: String)
    ensures
        r@ == width_warning(n as nat, len as nat, width as nat, name@),
{
    let mut m: Vec<char> = Vec::new();
    push_str(&mut m, "Bitmap line length (");
    push_dec(&mut m, len as u64);
    push_str(&mut m, ") does not match expected width (");
    push_dec(&mut m, width as u64);
    push_str(&mut m, ") for glyph ");
    push_quoted(&mut m, name, 0, name.len());
    push_str(&mut m, ". Loading as-is.");
    proof {
        assert(name@.subrange(0, name@.len() as int) =~= name@);
        assert(m@ =~= "Bitmap line length ("@ + dec(len as nat)
            + ") does not match expected width ("@ + dec(width as nat) + ") for glyph "@ + quoted(
            name@,
        ) + ". Loading as-is."@);
    }
    with_line(n, &string_from(m.as_slice()))
}

/// "<pre>'name'. Expected <h> lines, found <c><post>".
fn count_msg(pre: &str, name: &[char], height: u32, found: u32, post: &str) -> (r: String)
    ensures
        r@ == pre@ + quoted(name@) + ". Expected "@ + dec(height as nat) + " lines, found "@ + dec(
            found as nat,
        ) + post@,
{
    let mut m: Vec<char> = Vec::new();
    push_str(&mut m, pre);
    push_quoted(&mut m, name, 0, name.len());
    push_str(&mut m, ". Expected ");
    push_dec(&mut m, height as u64);
    push_str(&mut m, " lines, found ");
    push_dec(&mut m, found as u64);
    push_str(&mut m, post);
    proof {
        assert(name@.subrange(0, name@.len() as int) =~= name@);
        assert(m@ =~= pre@ + quoted(name@) + ". Expected "@ + dec(height as nat)
            + " lines, found "@ + dec(found as nat) + post@);
    }
    string_from(m.as_slice())
}

fn extra_line_msg(n: usize, height: u32, name: &[char], t: &[char]) -> (r: String)
    ensures
        r@ == extra_line_warning(n as nat, height as nat, name@, t@),
{
    let mut m: Vec<char> = Vec::new();
    push_str(&mut m, "Expected END DATA after ");
    push_dec(&mut m, height as u64);
    push_str(&mut m, " bitmap lines for glyph ");
    push_quoted(&mut m, name, 0, name.len());
    push_str(&mut m, ", found ");
    push_quoted(&mut m, t, 0, t.len());
    push_str(&mut m, ". Ignoring line.");
    proof {
        assert(name@.subrange(0, name@.len() as int) =~= name@);
        assert(t@.subrange(0, t@.len() as int) =~= t@);
        assert(m@ =~= "Expected END DATA after "@ + dec(height as nat) + " bitmap lines for glyph "@
            + quoted(name@) + ", found "@ + quoted(t@) + ". Ignoring line."@);
    }
    with_line(n, &string_from(m.as_slice()))
}

// ---- exec: rows ----
/// Checks a row against the glyph's palette and appends what it finds:
/// one warning per character the palette lacks, or one saying that an empty
/// palette leaves nothing to check against.
fn validate_bitmap_line(t: &[char], glyph: &mut Glyph, n: usize)
    ensures
        final(glyph)@ == (GlyphModel {
            warnings: old(glyph)@.warnings + row_warnings(
                t@,
                old(glyph)@.palette,
                old(glyph)@.name,
                n as nat,
            ),
            ..old(glyph)@
        }),
{
    let ghost g0 = glyph@;
    let name = chars_of(glyph.name.as_str());
    if glyph.palette.len() > 0 {
        let mut k: usize = 0;
        while k < t.len()
            invariant
                k <= t@.len(),
                name@ == g0.name,
                glyph@ == (GlyphModel {
                    warnings: g0.warnings + char_warnings(t@, g0.palette, g0.name, n as nat, k as nat),
                    ..g0
                }),
            decreases t@.len() - k,
        {
            let ghost before = glyph@.warnings;
            if !glyph.palette.contains_key(t[k]) {
                let w = bad_char_msg(n, t[k], k + 1, name.as_slice());
                push_warning(glyph, w);
            }
            proof {
                assert(glyph@.warnings =~= g0.warnings + char_warnings(
                    t@,
                    g0.palette,
                    g0.name,
                    n as nat,
                    (k + 1) as nat,
                ));
            }
            k = k + 1;
        }
    } else {
        let w = quote_whole(
            "Cannot validate bitmap characters for glyph ",
            name.as_slice(),
            " because palette data is missing unexpectedly.",
        );
        push_warning(glyph, with_line(n, &w));
        proof {
            assert(glyph@.warnings =~= g0.warnings + row_warnings(t@, g0.palette, g0.name, n as nat));
        }
    }
}

/// `take_row`, computed.
fn add_row(glyph: &mut Glyph, t: &[char], n: usize)
    requires
        old(glyph).size is Some,
    ensures
        final(glyph)@ == take_row(old(glyph)@, t@, n as nat),
{
    let ghost g0 = glyph@;
    let width = match glyph.size {
        Some(s) => s.width,
        None => 0,
    };
    if t.len() != width as usize {
        let name = chars_of(glyph.name.as_str());
        push_warning(glyph, width_msg(n, t.len(), width, name.as_slice()));
    }
    validate_bitmap_line(t, glyph, n);
    let ghost before = glyph.bitmap@;
    glyph.bitmap.push(string_from(t));
    proof {
        assert(strings_view(glyph.bitmap@) =~= strings_view(before).push(t@));
        assert(glyph@.warnings =~= take_row(g0, t@, n as nat).warnings);
    }
}

// ---- exec: the reader ----
/// The reader between two lines: its state, the document so far, the open
/// glyph, the rows read since `DATA` and whether `PALETTE` was seen.
pub struct ParserContext {
    state: ParseState,
    document: GtfDocument,
    glyph: Option<Glyph>,
    collected: u32,
    palette_seen: bool,
}

impl ParserContext {
    pub closed spec fn model(&self) -> ContextModel {
        ContextModel {
            doc: self.document@,
            glyph: match self.glyph {
                Some(g) => g@,
                None => new_glyph_model(Seq::empty()),
            },
            collected: self.collected as nat,
            palette_seen: self.palette_seen,
        }
    }

    pub closed spec fn current_state(&self) -> ParseState {
        self.state
    }

    pub closed spec fn inv(&self) -> bool {
        &&& self.document.wf()
        &&& (self.glyph is Some <==> in_glyph(self.state))
        &&& (self.glyph matches Some(g) ==> g.wf())
        &&& (self.state == ParseState::InBitmap || self.state == ParseState::ExpectingDataKeyword
            ==> (self.glyph matches Some(g) && g.size is Some))
    }

    pub fn new() -> (r: ParserContext)
        ensures
            r.inv(),
            r.current_state() == ParseState::Searching,
            r.model() == initial_context(),
    {
        let r = ParserContext {
            state: ParseState::Searching,
            document: GtfDocument::new(),
            glyph: None,
            collected: 0,
            palette_seen: false,
        };
        r
    }
    /// The state's name as `finish` reports it.
    fn state_label(st: ParseState) -> (r: &'static str)
        ensures
            r@ == state_name(st),
    {
        match st {
            ParseState::Searching => "Searching",
            ParseState::InHeader => "InHeader",
            ParseState::InDefaultPalette => "InDefaultPalette",
            ParseState::InGlyphDefinition => "InGlyphDefinition",
            ParseState::InPalette => "InPalette",
            ParseState::ExpectingDataKeyword => "ExpectingDataKeyword",
            ParseState::InBitmap => "InBitmap",
            ParseState::ExpectingEndGlyph => "ExpectingEndGlyph",
        }
    }

    /// The open glyph goes into the document.
    fn commit_glyph(&mut self, g: Glyph)
        requires
            old(self).document.wf(),
            g.wf(),
        ensures
            final(self).model() == commit(
                ContextModel { glyph: g@, ..old(self).model() },
            ),
            final(self).document.wf(),
            final(self).glyph is None,
            final(self).state == old(self).state,
    {
        let ghost before = self.document.glyphs@;
        self.document.glyphs.push(g);
        self.glyph = None;
        proof {
            assert(crate::types::glyphs_view(self.document.glyphs@) =~= crate::types::glyphs_view(
                before,
            ).push(g@));
            assert forall|i: int| 0 <= i < self.document.glyphs@.len() implies (
            #[trigger] self.document.glyphs@[i]).wf() by {
                if i < before.len() {
                    assert(self.document.glyphs@[i] == before[i]);
                }
            }
        }
    }

    /// `step` for the line `raw`, numbered `n`, computed.
    pub fn process_line(self, n: usize, raw: &[char]) -> (r: Result<ParserContext, String>)
        requires
            self.inv(),
        ensures
            match step(self.current_state(), self.model(), n as nat, raw@) {
                Ok((st, c)) => r matches Ok(x) && x.inv() && x.current_state() == st && x.model()
                    == c,
                Err(e) => r matches Err(m) && m@ == e,
            },
    {
        proof {
            reveal(step);
        }
        let mut ctx = self;
        let ghost c0 = ctx.model();
        let rn = raw.len();
        let (a, b) = trim_bounds(raw, 0, rn);
        let tv = copy_range(raw, a, b);
        let t = tv.as_slice();
        let tn = t.len();
        proof {
            assert(raw@.subrange(0, rn as int) =~= raw@);
            assert(t@.subrange(0, tn as int) =~= t@);
        }
        if tn == 0 {
            return Ok(ctx);
        }
        match ctx.state {
            ParseState::Searching => {
                if equals_at(t, 0, tn, "HEADER") {
                    if ctx.document.header.default_palette.is_none() {
                        ctx.document.header.default_palette = Some(Palette::new());
                    }
                    ctx.state = ParseState::InHeader;
                    Ok(ctx)
                } else if starts_with_at(t, 0, tn, "GLYPH ") {
                    proof {
                        reveal_strlit("GLYPH ");
                    }
                    if tn == 6 {
                        Err(with_line(n, &string_of_str("Invalid GLYPH definition, missing name.")))
                    } else {
                        ctx.glyph = Some(Glyph::new(string_of_range(t, 6, tn)));
                        ctx.collected = 0;
                        ctx.palette_seen = false;
                        ctx.state = ParseState::InGlyphDefinition;
                        Ok(ctx)
                    }
                } else {
                    Ok(ctx)
                }
            },
            ParseState::InHeader => {
                if equals_at(t, 0, tn, "DEFAULT_PALETTE") {
                    if ctx.document.header.default_palette.is_none() {
                        ctx.document.header.default_palette = Some(Palette::new());
                    }
                    ctx.state = ParseState::InDefaultPalette;
                    Ok(ctx)
                } else if equals_at(t, 0, tn, "END HEADER") {
                    ctx.state = ParseState::Searching;
                    Ok(ctx)
                } else {
                    match parse_header_line(t, &mut ctx.document.header) {
                        Ok(()) => Ok(ctx),
                        Err(e) => Err(with_line(n, &e)),
                    }
                }
            },
            ParseState::InDefaultPalette => {
                if equals_at(t, 0, tn, "END HEADER") {
                    ctx.state = ParseState::Searching;
                    Ok(ctx)
                } else {
                    let mut p = match ctx.document.header.default_palette.take() {
                        Some(p) => p,
                        None => Palette::new(),
                    };
                    match parse_palette_line(t, &mut p) {
                        Ok(()) => {
                            ctx.document.header.default_palette = Some(p);
                            Ok(ctx)
                        },
                        Err(e) => {
                            let mut m: Vec<char> = Vec::new();
                            push_str(&mut m, "Error parsing default palette entry: ");
                            push_str(&mut m, e.as_str());
                            proof {
                                assert(m@ =~= "Error parsing default palette entry: "@ + e@);
                            }
                            Err(with_line(n, &string_from(m.as_slice())))
                        },
                    }
                }
            },
            ParseState::InGlyphDefinition => {
                let mut g = ctx.glyph.take().unwrap();
                let name = chars_of(g.name.as_str());
                if equals_at(t, 0, tn, "PALETTE") {
                    if ctx.palette_seen {
                        Err(
                            with_line(
                                n,
                                &quote_whole(
                                    "Duplicate PALETTE definition for glyph ",
                                    name.as_slice(),
                                    ".",
                                ),
                            ),
                        )
                    } else {
                        ctx.palette_seen = true;
                        ctx.glyph = Some(g);
                        ctx.state = ParseState::InPalette;
                        Ok(ctx)
                    }
                } else if starts_with_at(t, 0, tn, "END GLYPH ") {
                    match validate_end_glyph(t, name.as_slice()) {
                        Err(e) => Err(with_line(n, &e)),
                        Ok(()) => {
                            if g.size.is_some() && g.bitmap.len() == 0 {
                                Err(
                                    with_line(
                                        n,
                                        &quote_whole(
                                            "END GLYPH found for ",
                                            name.as_slice(),
                                            " but no bitmap data was provided (SIZE was defined).",
                                        ),
                                    ),
                                )
                            } else {
                                ctx.commit_glyph(g);
                                ctx.state = ParseState::Searching;
                                Ok(ctx)
                            }
                        },
                    }
                } else if g.size.is_some() && equals_at(t, 0, tn, "DATA") {
                    ctx.glyph = Some(g);
                    ctx.collected = 0;
                    ctx.state = ParseState::InBitmap;
                    Ok(ctx)
                } else {
                    let sv = copy_range(raw, a, rn);
                    let sn = sv.len();
                    proof {
                        assert(sv@.subrange(0, sn as int) =~= sv@);
                    }
                    let l = if starts_with_at(sv.as_slice(), 0, sn, "CHAR") {
                        sv.as_slice()
                    } else {
                        t
                    };
                    match parse_glyph_meta_line(l, &mut g) {
                        Err(e) => Err(with_line(n, &e)),
                        Ok(()) => {
                            ctx.glyph = Some(g);
                            Ok(ctx)
                        },
                    }
                }
            },
            ParseState::InPalette => {
                let mut g = ctx.glyph.take().unwrap();
                if equals_at(t, 0, tn, "END PALETTE") {
                    if g.size.is_some() {
                        ctx.state = ParseState::ExpectingDataKeyword;
                    } else {
                        ctx.state = ParseState::ExpectingEndGlyph;
                    }
                    ctx.glyph = Some(g);
                    Ok(ctx)
                } else {
                    match parse_palette_line(t, &mut g.palette) {
                        Ok(()) => {
                            ctx.glyph = Some(g);
                            Ok(ctx)
                        },
                        Err(e) => {
                            let mut m: Vec<char> = Vec::new();
                            push_str(&mut m, "Error parsing palette entry: ");
                            push_str(&mut m, e.as_str());
                            proof {
                                assert(m@ =~= "Error parsing palette entry: "@ + e@);
                            }
                            Err(with_line(n, &string_from(m.as_slice())))
                        },
                    }
                }
            },
            ParseState::ExpectingDataKeyword => {
                if equals_at(t, 0, tn, "DATA") {
                    ctx.collected = 0;
                    ctx.state = ParseState::InBitmap;
                    Ok(ctx)
                } else {
                    let g = ctx.glyph.take().unwrap();
                    let name = chars_of(g.name.as_str());
                    Err(
                        with_line(
                            n,
                            &two_quotes(
                                "Expected DATA keyword after palette for glyph ",
                                name.as_slice(),
                                ", found ",
                                t,
                                ".",
                            ),
                        ),
                    )
                }
            },
            ParseState::InBitmap => {
                let mut g = ctx.glyph.take().unwrap();
                let height = match g.size {
                    Some(s) => s.height,
                    None => 0,
                };
                let name = chars_of(g.name.as_str());
                if ctx.collected < height {
                    if equals_at(t, 0, tn, "END DATA") {
                        let w = count_msg(
                            "END DATA came early for glyph ",
                            name.as_slice(),
                            height,
                            ctx.collected,
                            ".",
                        );
                        push_warning(&mut g, with_line(n, &w));
                        ctx.glyph = Some(g);
                        ctx.state = ParseState::ExpectingEndGlyph;
                        Ok(ctx)
                    } else {
                        add_row(&mut g, t, n);
                        ctx.glyph = Some(g);
                        ctx.collected = ctx.collected + 1;
                        Ok(ctx)
                    }
                } else if equals_at(t, 0, tn, "END DATA") {
                    ctx.glyph = Some(g);
                    ctx.state = ParseState::ExpectingEndGlyph;
                    Ok(ctx)
                } else {
                    push_warning(&mut g, extra_line_msg(n, height, name.as_slice(), t));
                    ctx.glyph = Some(g);
                    Ok(ctx)
                }
            },
            ParseState::ExpectingEndGlyph => {
                let g = ctx.glyph.take().unwrap();
                let name = chars_of(g.name.as_str());
                if starts_with_at(t, 0, tn, "END GLYPH ") {
                    match validate_end_glyph(t, name.as_slice()) {
                        Err(e) => Err(with_line(n, &e)),
                        Ok(()) => {
                            ctx.commit_glyph(g);
                            ctx.state = ParseState::Searching;
                            Ok(ctx)
                        },
                    }
                } else {
                    Err(
                        with_line(
                            n,
                            &two_quotes(
                                "Expected END GLYPH for glyph ",
                                name.as_slice(),
                                ", found ",
                                t,
                                ".",
                            ),
                        ),
                    )
                }
            },
        }
    }

    /// `finish`, computed.
    pub fn finish(self) -> (r: Result<GtfDocument, String>)
        requires
            self.inv(),
        ensures
            match finish(self.current_state(), self.model()) {
                Ok(d) => r matches Ok(doc) && doc@ == d && doc.wf(),
                Err(e) => r matches Err(m) && m@ == e,
            },
    {
        let mut ctx = self;
        if ctx.state == ParseState::InBitmap {
            let mut g = ctx.glyph.take().unwrap();
            let height = match g.size {
                Some(s) => s.height,
                None => 0,
            };
            let name = chars_of(g.name.as_str());
            let w = count_msg(
                "Parsing ended while in bitmap section for glyph ",
                name.as_slice(),
                height,
                ctx.collected,
                ". Missing END DATA or END GLYPH?",
            );
            push_warning(&mut g, w);
            ctx.commit_glyph(g);
            Ok(ctx.document)
        } else if ctx.state != ParseState::Searching {
            let mut m: Vec<char> = Vec::new();
            push_str(&mut m, "Parsing ended unexpectedly in state: ");
            push_str(&mut m, Self::state_label(ctx.state));
            push_str(&mut m, ". Missing END statement?");
            proof {
                assert(m@ =~= "Parsing ended unexpectedly in state: "@ + state_name(ctx.state)
                    + ". Missing END statement?"@);
            }
            Err(string_from(m.as_slice()))
        } else {
            Ok(ctx.document)
        }
    }
}

/// Reads a GTF text into a document. A structural fault stops the reading
/// and comes back as the error, with its line number; content faults become
/// warnings on the glyph they belong to.
pub fn parse_gtf_content(content: &str) -> (r: Result<GtfDocument, String>)
    ensures
        match parse_spec(content@) {
            Ok(d) => r matches Ok(doc) && doc@ == d && doc.wf(),
            Err(e) => r matches Err(m) && m@ == e,
        },
{
    let text = chars_of(content);
    let s = text.as_slice();
    let mut ctx = ParserContext::new();
    let mut p: usize = 0;
    let mut idx: usize = 0;
    while p < s.len()
        invariant
            s@ == content@,
            p <= s@.len(),
            idx <= p,
            ctx.inv(),
            parse_spec(content@) == match run(
                lines_from(s@, p as int),
                (idx + 1) as nat,
                ctx.current_state(),
                ctx.model(),
            ) {
                Err(e) => Err(e),
                Ok((st, c)) => finish(st, c),
            },
        decreases s@.len() - p,
    {
        let (e, next) = next_line(s, p);
        let raw = copy_range(s, p, e);
        let ghost ls = lines_from(s@, p as int);
        proof {
            assert(ls[0] == raw@);
            assert(ls.drop_first() =~= lines_from(s@, next as int));
        }
        match ctx.process_line(idx + 1, raw.as_slice()) {
            Ok(c2) => {
                ctx = c2;
            },
            Err(m) => {
                return Err(m);
            },
        }
        p = next;
        idx = idx + 1;
    }
    proof {
        assert(lines_from(s@, p as int) =~= Seq::<Seq<char>>::empty());
    }
    ctx.finish()
}

} // verus!

