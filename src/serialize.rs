//! Writing a document as canonical GTF text.
use vstd::prelude::*;

use crate::text::{
    chars_of, dec, push_all, push_dec, push_str, string_of_range, trim_end, trim_end_len,
};
use crate::types::{
    sorted_of, strings_view, DocModel, EntriesModel, Glyph, GlyphModel, GtfDocument, HeaderModel, Palette,
    Size,
};

verus! {

/// The lines, each followed by a line feed.
pub open spec fn text_of(ls: Seq<Seq<char>>) -> Seq<char>
    decreases ls.len(),
{
    if ls.len() == 0 {
        Seq::empty()
    } else {
        text_of(ls.drop_last()) + ls.last() + seq!['\n']
    }
}

pub proof fn lemma_text_of_add(a: Seq<Seq<char>>, b: Seq<Seq<char>>)
    ensures
        text_of(a + b) == text_of(a) + text_of(b),
    decreases b.len(),
{
    if b.len() == 0 {
        assert(a + b =~= a);
        assert(text_of(a) + text_of(b) =~= text_of(a));
    } else {
        lemma_text_of_add(a, b.drop_last());
        assert((a + b).drop_last() =~= a + b.drop_last());
        assert(text_of(a + b) =~= text_of(a) + text_of(b));
    }
}

/// A `KEY value` line when the value is there.
pub open spec fn opt_line(key: Seq<char>, v: Option<Seq<char>>) -> Seq<Seq<char>> {
    match v {
        Some(s) => seq![key + s],
        None => Seq::empty(),
    }
}

pub open spec fn size_text(s: Size) -> Seq<char> {
    dec(s.width as nat) + "x"@ + dec(s.height as nat)
}

pub open spec fn entry_line(e: (char, Seq<char>)) -> Seq<char> {
    seq![e.0] + " "@ + e.1
}

/// One `<char> <color>` line per entry, in the palette's (ascending) order.
pub open spec fn entry_lines(p: EntriesModel) -> Seq<Seq<char>> {
    p.map_values(|e: (char, Seq<char>)| entry_line(e))
}

/// The text with each line feed turned into a space.
pub open spec fn single_line(s: Seq<char>) -> Seq<char> {
    s.map_values(|c: char| if c == '\n' { ' ' } else { c })
}

pub open spec fn opt_single_line(v: Option<Seq<char>>) -> Option<Seq<char>> {
    match v {
        Some(s) => Some(single_line(s)),
        None => None,
    }
}

/// `HEADER` and the header's `KEY value` lines.
pub open spec fn header_field_lines(h: HeaderModel) -> Seq<Seq<char>> {
    seq!["HEADER"@] + opt_line("FONT "@, h.font_name) + opt_line("VERSION "@, h.version)
        + opt_line("AUTHOR "@, h.author) + opt_line(
        "DESCRIPTION "@,
        opt_single_line(h.description),
    ) + match h.default_size {
        Some(s) => seq!["DEFAULT_SIZE "@ + size_text(s)],
        None => Seq::empty(),
    }
}

/// The default palette block, when the palette has entries.
pub open spec fn default_palette_lines(p: EntriesModel) -> Seq<Seq<char>> {
    if p.len() > 0 {
        seq!["DEFAULT_PALETTE"@] + entry_lines(sorted_of(p))
    } else {
        Seq::empty()
    }
}

pub open spec fn header_lines(h: HeaderModel) -> Seq<Seq<char>> {
    header_field_lines(h) + default_palette_lines(h.default_palette) + seq![
        "END HEADER"@,
        Seq::empty(),
    ]
}

/// `GLYPH <name>` and the glyph's metadata lines.
pub open spec fn glyph_meta_lines(g: GlyphModel) -> Seq<Seq<char>> {
    seq!["GLYPH "@ + g.name] + opt_line("UNICODE "@, g.unicode) + match g.char_repr {
        Some(c) => seq!["CHAR "@ + seq![c]],
        None => Seq::empty(),
    } + match g.size {
        Some(s) => seq!["SIZE "@ + size_text(s)],
        None => Seq::empty(),
    }
}

/// The palette block, when the palette has entries.
pub open spec fn glyph_palette_lines(p: EntriesModel) -> Seq<Seq<char>> {
    if p.len() > 0 {
        seq!["PALETTE"@] + entry_lines(sorted_of(p)) + seq!["END PALETTE"@]
    } else {
        Seq::empty()
    }
}

/// The data block, when there is a size or a row.
pub open spec fn glyph_data_lines(g: GlyphModel) -> Seq<Seq<char>> {
    if g.size is Some || g.bitmap.len() > 0 {
        seq!["DATA"@] + g.bitmap + seq!["END DATA"@]
    } else {
        Seq::empty()
    }
}

pub open spec fn glyph_lines(g: GlyphModel) -> Seq<Seq<char>> {
    glyph_meta_lines(g) + glyph_palette_lines(g.palette) + glyph_data_lines(g) + seq![
        "END GLYPH "@ + g.name,
        Seq::empty(),
    ]
}

pub open spec fn glyphs_lines(gs: Seq<GlyphModel>) -> Seq<Seq<char>>
    decreases gs.len(),
{
    if gs.len() == 0 {
        Seq::empty()
    } else {
        glyphs_lines(gs.drop_last()) + glyph_lines(gs.last())
    }
}

pub open spec fn doc_lines(d: DocModel) -> Seq<Seq<char>> {
    header_lines(d.header) + glyphs_lines(d.glyphs)
}

/// The canonical text of a document: its lines, trailing whitespace removed.
pub open spec fn serialize_spec(d: DocModel) -> Seq<char> {
    trim_end(text_of(doc_lines(d)))
}

pub proof fn lemma_text_of_one(x: Seq<char>)
    ensures
        text_of(seq![x]) == x + seq!['\n'],
{
    assert(seq![x].drop_last() =~= Seq::<Seq<char>>::empty());
    assert(seq![x].last() == x);
    assert(text_of(Seq::<Seq<char>>::empty()) == Seq::<char>::empty());
    assert(text_of(seq![x]) =~= x + seq!['\n']);
}

proof fn lemma_text_of_push(ls: Seq<Seq<char>>, x: Seq<char>)
    ensures
        text_of(ls.push(x)) == text_of(ls) + x + seq!['\n'],
{
    assert(ls.push(x).drop_last() =~= ls);
}

/// Appends `line` and a line feed.
fn emit(out: &mut Vec<char>, line: &[char])
    ensures
        final(out)@ == old(out)@ + text_of(seq![line@]),
{
    push_all(out, line);
    out.push('\n');
    proof {
        lemma_text_of_one(line@);
        assert(final(out)@ =~= old(out)@ + text_of(seq![line@]));
    }
}

fn emit_str(out: &mut Vec<char>, line: &str)
    ensures
        final(out)@ == old(out)@ + text_of(seq![line@]),
{
    let cs = chars_of(line);
    emit(out, cs.as_slice());
}

/// Appends `key value` and a line feed when the value is there.
fn emit_opt(out: &mut Vec<char>, key: &str, v: &Option<String>)
    ensures
        final(out)@ == old(out)@ + text_of(opt_line(key@, crate::types::opt_view(*v))),
{
    match v {
        Some(s) => {
            let mut l: Vec<char> = Vec::new();
            push_str(&mut l, key);
            push_str(&mut l, s.as_str());
            emit(out, l.as_slice());
        },
        None => {
            proof {
                assert(text_of(Seq::<Seq<char>>::empty()) =~= Seq::<char>::empty());
                assert(final(out)@ =~= old(out)@ + Seq::<char>::empty());
            }
        },
    }
}

/// Appends `key WxH` and a line feed when the size is there.
fn emit_size(out: &mut Vec<char>, key: &str, size: Option<Size>)
    ensures
        final(out)@ == old(out)@ + text_of(
            match size {
                Some(s) => seq![key@ + size_text(s)],
                None => Seq::<Seq<char>>::empty(),
            },
        ),
{
    match size {
        Some(s) => {
            let mut l: Vec<char> = Vec::new();
            push_str(&mut l, key);
            push_dec(&mut l, s.width as u64);
            push_str(&mut l, "x");
            push_dec(&mut l, s.height as u64);
            proof {
                assert(l@ =~= key@ + size_text(s));
            }
            emit(out, l.as_slice());
        },
        None => {
            proof {
                assert(final(out)@ =~= old(out)@ + Seq::<char>::empty());
            }
        },
    }
}

/// Appends one line per palette entry.
fn emit_entries(out: &mut Vec<char>, p: &Palette)
    ensures
        final(out)@ == old(out)@ + text_of(entry_lines(p@)),
{
    let ghost start = out@;
    let n = p.entries.len();
    let mut i: usize = 0;
    proof {
        assert(entry_lines(p@.subrange(0, 0)) =~= Seq::<Seq<char>>::empty());
        assert(out@ =~= start + text_of(entry_lines(p@.subrange(0, 0))));
    }
    while i < n
        invariant
            n == p.entries@.len(),
            i <= n,
            out@ == start + text_of(entry_lines(p@.subrange(0, i as int))),
        decreases n - i,
    {
        let mut l: Vec<char> = Vec::new();
        l.push(p.entries[i].0);
        push_str(&mut l, " ");
        push_str(&mut l, p.entries[i].1.as_str());
        let ghost before = out@;
        push_all(out, l.as_slice());
        out.push('\n');
        proof {
            let a = p@.subrange(0, i as int);
            let b = p@.subrange(0, i + 1);
            assert(entry_lines(b) =~= entry_lines(a).push(l@));
            lemma_text_of_push(entry_lines(a), l@);
            assert(out@ =~= start + text_of(entry_lines(b)));
        }
        i = i + 1;
    }
    proof {
        assert(p@.subrange(0, n as int) =~= p@);
    }
}

/// Appends each row as a line.
fn emit_rows(out: &mut Vec<char>, rows: &Vec<String>)
    ensures
        final(out)@ == old(out)@ + text_of(strings_view(rows@)),
{
    let ghost start = out@;
    let n = rows.len();
    let mut i: usize = 0;
    proof {
        assert(strings_view(rows@.subrange(0, 0)) =~= Seq::<Seq<char>>::empty());
        assert(out@ =~= start + text_of(strings_view(rows@.subrange(0, 0))));
    }
    while i < n
        invariant
            n == rows@.len(),
            i <= n,
            out@ == start + text_of(strings_view(rows@.subrange(0, i as int))),
        decreases n - i,
    {
        let l = chars_of(rows[i].as_str());
        push_all(out, l.as_slice());
        out.push('\n');
        proof {
            let a = rows@.subrange(0, i as int);
            let b = rows@.subrange(0, i + 1);
            assert(strings_view(b) =~= strings_view(a).push(l@));
            lemma_text_of_push(strings_view(a), l@);
            assert(out@ =~= start + text_of(strings_view(b)));
        }
        i = i + 1;
    }
    proof {
        assert(rows@.subrange(0, n as int) =~= rows@);
    }
}

/// Appends the description line, line feeds turned into spaces.
fn emit_description(out: &mut Vec<char>, v: &Option<String>)
    ensures
        final(out)@ == old(out)@ + text_of(
            opt_line("DESCRIPTION "@, opt_single_line(crate::types::opt_view(*v))),
        ),
{
    match v {
        Some(d) => {
            let ds = chars_of(d.as_str());
            let mut l: Vec<char> = Vec::new();
            push_str(&mut l, "DESCRIPTION ");
            let ghost key = l@;
            let mut i: usize = 0;
            while i < ds.len()
                invariant
                    i <= ds@.len(),
                    l@ == key + single_line(ds@.subrange(0, i as int)),
                decreases ds@.len() - i,
            {
                let c = ds[i];
                if c == '\n' {
                    l.push(' ');
                } else {
                    l.push(c);
                }
                proof {
                    assert(single_line(ds@.subrange(0, i + 1)) =~= single_line(
                        ds@.subrange(0, i as int),
                    ).push(if c == '\n' { ' ' } else { c }));
                    assert(l@ =~= key + single_line(ds@.subrange(0, i + 1)));
                }
                i = i + 1;
            }
            proof {
                assert(ds@.subrange(0, ds@.len() as int) =~= ds@);
            }
            emit(out, l.as_slice());
        },
        None => {
            proof {
                assert(final(out)@ =~= old(out)@ + Seq::<char>::empty());
            }
        },
    }
}

/// `HEADER` and the header's `KEY value` lines.
fn emit_header_fields(out: &mut Vec<char>, h: &crate::types::GtfHeader)
    ensures
        final(out)@ == old(out)@ + text_of(header_field_lines(h@)),
{
    let ghost start = out@;
    let ghost hm = h@;
    emit_str(out, "HEADER");
    let ghost ls: Seq<Seq<char>> = seq!["HEADER"@];
    let ghost o = out@;
    emit_opt(out, "FONT ", &h.font_name);
    proof {
        let g = opt_line("FONT "@, hm.font_name);
        lemma_text_of_add(ls, g);
        assert(out@ =~= start + text_of(ls + g));
        ls = ls + g;
    }
    emit_opt(out, "VERSION ", &h.version);
    proof {
        let g = opt_line("VERSION "@, hm.version);
        lemma_text_of_add(ls, g);
        assert(out@ =~= start + text_of(ls + g));
        ls = ls + g;
    }
    emit_opt(out, "AUTHOR ", &h.author);
    proof {
        let g = opt_line("AUTHOR "@, hm.author);
        lemma_text_of_add(ls, g);
        assert(out@ =~= start + text_of(ls + g));
        ls = ls + g;
    }
    emit_description(out, &h.description);
    proof {
        let g = opt_line("DESCRIPTION "@, opt_single_line(hm.description));
        lemma_text_of_add(ls, g);
        assert(out@ =~= start + text_of(ls + g));
        ls = ls + g;
    }
    emit_size(out, "DEFAULT_SIZE ", h.default_size);
    proof {
        let g = match hm.default_size {
            Some(s) => seq!["DEFAULT_SIZE "@ + size_text(s)],
            None => Seq::<Seq<char>>::empty(),
        };
        lemma_text_of_add(ls, g);
        assert(out@ =~= start + text_of(ls + g));
        ls = ls + g;
    }
}

/// The header's lines, then a blank line.
fn emit_header(out: &mut Vec<char>, h: &crate::types::GtfHeader)
    ensures
        final(out)@ == old(out)@ + text_of(header_lines(h@)),
{
    let ghost start = out@;
    let ghost hm = h@;
    emit_header_fields(out, h);
    let ghost before_palette = out@;
    match &h.default_palette {
        Some(p) => {
            if p.len() > 0 {
                let sp = p.sorted();
                emit_str(out, "DEFAULT_PALETTE");
                emit_entries(out, &sp);
                proof {
                    lemma_text_of_add(seq!["DEFAULT_PALETTE"@], entry_lines(sp@));
                }
            }
        },
        None => {},
    }
    proof {
        assert(out@ =~= before_palette + text_of(default_palette_lines(hm.default_palette)));
    }
    let ghost before_end = out@;
    emit_str(out, "END HEADER");
    emit(out, &[]);
    proof {
        let e: Seq<char> = Seq::empty();
        let a = header_field_lines(hm);
        let b = default_palette_lines(hm.default_palette);
        let c = seq!["END HEADER"@, e];
        lemma_text_of_add(seq!["END HEADER"@], seq![e]);
        assert(seq!["END HEADER"@] + seq![e] =~= c);
        assert([]@ =~= e);
        assert(out@ =~= before_end + text_of(c));
        lemma_text_of_add(a, b);
        lemma_text_of_add(a + b, c);
        assert(out@ =~= start + text_of(header_lines(hm)));
    }
}

/// `GLYPH <name>` and the glyph's metadata lines.
fn emit_glyph_meta(out: &mut Vec<char>, glyph: &Glyph, name: &Vec<char>)
    requires
        name@ == glyph.name@,
    ensures
        final(out)@ == old(out)@ + text_of(glyph_meta_lines(glyph@)),
{
    let ghost start = out@;
    let ghost g = glyph@;
    let mut l: Vec<char> = Vec::new();
    push_str(&mut l, "GLYPH ");
    push_all(&mut l, name.as_slice());
    emit(out, l.as_slice());
    let ghost ls: Seq<Seq<char>> = seq!["GLYPH "@ + g.name];
    proof {
        assert(l@ =~= "GLYPH "@ + g.name);
    }
    emit_opt(out, "UNICODE ", &glyph.unicode);
    proof {
        let x = opt_line("UNICODE "@, g.unicode);
        lemma_text_of_add(ls, x);
        assert(out@ =~= start + text_of(ls + x));
        ls = ls + x;
    }
    let ghost before_char = out@;
    match glyph.char_repr {
        Some(c) => {
            let mut l: Vec<char> = Vec::new();
            push_str(&mut l, "CHAR ");
            l.push(c);
            proof {
                assert(l@ =~= "CHAR "@ + seq![c]);
            }
            emit(out, l.as_slice());
        },
        None => {},
    }
    proof {
        let x = match g.char_repr {
            Some(c) => seq!["CHAR "@ + seq![c]],
            None => Seq::<Seq<char>>::empty(),
        };
        assert(out@ =~= before_char + text_of(x));
        lemma_text_of_add(ls, x);
        assert(out@ =~= start + text_of(ls + x));
        ls = ls + x;
    }
    emit_size(out, "SIZE ", glyph.size);
    proof {
        let x = match g.size {
            Some(s) => seq!["SIZE "@ + size_text(s)],
            None => Seq::<Seq<char>>::empty(),
        };
        lemma_text_of_add(ls, x);
        assert(out@ =~= start + text_of(ls + x));
        ls = ls + x;
    }
}

/// One glyph's block, then a blank line.
#[verifier::rlimit(40)]
fn serialize_glyph(out: &mut Vec<char>, glyph: &Glyph)
    ensures
        final(out)@ == old(out)@ + text_of(glyph_lines(glyph@)),
{
    let ghost start = out@;
    let ghost g = glyph@;
    let name = chars_of(glyph.name.as_str());
    emit_glyph_meta(out, glyph, &name);
    let ghost o1 = out@;
    if glyph.palette.len() > 0 {
        let sp = glyph.palette.sorted();
        emit_str(out, "PALETTE");
        emit_entries(out, &sp);
        emit_str(out, "END PALETTE");
        proof {
            lemma_text_of_add(seq!["PALETTE"@], entry_lines(sp@));
            lemma_text_of_add(seq!["PALETTE"@] + entry_lines(sp@), seq!["END PALETTE"@]);
        }
    }
    proof {
        assert(out@ =~= o1 + text_of(glyph_palette_lines(g.palette)));
    }
    let ghost o2 = out@;
    if glyph.size.is_some() || glyph.bitmap.len() > 0 {
        emit_str(out, "DATA");
        emit_rows(out, &glyph.bitmap);
        emit_str(out, "END DATA");
        proof {
            lemma_text_of_add(seq!["DATA"@], g.bitmap);
            lemma_text_of_add(seq!["DATA"@] + g.bitmap, seq!["END DATA"@]);
        }
    }
    proof {
        assert(out@ =~= o2 + text_of(glyph_data_lines(g)));
    }
    let ghost o3 = out@;
    let mut l: Vec<char> = Vec::new();
    push_str(&mut l, "END GLYPH ");
    push_all(&mut l, name.as_slice());
    emit(out, l.as_slice());
    emit(out, &[]);
    proof {
        let e: Seq<char> = Seq::empty();
        assert(l@ =~= "END GLYPH "@ + g.name);
        let a = glyph_meta_lines(g);
        let b = glyph_palette_lines(g.palette);
        let c = glyph_data_lines(g);
        let d = seq!["END GLYPH "@ + g.name, e];
        lemma_text_of_add(seq![l@], seq![e]);
        assert(seq![l@] + seq![e] =~= d);
        assert([]@ =~= e);
        assert(out@ =~= o3 + text_of(d));
        lemma_text_of_add(a, b);
        lemma_text_of_add(a + b, c);
        lemma_text_of_add(a + b + c, d);
        assert(out@ =~= start + text_of(glyph_lines(g)));
    }
}

/// Writes the document as canonical GTF text: the header block, then each
/// glyph's block in order, palettes in ascending key order, trailing
/// whitespace removed. Writing cannot fail.
pub fn serialize_gtf_document(document: &GtfDocument) -> (r: Result<String, String>)
    ensures
        r matches Ok(s) && s@ == serialize_spec(document@),
{
    let ghost d = document@;
    let mut out: Vec<char> = Vec::new();
    emit_header(&mut out, &document.header);
    let n = document.glyphs.len();
    let mut i: usize = 0;
    proof {
        assert(d.glyphs.subrange(0, 0) =~= Seq::<GlyphModel>::empty());
        assert(glyphs_lines(Seq::<GlyphModel>::empty()) =~= Seq::<Seq<char>>::empty());
        assert(out@ =~= text_of(header_lines(d.header)) + text_of(Seq::<Seq<char>>::empty()));
    }
    while i < n
        invariant
            n == document.glyphs@.len(),
            d == document@,
            i <= n,
            out@ == text_of(header_lines(d.header)) + text_of(
                glyphs_lines(d.glyphs.subrange(0, i as int)),
            ),
        decreases n - i,
    {
        let ghost before = out@;
        serialize_glyph(&mut out, &document.glyphs[i]);
        proof {
            let a = d.glyphs.subrange(0, i as int);
            let b = d.glyphs.subrange(0, i + 1);
            assert(b.drop_last() =~= a);
            assert(b.last() == document.glyphs@[i as int]@);
            lemma_text_of_add(glyphs_lines(a), glyph_lines(b.last()));
            assert(out@ =~= text_of(header_lines(d.header)) + text_of(glyphs_lines(b)));
        }
        i = i + 1;
    }
    proof {
        assert(d.glyphs.subrange(0, n as int) =~= d.glyphs);
        lemma_text_of_add(header_lines(d.header), glyphs_lines(d.glyphs));
        assert(out@ =~= text_of(doc_lines(d)));
    }
    let k = trim_end_len(out.as_slice());
    Ok(string_of_range(out.as_slice(), 0, k))
}

} // verus!
