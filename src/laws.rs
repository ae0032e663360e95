//! Laws that relate the reader, the writer and the palette.
use vstd::prelude::*;

use crate::parse::{
    add_warning, at, eof_warning, initial_context, parse_spec, quoted, run, step, ContextModel,
    ParseState,
};
use crate::roundtrip::{
    doc_ok, doc_shape_ok, glyphs_read, lemma_doc_ok_shape, lemma_glyph_open, lemma_glyphs_read,
    lemma_lines_cons, lemma_not_keyword, lemma_parse_serialize, lemma_run_add, lemma_run_one,
    lemma_trim_id, line_ok, plain_value,
};
use crate::serialize::{
    default_palette_lines, doc_lines, entry_lines, glyph_lines, glyph_palette_lines, glyphs_lines,
    header_lines, serialize_spec,
};
use crate::text::{has_char, is_ws, lines_of, trim, trim_start};
use crate::types::{
    key_code, lemma_put, sorted_keys, sorted_of, DocModel, EntriesModel, GlyphModel, GtfDocument,
    HeaderModel, Palette,
};

verus! {

/// Reading back the canonical text of a document gives the document itself,
/// whenever the document has no warnings and its text reads back without new
/// ones: plain one-line values, a glyph with a size has a non-empty palette
/// and exactly `height` rows of `width` palette keys, a glyph without one has
/// no rows (see `doc_ok`).
pub proof fn round_trip_on_canonical_output(doc: GtfDocument)
    requires
        doc_ok(doc@),
    ensures
        parse_spec(serialize_spec(doc@)) == Ok::<DocModel, Seq<char>>(doc@),
{
    let d = doc@;
    lemma_doc_ok_shape(d);
    lemma_parse_serialize(d);
    lemma_glyphs_read(d.glyphs, 1 + crate::serialize::header_lines(d.header).len());
}

pub open spec fn glyph_without_warnings(g: GlyphModel) -> GlyphModel {
    GlyphModel { warnings: Seq::empty(), ..g }
}

/// The document with every glyph's warnings dropped.
pub open spec fn without_warnings(d: DocModel) -> DocModel {
    DocModel { glyphs: d.glyphs.map_values(|g: GlyphModel| glyph_without_warnings(g)), ..d }
}

proof fn lemma_glyphs_lines_ignore_warnings(gs: Seq<GlyphModel>)
    ensures
        glyphs_lines(gs.map_values(|g: GlyphModel| glyph_without_warnings(g))) == glyphs_lines(gs),
    decreases gs.len(),
{
    let ms = gs.map_values(|g: GlyphModel| glyph_without_warnings(g));
    if gs.len() > 0 {
        lemma_glyphs_lines_ignore_warnings(gs.drop_last());
        assert(ms.drop_last() =~= gs.drop_last().map_values(
            |g: GlyphModel| glyph_without_warnings(g),
        ));
        assert(ms.last() == glyph_without_warnings(gs.last()));
        assert(glyph_lines(ms.last()) == glyph_lines(gs.last()));
    }
}

/// Writing does not look at warnings.
pub proof fn lemma_serialize_ignores_warnings(d: DocModel)
    ensures
        serialize_spec(without_warnings(d)) == serialize_spec(d),
{
    lemma_glyphs_lines_ignore_warnings(d.glyphs);
    assert(doc_lines(without_warnings(d)) == doc_lines(d));
}

/// Writing, reading and writing again gives the text of the first writing,
/// for every document whose text reads back (see `doc_shape_ok`): rows may
/// be of any width and hold any characters, and be fewer than the height;
/// warnings may be present.
pub proof fn idempotent_serialization(doc: GtfDocument)
    requires
        doc_shape_ok(doc@),
    ensures
        parse_spec(serialize_spec(doc@)) is Ok,
        serialize_spec(parse_spec(serialize_spec(doc@))->Ok_0) == serialize_spec(doc@),
{
    let d = doc@;
    let nh = 1 + crate::serialize::header_lines(d.header).len();
    lemma_parse_serialize(d);
    lemma_glyphs_read(d.glyphs, nh);
    let d2 = DocModel { header: d.header, glyphs: glyphs_read(d.glyphs, nh) };
    assert(without_warnings(d2) == without_warnings(d)) by {
        assert(without_warnings(d2).glyphs =~= without_warnings(d).glyphs);
    }
    lemma_serialize_ignores_warnings(d);
    lemma_serialize_ignores_warnings(d2);
}

pub open spec fn same_entries(p: EntriesModel, q: EntriesModel) -> bool {
    forall|e: (char, Seq<char>)| p.contains(e) <==> q.contains(e)
}

proof fn lemma_sorted_same_entries(p: EntriesModel, q: EntriesModel)
    requires
        sorted_keys(p),
        sorted_keys(q),
        same_entries(p, q),
    ensures
        p == q,
    decreases p.len(),
{
    if p.len() == 0 {
        if q.len() > 0 {
            assert(q.contains(q[0]));
        }
        assert(p =~= q);
    } else {
        assert(p.contains(p[0]));
        assert(q.len() > 0);
        assert(q.contains(q[0]));
        let j = choose|j: int| 0 <= j < q.len() && q[j] == p[0];
        let i = choose|i: int| 0 <= i < p.len() && p[i] == q[0];
        if j > 0 {
            assert(key_code(q[0].0) < key_code(q[j].0));
            if i > 0 {
                assert(key_code(p[0].0) < key_code(p[i].0));
            }
        }
        assert(p[0] == q[0]);
        let p_rest = p.drop_first();
        let q_rest = q.drop_first();
        assert forall|e: (char, Seq<char>)| p_rest.contains(e) <==> q_rest.contains(e) by {
            if p_rest.contains(e) {
                let k = choose|k: int| 0 <= k < p_rest.len() && p_rest[k] == e;
                assert(p[k + 1] == e);
                assert(key_code(p[0].0) < key_code(p[k + 1].0));
                assert(q.contains(e));
                let m = choose|m: int| 0 <= m < q.len() && q[m] == e;
                assert(m != 0);
                assert(q_rest[m - 1] == e);
            }
            if q_rest.contains(e) {
                let k = choose|k: int| 0 <= k < q_rest.len() && q_rest[k] == e;
                assert(q[k + 1] == e);
                assert(key_code(q[0].0) < key_code(q[k + 1].0));
                assert(p.contains(e));
                let m = choose|m: int| 0 <= m < p.len() && p[m] == e;
                assert(m != 0);
                assert(p_rest[m - 1] == e);
            }
        }
        assert forall|a: int, b: int| 0 <= a < b < p_rest.len() implies key_code(
            #[trigger] p_rest[a].0,
        ) < key_code(#[trigger] p_rest[b].0) by {
            assert(key_code(p[a + 1].0) < key_code(p[b + 1].0));
        }
        assert forall|a: int, b: int| 0 <= a < b < q_rest.len() implies key_code(
            #[trigger] q_rest[a].0,
        ) < key_code(#[trigger] q_rest[b].0) by {
            assert(key_code(q[a + 1].0) < key_code(q[b + 1].0));
        }
        lemma_sorted_same_entries(p_rest, q_rest);
        assert(p =~= seq![p[0]] + p_rest);
        assert(q =~= seq![q[0]] + q_rest);
    }
}

/// No key occurs twice.
pub open spec fn unique_keys(s: EntriesModel) -> bool {
    forall|i: int, j: int| 0 <= i < j < s.len() ==> (#[trigger] s[i]).0 != (#[trigger] s[j]).0
}

/// The sorted entries are ascending, and hold exactly the entries when no
/// key occurs twice.
proof fn lemma_sorted_of(s: EntriesModel)
    ensures
        sorted_keys(sorted_of(s)),
        unique_keys(s) ==> same_entries(sorted_of(s), s),
    decreases s.len(),
{
    if s.len() > 0 {
        let init = s.drop_last();
        let e = s.last();
        lemma_sorted_of(init);
        lemma_put(sorted_of(init), e.0, e.1);
        if unique_keys(s) {
            assert(unique_keys(init)) by {
                assert forall|i: int, j: int| 0 <= i < j < init.len() implies (
                #[trigger] init[i]).0 != (#[trigger] init[j]).0 by {
                    assert(init[i] == s[i] && init[j] == s[j]);
                }
            }
            assert forall|x: (char, Seq<char>)| sorted_of(s).contains(x) <==> s.contains(x) by {
                if init.contains(x) {
                    let k = choose|k: int| 0 <= k < init.len() && init[k] == x;
                    assert(s[k] == x);
                    assert(s[k].0 != s[s.len() - 1].0);
                }
                if s.contains(x) {
                    let k = choose|k: int| 0 <= k < s.len() && s[k] == x;
                    if k < s.len() - 1 {
                        assert(init[k] == x);
                        assert(s[k].0 != s[s.len() - 1].0);
                    }
                }
            }
        }
    }
}

/// Serializing a palette writes its entries in ascending code-point order,
/// and two palettes with the same entries (no key twice in either), in
/// whatever order they were inserted or stored, are written as the same
/// lines, byte for byte.
pub proof fn palette_ordering_determinism(p: Palette, q: Palette)
    requires
        unique_keys(p@),
        unique_keys(q@),
        same_entries(p@, q@),
    ensures
        same_entries(sorted_of(p@), p@),
        entry_lines(sorted_of(p@)) == entry_lines(sorted_of(q@)),
        forall|i: int, j: int|
            0 <= i < j < sorted_of(p@).len() ==> key_code(#[trigger] sorted_of(p@)[i].0)
                < key_code(#[trigger] sorted_of(p@)[j].0),
{
    lemma_sorted_of(p@);
    lemma_sorted_of(q@);
    assert(same_entries(sorted_of(p@), sorted_of(q@)));
    lemma_sorted_same_entries(sorted_of(p@), sorted_of(q@));
}

/// A glyph that closes under another name than it opened with is a fatal
/// error at the closing line, and no document comes back.
pub proof fn fatal_on_name_mismatch(a: Seq<char>, b: Seq<char>)
    requires
        plain_value(a),
        plain_value(b),
        a != b,
    ensures
        parse_spec("GLYPH "@ + a + "\n"@ + "END GLYPH "@ + b + "\n"@) == Err::<DocModel, Seq<char>>(
            at(
                2,
                "END GLYPH name mismatch: Found "@ + quoted(b) + ", expected "@ + quoted(a) + "."@,
            ),
        ),
{
    reveal_strlit("\n");
    reveal_strlit("GLYPH ");
    reveal_strlit("END GLYPH ");
    reveal_strlit("PALETTE");
    let l1 = "GLYPH "@ + a;
    let l2 = "END GLYPH "@ + b;
    let nl: Seq<char> = seq!['\n'];
    let text = "GLYPH "@ + a + "\n"@ + "END GLYPH "@ + b + "\n"@;
    assert(text =~= l1 + nl + (l2 + nl + Seq::<char>::empty()));
    assert(!has_char(l1, '\n')) by {
        if has_char(l1, '\n') {
            let j = choose|j: int| 0 <= j < l1.len() && l1[j] == '\n';
            if j >= 6 {
                assert(l1[j] == a[j - 6]);
                assert(has_char(a, '\n'));
            }
        }
    }
    assert(!has_char(l2, '\n')) by {
        if has_char(l2, '\n') {
            let j = choose|j: int| 0 <= j < l2.len() && l2[j] == '\n';
            if j >= 10 {
                assert(l2[j] == b[j - 10]);
                assert(has_char(b, '\n'));
            }
        }
    }
    assert(l1.last() == a.last());
    assert(l2.last() == b.last());
    assert(line_ok(l1));
    assert(line_ok(l2));
    lemma_lines_cons(l1, l2 + nl + Seq::<char>::empty());
    lemma_lines_cons(l2, Seq::<char>::empty());
    assert(lines_of(Seq::<char>::empty()) =~= Seq::<Seq<char>>::empty());
    let ls = lines_of(text);
    assert(ls =~= seq![l1] + seq![l2]);
    let c0 = initial_context();
    lemma_glyph_open(a, 1, c0);
    let c1 = ContextModel {
        glyph: crate::types::new_glyph_model(a),
        collected: 0,
        palette_seen: false,
        ..c0
    };
    reveal(step);
    assert(l2[0] == 'E');
    lemma_trim_id(l2);
    assert(l2[0] != "PALETTE"@[0]);
    assert(l2.subrange(0, 10) =~= "END GLYPH "@);
    assert(l2.subrange(10, l2.len() as int) =~= b);
    lemma_run_one(l2, 2, ParseState::InGlyphDefinition, c1);
    lemma_run_add(seq![l1], seq![l2], 1, ParseState::Searching, c0);
}

/// The metadata line `CHAR ` (a space after the keyword and nothing else)
/// sets the glyph's character to the space; it is neither an error nor a
/// missing value, before or after `SIZE`.
pub proof fn char_space_handling(c: ContextModel, n: nat)
    ensures
        step(ParseState::InGlyphDefinition, c, n, "CHAR "@) == Ok::<
            (ParseState, ContextModel),
            Seq<char>,
        >(
            (
                ParseState::InGlyphDefinition,
                ContextModel { glyph: GlyphModel { char_repr: Some(' '), ..c.glyph }, ..c },
            ),
        ),
{
    reveal(step);
    reveal_strlit("CHAR ");
    reveal_strlit("CHAR");
    let raw = "CHAR "@;
    let t4 = seq!['C', 'H', 'A', 'R'];
    assert(raw =~= t4.push(' '));
    assert(raw.drop_last() =~= t4);
    assert(trim_start(raw) == raw);
    assert(is_ws(raw.last()));
    assert(crate::text::trim_end(raw) == crate::text::trim_end(t4));
    assert(crate::text::trim_end(t4) == t4);
    assert(trim(raw) == t4);
    lemma_not_keyword(t4);
    assert(raw.subrange(0, 4) =~= "CHAR"@);
    assert(raw.subrange(0, 5) =~= raw);
    reveal_strlit("DATA");
    assert(t4[0] != "DATA"@[0]);
    let v = raw.subrange(5, 5);
    assert(v =~= Seq::<char>::empty());
    assert(trim(v) =~= Seq::<char>::empty());
}

/// Text that ends inside a data block is not an error: the open glyph is
/// committed with a warning that gives the expected and the found row counts.
pub proof fn end_of_input_salvage(text: Seq<char>)
    requires
        run(lines_of(text), 1, ParseState::Searching, initial_context()) matches Ok((st, c)) && st
            == ParseState::InBitmap,
    ensures
        ({
            let c = run(lines_of(text), 1, ParseState::Searching, initial_context())->Ok_0.1;
            let g = c.glyph;
            parse_spec(text) == Ok::<DocModel, Seq<char>>(
                DocModel {
                    glyphs: c.doc.glyphs.push(
                        add_warning(
                            g,
                            eof_warning(g.name, g.size->Some_0.height as nat, c.collected),
                        ),
                    ),
                    ..c.doc
                },
            )
        }),
{
}

/// Two palettes with the same entries, neither holding a key twice.
pub open spec fn same_palette(p: EntriesModel, q: EntriesModel) -> bool {
    unique_keys(p) && unique_keys(q) && same_entries(p, q)
}

/// Two glyphs that differ at most in the order of their palette entries.
pub open spec fn glyphs_differ_in_palette_order(g1: GlyphModel, g2: GlyphModel) -> bool {
    same_palette(g1.palette, g2.palette) && (GlyphModel { palette: g2.palette, ..g1 }) == g2
}

/// Two documents that differ at most in the order in which the entries of
/// their palettes (the default one and each glyph's) were inserted.
pub open spec fn docs_differ_in_palette_order(d1: DocModel, d2: DocModel) -> bool {
    &&& same_palette(d1.header.default_palette, d2.header.default_palette)
    &&& (HeaderModel { default_palette: d2.header.default_palette, ..d1.header }) == d2.header
    &&& d1.glyphs.len() == d2.glyphs.len()
    &&& forall|i: int|
        0 <= i < d1.glyphs.len() ==> glyphs_differ_in_palette_order(
            #[trigger] d1.glyphs[i],
            d2.glyphs[i],
        )
}

proof fn lemma_same_palette_lines(p: EntriesModel, q: EntriesModel)
    requires
        same_palette(p, q),
    ensures
        default_palette_lines(p) == default_palette_lines(q),
        glyph_palette_lines(p) == glyph_palette_lines(q),
{
    lemma_sorted_of(p);
    lemma_sorted_of(q);
    assert(same_entries(sorted_of(p), sorted_of(q)));
    lemma_sorted_same_entries(sorted_of(p), sorted_of(q));
    if p.len() > 0 {
        assert(p.contains(p[0]));
        assert(q.contains(p[0]));
    }
    if q.len() > 0 {
        assert(q.contains(q[0]));
        assert(p.contains(q[0]));
    }
}

proof fn lemma_glyphs_lines_palette_order(gs1: Seq<GlyphModel>, gs2: Seq<GlyphModel>)
    requires
        gs1.len() == gs2.len(),
        forall|i: int|
            0 <= i < gs1.len() ==> glyphs_differ_in_palette_order(#[trigger] gs1[i], gs2[i]),
    ensures
        glyphs_lines(gs1) == glyphs_lines(gs2),
    decreases gs1.len(),
{
    if gs1.len() > 0 {
        let (i1, i2) = (gs1.drop_last(), gs2.drop_last());
        assert forall|i: int| 0 <= i < i1.len() implies glyphs_differ_in_palette_order(
            #[trigger] i1[i],
            i2[i],
        ) by {
            assert(i1[i] == gs1[i] && i2[i] == gs2[i]);
        }
        lemma_glyphs_lines_palette_order(i1, i2);
        let k = gs1.len() - 1;
        assert(glyphs_differ_in_palette_order(gs1[k], gs2[k]));
        lemma_same_palette_lines(gs1[k].palette, gs2[k].palette);
        assert(glyph_lines(gs1.last()) == glyph_lines(gs2.last()));
    }
}

/// Documents that differ only in the order in which their palette entries
/// were inserted are written as the same text, byte for byte.
pub proof fn palette_ordering_in_documents(d1: GtfDocument, d2: GtfDocument)
    requires
        docs_differ_in_palette_order(d1@, d2@),
    ensures
        serialize_spec(d1@) == serialize_spec(d2@),
{
    let (a, b) = (d1@, d2@);
    lemma_same_palette_lines(a.header.default_palette, b.header.default_palette);
    lemma_glyphs_lines_palette_order(a.glyphs, b.glyphs);
    assert(header_lines(a.header) == header_lines(b.header));
    assert(doc_lines(a) == doc_lines(b));
}

} // verus!
