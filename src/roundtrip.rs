//! Lemmas behind the laws that tie the reader to the writer.
use vstd::prelude::*;

use crate::parse::{
    char_warnings, commit, digit_value, digits_value, initial_context, is_digit, palette_line,
    parse_spec, row_warnings, run, size_of_text, step, take_row, u32_of, ContextModel, ParseState,
};
use crate::serialize::{
    default_palette_lines, doc_lines, entry_line, entry_lines, glyph_data_lines, glyph_lines,
    glyph_meta_lines, glyph_palette_lines, glyphs_lines, header_field_lines, header_lines,
    lemma_text_of_add, lemma_text_of_one, opt_line, opt_single_line, serialize_spec, single_line,
    size_text, text_of,
};
use crate::text::{
    dec, digit, find_nl, has_char, index_of_from, is_ws, lemma_find_nl_bounds, lemma_find_nl_is,
    lemma_index_of_from_is, lemma_non_ws_from_is, lemma_ws_from_is, lines_from, lines_of, no_ws,
    starts_with, strip_cr, trim, trim_end, trim_start, utf8_len,
};
use crate::types::{
    lemma_sorted_of_sorted, sorted_of, empty_header_model, has_key, key_code, lemma_first_not_below_is, new_glyph_model,
    sorted_keys, DocModel, EntriesModel, GlyphModel, HeaderModel, Size,
};

verus! {

/// A line that `str::lines` gives back unchanged: no line feed, and no
/// carriage return at its end.
pub open spec fn line_ok(l: Seq<char>) -> bool {
    !has_char(l, '\n') && (l.len() == 0 || l.last() != '\r')
}

pub open spec fn all_lines_ok(ls: Seq<Seq<char>>) -> bool {
    forall|i: int| 0 <= i < ls.len() ==> line_ok(#[trigger] ls[i])
}

proof fn lemma_find_nl_shift(u: Seq<char>, v: Seq<char>, q: int)
    requires
        0 <= q,
    ensures
        find_nl(u + v, u.len() + q) == u.len() + find_nl(v, q),
    decreases v.len() - q,
{
    if q < v.len() {
        assert((u + v)[u.len() + q] == v[q]);
        if v[q] != '\n' {
            lemma_find_nl_shift(u, v, q + 1);
        }
    }
}

proof fn lemma_lines_from_shift(u: Seq<char>, v: Seq<char>, q: int)
    requires
        0 <= q,
    ensures
        lines_from(u + v, u.len() + q) == lines_from(v, q),
    decreases v.len() - q,
{
    let s = u + v;
    if q < v.len() {
        lemma_find_nl_shift(u, v, q);
        lemma_find_nl_bounds(v, q);
        let k = find_nl(v, q);
        assert(s.subrange(u.len() + q, u.len() + k) =~= v.subrange(q, k));
        assert(s.subrange(u.len() + q, s.len() as int) =~= v.subrange(q, v.len() as int));
        if k < v.len() {
            lemma_lines_from_shift(u, v, k + 1);
        }
    }
}

/// A line, its line feed, and what follows.
pub proof fn lemma_lines_cons(l: Seq<char>, rest: Seq<char>)
    requires
        line_ok(l),
    ensures
        lines_of(l + seq!['\n'] + rest) == seq![l] + lines_of(rest),
{
    let s = l + seq!['\n'] + rest;
    assert forall|j: int| 0 <= j < l.len() implies s[j] != '\n' by {
        assert(s[j] == l[j]);
        if l[j] == '\n' {
            assert(has_char(l, '\n'));
        }
    }
    assert(s[l.len() as int] == '\n');
    lemma_find_nl_is(s, 0, l.len() as int);
    assert(s.subrange(0, l.len() as int) =~= l);
    assert(strip_cr(l) == l);
    assert(s =~= (l + seq!['\n']) + rest);
    lemma_lines_from_shift(l + seq!['\n'], rest, 0);
}

/// A last line without a line feed after it.
pub proof fn lemma_lines_single(x: Seq<char>)
    requires
        x.len() > 0,
        !has_char(x, '\n'),
    ensures
        lines_of(x) == seq![x],
{
    assert forall|j: int| 0 <= j < x.len() implies x[j] != '\n' by {
        if x[j] == '\n' {
            assert(has_char(x, '\n'));
        }
    }
    lemma_find_nl_is(x, 0, x.len() as int);
    assert(x.subrange(0, x.len() as int) =~= x);
}

/// The lines written with line feeds read back as the same lines.
pub proof fn lemma_lines_of_text(ls: Seq<Seq<char>>, x: Seq<char>)
    requires
        all_lines_ok(ls),
        x.len() > 0,
        !has_char(x, '\n'),
    ensures
        lines_of(text_of(ls) + x) == ls.push(x),
    decreases ls.len(),
{
    if ls.len() == 0 {
        assert(text_of(ls) + x =~= x);
        lemma_lines_single(x);
        assert(ls.push(x) =~= seq![x]);
    } else {
        let l = ls[0];
        let rest = ls.drop_first();
        assert(ls =~= seq![l] + rest);
        lemma_text_of_add(seq![l], rest);
        lemma_text_of_one(l);
        assert(all_lines_ok(rest)) by {
            assert forall|i: int| 0 <= i < rest.len() implies line_ok(#[trigger] rest[i]) by {
                assert(rest[i] == ls[i + 1]);
            }
        }
        lemma_lines_of_text(rest, x);
        assert(line_ok(ls[0]));
        assert(text_of(ls) + x =~= l + seq!['\n'] + (text_of(rest) + x));
        lemma_lines_cons(l, text_of(rest) + x);
        assert(ls.push(x) =~= seq![l] + rest.push(x));
    }
}

/// The written text without its two final line feeds.
pub proof fn lemma_trim_end_written(ls: Seq<Seq<char>>, x: Seq<char>)
    requires
        x.len() > 0,
        !is_ws(x.last()),
    ensures
        trim_end(text_of(ls.push(x).push(Seq::empty()))) == text_of(ls) + x,
{
    let e: Seq<char> = Seq::empty();
    let a = text_of(ls) + x;
    assert(ls.push(x).push(e).drop_last() =~= ls.push(x));
    assert(ls.push(x).drop_last() =~= ls);
    assert(text_of(ls.push(x)) == text_of(ls) + x + seq!['\n']);
    assert(text_of(ls.push(x).push(e)) == text_of(ls.push(x)) + e + seq!['\n']);
    let t2 = a + seq!['\n'] + seq!['\n'];
    assert(text_of(ls.push(x).push(e)) =~= t2);
    assert(t2.drop_last() =~= a + seq!['\n']);
    assert(is_ws(t2.last()));
    assert(trim_end(t2) == trim_end(a + seq!['\n']));
    assert((a + seq!['\n']).drop_last() =~= a);
    assert(is_ws((a + seq!['\n']).last()));
    assert(trim_end(a + seq!['\n']) == trim_end(a));
    assert(a.last() == x.last());
}

/// Reading `a` then `b` is reading `a`, then `b` from where `a` left off.
pub proof fn lemma_run_add(
    a: Seq<Seq<char>>,
    b: Seq<Seq<char>>,
    n: nat,
    st: ParseState,
    c: ContextModel,
)
    ensures
        run(a + b, n, st, c) == match run(a, n, st, c) {
            Err(e) => Err(e),
            Ok((st2, c2)) => run(b, n + a.len(), st2, c2),
        },
    decreases a.len(),
{
    if a.len() == 0 {
        assert(a + b =~= b);
    } else {
        assert((a + b)[0] == a[0]);
        assert((a + b).drop_first() =~= a.drop_first() + b);
        match step(st, c, n, a[0]) {
            Err(e) => {},
            Ok((st2, c2)) => {
                lemma_run_add(a.drop_first(), b, n + 1, st2, c2);
            },
        }
    }
}

pub proof fn lemma_run_one(l: Seq<char>, n: nat, st: ParseState, c: ContextModel)
    ensures
        run(seq![l], n, st, c) == step(st, c, n, l),
{
    assert(seq![l].drop_first() =~= Seq::<Seq<char>>::empty());
    assert(seq![l][0] == l);
    match step(st, c, n, l) {
        Err(e) => {},
        Ok((st2, c2)) => {
            assert(run(Seq::<Seq<char>>::empty(), n + 1, st2, c2) == Ok::<
                (ParseState, ContextModel),
                Seq<char>,
            >((st2, c2)));
        },
    }
}

/// Text without surrounding whitespace is its own trim.
pub proof fn lemma_trim_id(s: Seq<char>)
    requires
        s.len() > 0,
        !is_ws(s[0]),
        !is_ws(s.last()),
    ensures
        trim(s) == s,
        trim_start(s) == s,
{
}

/// The value of decimal digits read from the right.
pub open spec fn dval(s: Seq<char>) -> nat
    decreases s.len(),
{
    if s.len() == 0 {
        0
    } else {
        dval(s.drop_last()) * 10 + digit_value(s.last())
    }
}

pub open spec fn all_digits(s: Seq<char>) -> bool {
    forall|i: int| 0 <= i < s.len() ==> is_digit(#[trigger] s[i])
}

proof fn lemma_dval_prefix(s: Seq<char>, k: int)
    requires
        0 <= k <= s.len(),
    ensures
        dval(s.subrange(0, k)) <= dval(s),
    decreases s.len() - k,
{
    if k < s.len() {
        lemma_dval_prefix(s, k + 1);
        assert(s.subrange(0, k + 1).drop_last() =~= s.subrange(0, k));
    } else {
        assert(s.subrange(0, k) =~= s);
    }
}

proof fn lemma_digits_value_dval(s: Seq<char>, k: int)
    requires
        0 <= k <= s.len(),
        all_digits(s),
        dval(s) <= u32::MAX,
    ensures
        digits_value(s, k, dval(s.subrange(0, k))) == Ok::<nat, Seq<char>>(dval(s)),
    decreases s.len() - k,
{
    if k < s.len() {
        assert(s.subrange(0, k + 1).drop_last() =~= s.subrange(0, k));
        assert(s.subrange(0, k + 1).last() == s[k]);
        lemma_dval_prefix(s, k + 1);
        assert(is_digit(s[k]));
        lemma_digits_value_dval(s, k + 1);
    } else {
        assert(s.subrange(0, k) =~= s);
    }
}

proof fn lemma_digit(d: nat)
    requires
        d < 10,
    ensures
        is_digit(digit(d)),
        digit_value(digit(d)) == d,
{
}

proof fn lemma_dec_digits(n: nat)
    ensures
        all_digits(dec(n)),
        dval(dec(n)) == n,
        dec(n).len() > 0,
        !has_char(dec(n), 'x'),
        !has_char(dec(n), '\n'),
        !is_ws(dec(n).last()),
        !is_ws(dec(n)[0]),
        dec(n)[0] != '+',
    decreases n,
{
    if n < 10 {
        lemma_digit(n);
        assert(dec(n) =~= seq![digit(n)]);
        assert(dec(n).drop_last() =~= Seq::<char>::empty());
        assert(dval(Seq::<char>::empty()) == 0);
        assert(!has_char(dec(n), 'x'));
        assert(!has_char(dec(n), '\n'));
    } else {
        lemma_dec_digits(n / 10);
        lemma_digit(n % 10);
        let s = dec(n);
        assert(s == dec(n / 10).push(digit(n % 10)));
        assert(s.drop_last() =~= dec(n / 10));
        assert((n / 10) * 10 + n % 10 == n) by (nonlinear_arith);
        assert(dval(s) == dval(dec(n / 10)) * 10 + digit_value(digit(n % 10)));
        assert forall|i: int| 0 <= i < s.len() implies is_digit(#[trigger] s[i]) by {
            if i < s.len() - 1 {
                assert(s[i] == dec(n / 10)[i]);
            }
        }
        assert(!has_char(s, 'x')) by {
            if has_char(s, 'x') {
                let i = choose|i: int| 0 <= i < s.len() && s[i] == 'x';
                assert(is_digit(s[i]));
            }
        }
        assert(!has_char(s, '\n')) by {
            if has_char(s, '\n') {
                let i = choose|i: int| 0 <= i < s.len() && s[i] == '\n';
                assert(is_digit(s[i]));
            }
        }
        assert(s[0] == dec(n / 10)[0]);
    }
}

/// The decimal text of a `u32` reads back as that number.
pub proof fn lemma_u32_of_dec(n: u32)
    ensures
        u32_of(dec(n as nat)) == Ok::<u32, Seq<char>>(n),
{
    lemma_dec_digits(n as nat);
    lemma_digits_value_dval(dec(n as nat), 0);
    assert(dec(n as nat).subrange(0, 0) =~= Seq::<char>::empty());
}

/// A size written as `WxH` reads back as the same size.
pub proof fn lemma_size_text(s: Size)
    requires
        s.width > 0,
        s.height > 0,
    ensures
        size_of_text(size_text(s)) == Ok::<Size, Seq<char>>(s),
        size_text(s).len() > 0,
        !has_char(size_text(s), '\n'),
        !is_ws(size_text(s)[0]),
        !is_ws(size_text(s).last()),
{
    let w = dec(s.width as nat);
    let h = dec(s.height as nat);
    let t = size_text(s);
    lemma_dec_digits(s.width as nat);
    lemma_dec_digits(s.height as nat);
    lemma_u32_of_dec(s.width);
    lemma_u32_of_dec(s.height);
    reveal_strlit("x");
    assert(t =~= w + seq!['x'] + h);
    assert forall|j: int| 0 <= j < w.len() implies t[j] != 'x' by {
        assert(t[j] == w[j]);
        if w[j] == 'x' {
            assert(has_char(w, 'x'));
        }
    }
    lemma_index_of_from_is(t, 'x', 0, w.len() as int);
    assert forall|j: int| w.len() + 1 <= j < t.len() implies t[j] != 'x' by {
        assert(t[j] == h[j - w.len() - 1]);
        if h[j - w.len() - 1] == 'x' {
            assert(has_char(h, 'x'));
        }
    }
    lemma_index_of_from_is(t, 'x', (w.len() + 1) as int, t.len() as int);
    assert(t.subrange(0, w.len() as int) =~= w);
    assert(t.subrange((w.len() + 1) as int, t.len() as int) =~= h);
    assert(!has_char(t, '\n')) by {
        if has_char(t, '\n') {
            let j = choose|j: int| 0 <= j < t.len() && t[j] == '\n';
            if j < w.len() {
                assert(t[j] == w[j]);
                assert(has_char(w, '\n'));
            } else if j > w.len() {
                assert(t[j] == h[j - w.len() - 1]);
                assert(has_char(h, '\n'));
            }
        }
    }
    assert(t[0] == w[0]);
    assert(t.last() == h.last());
}

// ---- documents that read back as themselves ----
/// A one-line text value that reads back unchanged: not empty, no line
/// feed, no whitespace at either end.
pub open spec fn plain_value(v: Seq<char>) -> bool {
    v.len() > 0 && !has_char(v, '\n') && !is_ws(v[0]) && !is_ws(v.last())
}

pub open spec fn opt_plain(v: Option<Seq<char>>) -> bool {
    v matches Some(x) ==> plain_value(x)
}

/// `#` and 3 or 6 more bytes, without whitespace.
pub open spec fn color_ok(v: Seq<char>) -> bool {
    v.len() > 0 && v[0] == '#' && (utf8_len(v) == 7 || utf8_len(v) == 4) && no_ws(v)
}

/// Keys ascending, none of them whitespace, colours well formed.
pub open spec fn palette_ok(p: EntriesModel) -> bool {
    &&& sorted_keys(p)
    &&& forall|i: int| 0 <= i < p.len() ==> !is_ws((#[trigger] p[i]).0) && color_ok(p[i].1)
}

pub open spec fn size_ok(s: Size) -> bool {
    s.width > 0 && s.height > 0
}

pub open spec fn header_ok(h: HeaderModel) -> bool {
    &&& opt_plain(h.font_name)
    &&& opt_plain(h.version)
    &&& opt_plain(h.author)
    &&& opt_plain(h.description)
    &&& (h.default_size matches Some(s) ==> size_ok(s))
    &&& palette_ok(h.default_palette)
}

pub open spec fn set_header(c: ContextModel, h: HeaderModel) -> ContextModel {
    ContextModel { doc: DocModel { header: h, ..c.doc }, ..c }
}

proof fn lemma_opt_header(
    key: Seq<char>,
    v: Option<Seq<char>>,
    n: nat,
    c: ContextModel,
    c2: ContextModel,
)
    requires
        v is None ==> c2 == c,
        v matches Some(x) ==> step(ParseState::InHeader, c, n, key + x) == Ok::<
            (ParseState, ContextModel),
            Seq<char>,
        >((ParseState::InHeader, c2)),
    ensures
        run(opt_line(key, v), n, ParseState::InHeader, c) == Ok::<
            (ParseState, ContextModel),
            Seq<char>,
        >((ParseState::InHeader, c2)),
{
    match v {
        Some(x) => {
            lemma_run_one(key + x, n, ParseState::InHeader, c);
        },
        None => {},
    }
}

/// `KEY value`: where the key ends and what the value reads as.
proof fn lemma_kv(key_sp: Seq<char>, v: Seq<char>)
    requires
        key_sp.len() >= 2,
        key_sp.last() == ' ',
        forall|i: int| 0 <= i < key_sp.len() - 1 ==> key_sp[i] != ' ',
        !is_ws(key_sp[0]),
        plain_value(v),
    ensures
        ({
            let t = key_sp + v;
            let k = key_sp.len() - 1;
            &&& trim(t) == t
            &&& trim_start(t) == t
            &&& index_of_from(t, ' ', 0) == k
            &&& t.subrange(0, k) == key_sp.subrange(0, k)
            &&& trim(t.subrange(k + 1, t.len() as int)) == v
            &&& forall|i: int| 0 <= i < key_sp.len() ==> t[i] == key_sp[i]
        }),
{
    let t = key_sp + v;
    let k = key_sp.len() - 1;
    assert(t[0] == key_sp[0]);
    assert(t.last() == v.last());
    lemma_trim_id(t);
    assert forall|i: int| 0 <= i < k implies t[i] != ' ' by {
        assert(t[i] == key_sp[i]);
    }
    assert(t[k] == ' ');
    lemma_index_of_from_is(t, ' ', 0, k);
    assert(t.subrange(0, k) =~= key_sp.subrange(0, k));
    assert(t.subrange(k + 1, t.len() as int) =~= v);
    lemma_trim_id(v);
}

proof fn lemma_font_step(v: Seq<char>, hp: HeaderModel, c: ContextModel, n: nat)
    requires
        plain_value(v),
    ensures
        step(ParseState::InHeader, set_header(c, hp), n, "FONT "@ + v) == Ok::<
            (ParseState, ContextModel),
            Seq<char>,
        >((ParseState::InHeader, set_header(c, HeaderModel { font_name: Some(v), ..hp }))),
{
    reveal(step);
    reveal_strlit("FONT ");
    reveal_strlit("FONT");
    reveal_strlit("DEFAULT_PALETTE");
    reveal_strlit("END HEADER");
    lemma_kv("FONT "@, v);
    let t = "FONT "@ + v;
    assert(t[0] != "DEFAULT_PALETTE"@[0]);
    assert(t[0] != "END HEADER"@[0]);
    assert(t.subrange(0, 4) =~= "FONT"@);
}

proof fn lemma_version_step(v: Seq<char>, hp: HeaderModel, c: ContextModel, n: nat)
    requires
        plain_value(v),
    ensures
        step(ParseState::InHeader, set_header(c, hp), n, "VERSION "@ + v) == Ok::<
            (ParseState, ContextModel),
            Seq<char>,
        >((ParseState::InHeader, set_header(c, HeaderModel { version: Some(v), ..hp }))),
{
    reveal(step);
    reveal_strlit("VERSION ");
    reveal_strlit("VERSION");
    reveal_strlit("FONT");
    reveal_strlit("DEFAULT_PALETTE");
    reveal_strlit("END HEADER");
    lemma_kv("VERSION "@, v);
    let t = "VERSION "@ + v;
    assert(t[0] != "DEFAULT_PALETTE"@[0]);
    assert(t[0] != "END HEADER"@[0]);
    assert(t.subrange(0, 7) =~= "VERSION"@);
}

proof fn lemma_author_step(v: Seq<char>, hp: HeaderModel, c: ContextModel, n: nat)
    requires
        plain_value(v),
    ensures
        step(ParseState::InHeader, set_header(c, hp), n, "AUTHOR "@ + v) == Ok::<
            (ParseState, ContextModel),
            Seq<char>,
        >((ParseState::InHeader, set_header(c, HeaderModel { author: Some(v), ..hp }))),
{
    reveal(step);
    reveal_strlit("AUTHOR ");
    reveal_strlit("AUTHOR");
    reveal_strlit("FONT");
    reveal_strlit("VERSION");
    reveal_strlit("DEFAULT_PALETTE");
    reveal_strlit("END HEADER");
    lemma_kv("AUTHOR "@, v);
    let t = "AUTHOR "@ + v;
    assert(t[0] != "DEFAULT_PALETTE"@[0]);
    assert(t[0] != "END HEADER"@[0]);
    assert(t.subrange(0, 6) =~= "AUTHOR"@);
}

proof fn lemma_description_step(v: Seq<char>, hp: HeaderModel, c: ContextModel, n: nat)
    requires
        plain_value(v),
    ensures
        single_line(v) == v,
        step(ParseState::InHeader, set_header(c, hp), n, "DESCRIPTION "@ + v) == Ok::<
            (ParseState, ContextModel),
            Seq<char>,
        >((ParseState::InHeader, set_header(c, HeaderModel { description: Some(v), ..hp }))),
{
    reveal(step);
    reveal_strlit("DESCRIPTION ");
    reveal_strlit("DESCRIPTION");
    reveal_strlit("FONT");
    reveal_strlit("VERSION");
    reveal_strlit("AUTHOR");
    reveal_strlit("DEFAULT_PALETTE");
    reveal_strlit("END HEADER");
    assert(single_line(v) =~= v) by {
        assert forall|i: int| 0 <= i < v.len() implies v[i] != '\n' by {
            if v[i] == '\n' {
                assert(has_char(v, '\n'));
            }
        }
    }
    lemma_kv("DESCRIPTION "@, v);
    let t = "DESCRIPTION "@ + v;
    assert(t[2] != "DEFAULT_PALETTE"@[2]);
    assert(t[0] != "END HEADER"@[0]);
    assert(t.subrange(0, 11) =~= "DESCRIPTION"@);
}

proof fn lemma_default_size_step(sz: Size, hp: HeaderModel, c: ContextModel, n: nat)
    requires
        size_ok(sz),
    ensures
        step(
            ParseState::InHeader,
            set_header(c, hp),
            n,
            "DEFAULT_SIZE "@ + crate::serialize::size_text(sz),
        ) == Ok::<(ParseState, ContextModel), Seq<char>>(
            (ParseState::InHeader, set_header(c, HeaderModel { default_size: Some(sz), ..hp })),
        ),
{
    reveal(step);
    reveal_strlit("DEFAULT_SIZE ");
    reveal_strlit("DEFAULT_SIZE");
    reveal_strlit("FONT");
    reveal_strlit("VERSION");
    reveal_strlit("AUTHOR");
    reveal_strlit("DESCRIPTION");
    reveal_strlit("DEFAULT_PALETTE");
    reveal_strlit("END HEADER");
    let v = crate::serialize::size_text(sz);
    lemma_size_text(sz);
    lemma_kv("DEFAULT_SIZE "@, v);
    let t = "DEFAULT_SIZE "@ + v;
    assert(t[8] != "DEFAULT_PALETTE"@[8]);
    assert(t[0] != "END HEADER"@[0]);
    assert(t.subrange(0, 12) =~= "DEFAULT_SIZE"@);
}

proof fn lemma_header_keyword(n: nat, c: ContextModel)
    ensures
        run(seq!["HEADER"@], n, ParseState::Searching, c) == Ok::<
            (ParseState, ContextModel),
            Seq<char>,
        >((ParseState::InHeader, c)),
{
    reveal(step);
    reveal_strlit("HEADER");
    lemma_run_one("HEADER"@, n, ParseState::Searching, c);
    lemma_trim_id("HEADER"@);
}

proof fn lemma_header_fields(h: HeaderModel, c: ContextModel, n: nat)
    requires
        header_ok(h),
        c.doc.header == empty_header_model(),
    ensures
        run(header_field_lines(h), n, ParseState::Searching, c) == Ok::<
            (ParseState, ContextModel),
            Seq<char>,
        >(
            (
                ParseState::InHeader,
                set_header(c, HeaderModel { default_palette: Seq::empty(), ..h }),
            ),
        ),
{
    let h0 = empty_header_model();
    let h1 = HeaderModel { font_name: h.font_name, ..h0 };
    let h2 = HeaderModel { version: h.version, ..h1 };
    let h3 = HeaderModel { author: h.author, ..h2 };
    let h4 = HeaderModel { description: h.description, ..h3 };
    let h5 = HeaderModel { default_size: h.default_size, ..h4 };
    let g0: Seq<Seq<char>> = seq!["HEADER"@];
    let g1 = opt_line("FONT "@, h.font_name);
    let g2 = opt_line("VERSION "@, h.version);
    let g3 = opt_line("AUTHOR "@, h.author);
    let g4 = opt_line("DESCRIPTION "@, opt_single_line(h.description));
    let g5 = match h.default_size {
        Some(s) => seq!["DEFAULT_SIZE "@ + crate::serialize::size_text(s)],
        None => Seq::<Seq<char>>::empty(),
    };
    assert(set_header(c, h0) == c);
    lemma_header_keyword(n, c);
    let n1 = n + 1;
    if let Some(v) = h.font_name {
        lemma_font_step(v, h0, c, n1);
    }
    lemma_opt_header("FONT "@, h.font_name, n1, set_header(c, h0), set_header(c, h1));
    let n2 = n1 + g1.len();
    if let Some(v) = h.version {
        lemma_version_step(v, h1, c, n2);
    }
    lemma_opt_header("VERSION "@, h.version, n2, set_header(c, h1), set_header(c, h2));
    let n3 = n2 + g2.len();
    if let Some(v) = h.author {
        lemma_author_step(v, h2, c, n3);
    }
    lemma_opt_header("AUTHOR "@, h.author, n3, set_header(c, h2), set_header(c, h3));
    let n4 = n3 + g3.len();
    if let Some(v) = h.description {
        lemma_description_step(v, h3, c, n4);
    }
    lemma_opt_header(
        "DESCRIPTION "@,
        opt_single_line(h.description),
        n4,
        set_header(c, h3),
        set_header(c, h4),
    );
    let n5 = n4 + g4.len();
    if let Some(sz) = h.default_size {
        lemma_default_size_step(sz, h4, c, n5);
        lemma_run_one(
            "DEFAULT_SIZE "@ + crate::serialize::size_text(sz),
            n5,
            ParseState::InHeader,
            set_header(c, h4),
        );
    }
    assert(h5 == HeaderModel { default_palette: Seq::empty(), ..h });
    lemma_run_add(g0, g1, n, ParseState::Searching, c);
    lemma_run_add(g0 + g1, g2, n, ParseState::Searching, c);
    lemma_run_add(g0 + g1 + g2, g3, n, ParseState::Searching, c);
    lemma_run_add(g0 + g1 + g2 + g3, g4, n, ParseState::Searching, c);
    lemma_run_add(g0 + g1 + g2 + g3 + g4, g5, n, ParseState::Searching, c);
}

/// A palette entry line reads back as that entry, appended after smaller keys.
proof fn lemma_entry_line(e: (char, Seq<char>), prefix: EntriesModel)
    requires
        !is_ws(e.0),
        color_ok(e.1),
        forall|i: int| 0 <= i < prefix.len() ==> key_code(#[trigger] prefix[i].0) < key_code(e.0),
    ensures
        ({
            let t = entry_line(e);
            &&& trim(t) == t
            &&& t.len() >= 3
            &&& t[1] == ' '
            &&& palette_line(t, prefix) == Ok::<EntriesModel, Seq<char>>(prefix.push(e))
            &&& line_ok(t)
            &&& !is_ws(t.last())
        }),
{
    reveal_strlit(" ");
    let (c, color) = e;
    let t = entry_line(e);
    assert(t =~= seq![c, ' '] + color);
    let len = t.len() as int;
    assert(t[0] == c);
    assert(t[2] == '#');
    assert forall|j: int| 2 <= j < len implies !is_ws(t[j]) by {
        assert(t[j] == color[j - 2]);
    }
    lemma_non_ws_from_is(t, 0, 0);
    lemma_ws_from_is(t, 0, 1);
    lemma_non_ws_from_is(t, 1, 2);
    lemma_ws_from_is(t, 2, len);
    lemma_non_ws_from_is(t, len, len);
    assert(t.subrange(2, len) =~= color);
    assert(!has_key(prefix, c));
    lemma_first_not_below_is(prefix, c, 0, prefix.len() as int);
    assert(prefix.insert(prefix.len() as int, (c, color)) =~= prefix.push(e));
    assert(t.last() == color.last());
    lemma_trim_id(t);
    assert(!has_char(t, '\n')) by {
        if has_char(t, '\n') {
            let j = choose|j: int| 0 <= j < t.len() && t[j] == '\n';
            assert(is_ws(t[j]));
        }
    }
}

pub open spec fn with_glyph_palette(c: ContextModel, p: EntriesModel) -> ContextModel {
    ContextModel { glyph: crate::types::GlyphModel { palette: p, ..c.glyph }, ..c }
}

pub open spec fn with_default_palette(c: ContextModel, p: EntriesModel) -> ContextModel {
    set_header(c, HeaderModel { default_palette: p, ..c.doc.header })
}

proof fn lemma_sorted_prefix_below(p: EntriesModel, i: int)
    requires
        sorted_keys(p),
        0 <= i < p.len(),
    ensures
        forall|j: int|
            0 <= j < p.subrange(0, i).len() ==> key_code(#[trigger] p.subrange(0, i)[j].0)
                < key_code(p[i].0),
        p.subrange(0, i).push(p[i]) == p.subrange(0, i + 1),
{
    assert forall|j: int| 0 <= j < p.subrange(0, i).len() implies key_code(
        #[trigger] p.subrange(0, i)[j].0,
    ) < key_code(p[i].0) by {
        assert(p.subrange(0, i)[j] == p[j]);
    }
    assert(p.subrange(0, i).push(p[i]) =~= p.subrange(0, i + 1));
}

proof fn lemma_entry_lines_split(p: EntriesModel, i: int)
    requires
        0 <= i < p.len(),
    ensures
        entry_lines(p.subrange(i, p.len() as int)) == seq![entry_line(p[i])] + entry_lines(
            p.subrange(i + 1, p.len() as int),
        ),
{
    assert(entry_lines(p.subrange(i, p.len() as int)) =~= seq![entry_line(p[i])] + entry_lines(
        p.subrange(i + 1, p.len() as int),
    ));
}

proof fn lemma_glyph_entries(p: EntriesModel, i: int, n: nat, c: ContextModel)
    requires
        palette_ok(p),
        0 <= i <= p.len(),
        c.glyph.palette == p.subrange(0, i),
    ensures
        run(entry_lines(p.subrange(i, p.len() as int)), n, ParseState::InPalette, c) == Ok::<
            (ParseState, ContextModel),
            Seq<char>,
        >((ParseState::InPalette, with_glyph_palette(c, p))),
    decreases p.len() - i,
{
    if i == p.len() {
        assert(p.subrange(0, i) =~= p);
        assert(entry_lines(p.subrange(i, p.len() as int)) =~= Seq::<Seq<char>>::empty());
        assert(with_glyph_palette(c, p) == c);
    } else {
        reveal(step);
        reveal_strlit("END PALETTE");
        lemma_sorted_prefix_below(p, i);
        lemma_entry_line(p[i], p.subrange(0, i));
        let t = entry_line(p[i]);
        assert(t[1] != "END PALETTE"@[1]);
        lemma_run_one(t, n, ParseState::InPalette, c);
        let c2 = with_glyph_palette(c, p.subrange(0, i + 1));
        assert(step(ParseState::InPalette, c, n, t) == Ok::<
            (ParseState, ContextModel),
            Seq<char>,
        >((ParseState::InPalette, c2)));
        lemma_glyph_entries(p, i + 1, n + 1, c2);
        lemma_entry_lines_split(p, i);
        lemma_run_add(
            seq![t],
            entry_lines(p.subrange(i + 1, p.len() as int)),
            n,
            ParseState::InPalette,
            c,
        );
        assert(with_glyph_palette(c2, p) == with_glyph_palette(c, p));
    }
}

proof fn lemma_default_entries(p: EntriesModel, i: int, n: nat, c: ContextModel)
    requires
        palette_ok(p),
        0 <= i <= p.len(),
        c.doc.header.default_palette == p.subrange(0, i),
    ensures
        run(entry_lines(p.subrange(i, p.len() as int)), n, ParseState::InDefaultPalette, c)
            == Ok::<(ParseState, ContextModel), Seq<char>>(
            (ParseState::InDefaultPalette, with_default_palette(c, p)),
        ),
    decreases p.len() - i,
{
    if i == p.len() {
        assert(p.subrange(0, i) =~= p);
        assert(entry_lines(p.subrange(i, p.len() as int)) =~= Seq::<Seq<char>>::empty());
        assert(with_default_palette(c, p) == c);
    } else {
        reveal(step);
        reveal_strlit("END HEADER");
        lemma_sorted_prefix_below(p, i);
        lemma_entry_line(p[i], p.subrange(0, i));
        let t = entry_line(p[i]);
        assert(t[1] != "END HEADER"@[1]);
        lemma_run_one(t, n, ParseState::InDefaultPalette, c);
        let c2 = with_default_palette(c, p.subrange(0, i + 1));
        assert(step(ParseState::InDefaultPalette, c, n, t) == Ok::<
            (ParseState, ContextModel),
            Seq<char>,
        >((ParseState::InDefaultPalette, c2)));
        lemma_default_entries(p, i + 1, n + 1, c2);
        lemma_entry_lines_split(p, i);
        lemma_run_add(
            seq![t],
            entry_lines(p.subrange(i + 1, p.len() as int)),
            n,
            ParseState::InDefaultPalette,
            c,
        );
        assert(with_default_palette(c2, p) == with_default_palette(c, p));
    }
}

/// A blank line changes nothing.
pub proof fn lemma_blank_line(n: nat, st: ParseState, c: ContextModel)
    ensures
        run(seq![Seq::<char>::empty()], n, st, c) == Ok::<(ParseState, ContextModel), Seq<char>>(
            (st, c),
        ),
{
    reveal(step);
    lemma_run_one(Seq::<char>::empty(), n, st, c);
}

/// The header block, read from the start, gives the header.
pub proof fn lemma_header_block(h: HeaderModel, c: ContextModel, n: nat)
    requires
        header_ok(h),
        c.doc.header == empty_header_model(),
    ensures
        run(header_lines(h), n, ParseState::Searching, c) == Ok::<
            (ParseState, ContextModel),
            Seq<char>,
        >((ParseState::Searching, set_header(c, h))),
{
    lemma_sorted_of_sorted(h.default_palette);
    let a = header_field_lines(h);
    let b = default_palette_lines(h.default_palette);
    let e: Seq<char> = Seq::empty();
    let d: Seq<Seq<char>> = seq!["END HEADER"@, e];
    let c1 = set_header(c, HeaderModel { default_palette: Seq::empty(), ..h });
    lemma_header_fields(h, c, n);
    let n1 = n + a.len();
    let n2 = n1 + b.len();
    reveal_strlit("END HEADER");
    reveal_strlit("DEFAULT_PALETTE");
    lemma_trim_id("END HEADER"@);
    lemma_trim_id("DEFAULT_PALETTE"@);
    if h.default_palette.len() > 0 {
        let p = h.default_palette;
        assert(p.subrange(0, p.len() as int) =~= p);
        assert(p.subrange(0, 0) =~= Seq::<(char, Seq<char>)>::empty());
        reveal(step);
        lemma_run_one("DEFAULT_PALETTE"@, n1, ParseState::InHeader, c1);
        lemma_default_entries(p, 0, n1 + 1, c1);
        lemma_run_add(seq!["DEFAULT_PALETTE"@], entry_lines(p), n1, ParseState::InHeader, c1);
        assert(with_default_palette(c1, p) == set_header(c, h));
        lemma_run_one("END HEADER"@, n2, ParseState::InDefaultPalette, set_header(c, h));
        assert(run(b, n1, ParseState::InHeader, c1) == Ok::<
            (ParseState, ContextModel),
            Seq<char>,
        >((ParseState::InDefaultPalette, set_header(c, h))));
        assert(run(seq!["END HEADER"@], n2, ParseState::InDefaultPalette, set_header(c, h))
            == Ok::<(ParseState, ContextModel), Seq<char>>(
            (ParseState::Searching, set_header(c, h)),
        ));
        lemma_blank_line(n2 + 1, ParseState::Searching, set_header(c, h));
        assert(d =~= seq!["END HEADER"@] + seq![e]);
        lemma_run_add(
            seq!["END HEADER"@],
            seq![e],
            n2,
            ParseState::InDefaultPalette,
            set_header(c, h),
        );
        lemma_run_add(a, b, n, ParseState::Searching, c);
        lemma_run_add(a + b, d, n, ParseState::Searching, c);
    } else {
        assert(h.default_palette =~= Seq::<(char, Seq<char>)>::empty());
        assert(c1 == set_header(c, h));
        assert(b =~= Seq::<Seq<char>>::empty());
        reveal(step);
        lemma_run_one("END HEADER"@, n2, ParseState::InHeader, c1);
        assert(run(seq!["END HEADER"@], n2, ParseState::InHeader, c1) == Ok::<
            (ParseState, ContextModel),
            Seq<char>,
        >((ParseState::Searching, c1)));
        lemma_blank_line(n2 + 1, ParseState::Searching, c1);
        assert(d =~= seq!["END HEADER"@] + seq![e]);
        lemma_run_add(seq!["END HEADER"@], seq![e], n2, ParseState::InHeader, c1);
        lemma_run_add(a, b, n, ParseState::Searching, c);
        lemma_run_add(a + b, d, n, ParseState::Searching, c);
    }
}

pub open spec fn row_ok(row: Seq<char>, width: nat, p: EntriesModel) -> bool {
    row.len() == width && forall|k: int| 0 <= k < row.len() ==> has_key(p, #[trigger] row[k])
}

/// A glyph that reads back as itself, with no warnings: plain name and
/// values, a `CHAR` that is a space or no whitespace, a well-formed palette;
/// with a size, a non-empty palette and exactly `height` rows of `width`
/// palette keys; without one, no rows.
pub open spec fn glyph_ok(g: GlyphModel) -> bool {
    &&& plain_value(g.name)
    &&& (g.unicode matches Some(u) ==> plain_value(u) && starts_with(u, "U+"@))
    &&& (g.char_repr matches Some(ch) ==> ch == ' ' || !is_ws(ch))
    &&& palette_ok(g.palette)
    &&& g.warnings.len() == 0
    &&& match g.size {
        Some(sz) => {
            &&& size_ok(sz)
            &&& g.palette.len() > 0
            &&& g.bitmap.len() == sz.height
            &&& forall|i: int|
                0 <= i < g.bitmap.len() ==> row_ok(#[trigger] g.bitmap[i], sz.width as nat, g.palette)
        },
        None => g.bitmap.len() == 0,
    }
}

pub open spec fn with_glyph(c: ContextModel, g: GlyphModel) -> ContextModel {
    ContextModel { glyph: g, ..c }
}

/// What the metadata lines leave in the open glyph.
pub open spec fn meta_of(g: GlyphModel) -> GlyphModel {
    GlyphModel { palette: Seq::empty(), bitmap: Seq::empty(), warnings: Seq::empty(), ..g }
}

pub proof fn lemma_glyph_open(name: Seq<char>, n: nat, c: ContextModel)
    requires
        plain_value(name),
    ensures
        run(seq!["GLYPH "@ + name], n, ParseState::Searching, c) == Ok::<
            (ParseState, ContextModel),
            Seq<char>,
        >(
            (
                ParseState::InGlyphDefinition,
                ContextModel {
                    glyph: new_glyph_model(name),
                    collected: 0,
                    palette_seen: false,
                    ..c
                },
            ),
        ),
{
    reveal(step);
    reveal_strlit("GLYPH ");
    reveal_strlit("HEADER");
    let t = "GLYPH "@ + name;
    assert(t[0] == 'G');
    assert(t.last() == name.last());
    lemma_trim_id(t);
    assert(t[0] != "HEADER"@[0]);
    assert(t.subrange(0, 6) =~= "GLYPH "@);
    assert(t.subrange(6, t.len() as int) =~= name);
    lemma_run_one(t, n, ParseState::Searching, c);
}

/// The facts that keep a metadata line out of the other branches.
pub proof fn lemma_not_keyword(t: Seq<char>)
    requires
        t.len() > 0,
        t[0] != 'P',
        t[0] != 'E',
    ensures
        t != "PALETTE"@,
        !starts_with(t, "END GLYPH "@),
{
    reveal_strlit("PALETTE");
    reveal_strlit("END GLYPH ");
    assert(t[0] != "PALETTE"@[0]);
    if t.len() >= 10 {
        assert(t.subrange(0, 10)[0] != "END GLYPH "@[0]);
    }
}

proof fn lemma_unicode_step(u: Seq<char>, gm: GlyphModel, n: nat, c: ContextModel)
    requires
        plain_value(u),
        starts_with(u, "U+"@),
        gm.size is None,
    ensures
        step(ParseState::InGlyphDefinition, with_glyph(c, gm), n, "UNICODE "@ + u) == Ok::<
            (ParseState, ContextModel),
            Seq<char>,
        >((ParseState::InGlyphDefinition, with_glyph(c, GlyphModel { unicode: Some(u), ..gm }))),
{
    reveal(step);
    reveal_strlit("UNICODE ");
    reveal_strlit("UNICODE");
    reveal_strlit("CHAR");
    lemma_kv("UNICODE "@, u);
    let t = "UNICODE "@ + u;
    lemma_not_keyword(t);
    assert(t[0] != "CHAR"@[0]);
    assert(t.subrange(0, 7) =~= "UNICODE"@);
}

pub proof fn lemma_char_step(ch: char, gm: GlyphModel, n: nat, c: ContextModel)
    requires
        ch == ' ' || !is_ws(ch),
        gm.size is None,
    ensures
        step(ParseState::InGlyphDefinition, with_glyph(c, gm), n, "CHAR "@ + seq![ch]) == Ok::<
            (ParseState, ContextModel),
            Seq<char>,
        >((ParseState::InGlyphDefinition, with_glyph(c, GlyphModel { char_repr: Some(ch), ..gm }))),
{
    reveal(step);
    reveal_strlit("CHAR ");
    reveal_strlit("CHAR");
    let raw = "CHAR "@ + seq![ch];
    assert(raw =~= seq!['C', 'H', 'A', 'R', ' ', ch]);
    assert(trim_start(raw) == raw);
    assert(raw.subrange(0, 4) =~= "CHAR"@);
    assert(raw.subrange(0, 5) =~= "CHAR "@);
    assert(raw.subrange(5, 6) =~= seq![ch]);
    if ch == ' ' {
        let t4 = seq!['C', 'H', 'A', 'R'];
        let t5 = seq!['C', 'H', 'A', 'R', ' '];
        assert(raw.drop_last() =~= t5);
        assert(t5.drop_last() =~= t4);
        assert(is_ws(raw.last()));
        assert(trim_end(raw) == trim_end(t5));
        assert(is_ws(t5.last()));
        assert(trim_end(t5) == trim_end(t4));
        assert(trim_end(t4) == t4);
        assert(trim(raw) == t4);
        let sp = seq![ch];
        assert(sp.drop_first() =~= Seq::<char>::empty());
        assert(is_ws(sp[0]));
        assert(trim_start(sp) == trim_start(Seq::<char>::empty()));
        assert(trim_start(Seq::<char>::empty()) =~= Seq::<char>::empty());
        assert(trim_end(Seq::<char>::empty()) =~= Seq::<char>::empty());
        assert(trim(sp).len() == 0);
        lemma_not_keyword(t4);
    } else {
        lemma_trim_id(raw);
        lemma_trim_id(seq![ch]);
        lemma_not_keyword(raw);
    }
}

proof fn lemma_size_step(sz: Size, gm: GlyphModel, n: nat, c: ContextModel)
    requires
        size_ok(sz),
        gm.size is None,
    ensures
        step(
            ParseState::InGlyphDefinition,
            with_glyph(c, gm),
            n,
            "SIZE "@ + crate::serialize::size_text(sz),
        ) == Ok::<(ParseState, ContextModel), Seq<char>>(
            (ParseState::InGlyphDefinition, with_glyph(c, GlyphModel { size: Some(sz), ..gm })),
        ),
{
    reveal(step);
    reveal_strlit("SIZE ");
    reveal_strlit("SIZE");
    reveal_strlit("UNICODE");
    reveal_strlit("CHAR");
    let v = crate::serialize::size_text(sz);
    lemma_size_text(sz);
    lemma_kv("SIZE "@, v);
    let t = "SIZE "@ + v;
    lemma_not_keyword(t);
    assert(t[0] != "CHAR"@[0]);
    assert(t.subrange(0, 4) =~= "SIZE"@);
}

proof fn lemma_glyph_meta(g: GlyphModel, n: nat, c: ContextModel)
    requires
        glyph_shape_ok(g),
    ensures
        run(glyph_meta_lines(g), n, ParseState::Searching, c) == Ok::<
            (ParseState, ContextModel),
            Seq<char>,
        >(
            (
                ParseState::InGlyphDefinition,
                ContextModel { glyph: meta_of(g), collected: 0, palette_seen: false, ..c },
            ),
        ),
{
    let c0 = ContextModel { glyph: new_glyph_model(g.name), collected: 0, palette_seen: false, ..c };
    let m0 = new_glyph_model(g.name);
    let m1 = GlyphModel { unicode: g.unicode, ..m0 };
    let m2 = GlyphModel { char_repr: g.char_repr, ..m1 };
    let m3 = GlyphModel { size: g.size, ..m2 };
    let a: Seq<Seq<char>> = seq!["GLYPH "@ + g.name];
    let b = opt_line("UNICODE "@, g.unicode);
    let d = match g.char_repr {
        Some(ch) => seq!["CHAR "@ + seq![ch]],
        None => Seq::<Seq<char>>::empty(),
    };
    let e = match g.size {
        Some(sz) => seq!["SIZE "@ + crate::serialize::size_text(sz)],
        None => Seq::<Seq<char>>::empty(),
    };
    lemma_glyph_open(g.name, n, c);
    assert(with_glyph(c0, m0) == c0);
    let n1 = n + 1;
    if let Some(u) = g.unicode {
        lemma_unicode_step(u, m0, n1, c0);
        lemma_run_one("UNICODE "@ + u, n1, ParseState::InGlyphDefinition, c0);
    }
    let n2 = n1 + b.len();
    if let Some(ch) = g.char_repr {
        lemma_char_step(ch, m1, n2, c0);
        lemma_run_one("CHAR "@ + seq![ch], n2, ParseState::InGlyphDefinition, with_glyph(c0, m1));
    }
    let n3 = n2 + d.len();
    if let Some(sz) = g.size {
        lemma_size_step(sz, m2, n3, c0);
        lemma_run_one(
            "SIZE "@ + crate::serialize::size_text(sz),
            n3,
            ParseState::InGlyphDefinition,
            with_glyph(c0, m2),
        );
    }
    assert(m3 == meta_of(g));
    lemma_run_add(a, b, n, ParseState::Searching, c);
    lemma_run_add(a + b, d, n, ParseState::Searching, c);
    lemma_run_add(a + b + d, e, n, ParseState::Searching, c);
}

/// The open glyph once its palette block is read.
pub open spec fn pal_of(g: GlyphModel) -> GlyphModel {
    GlyphModel { palette: g.palette, ..meta_of(g) }
}

proof fn lemma_glyph_palette_block(g: GlyphModel, n: nat, c: ContextModel)
    requires
        glyph_shape_ok(g),
        c.glyph == meta_of(g),
        !c.palette_seen,
    ensures
        g.palette.len() > 0 ==> run(glyph_palette_lines(g.palette), n, ParseState::InGlyphDefinition, c)
            == Ok::<(ParseState, ContextModel), Seq<char>>(
            (
                if g.size is Some {
                    ParseState::ExpectingDataKeyword
                } else {
                    ParseState::ExpectingEndGlyph
                },
                ContextModel { glyph: pal_of(g), palette_seen: true, ..c },
            ),
        ),
        g.palette.len() == 0 ==> run(glyph_palette_lines(g.palette), n, ParseState::InGlyphDefinition, c)
            == Ok::<(ParseState, ContextModel), Seq<char>>((ParseState::InGlyphDefinition, c)),
{
    lemma_sorted_of_sorted(g.palette);
    let p = g.palette;
    if p.len() > 0 {
        reveal(step);
        reveal_strlit("PALETTE");
        reveal_strlit("END PALETTE");
        lemma_trim_id("PALETTE"@);
        lemma_trim_id("END PALETTE"@);
        let c1 = ContextModel { palette_seen: true, ..c };
        lemma_run_one("PALETTE"@, n, ParseState::InGlyphDefinition, c);
        assert(p.subrange(0, 0) =~= Seq::<(char, Seq<char>)>::empty());
        assert(p.subrange(0, p.len() as int) =~= p);
        lemma_glyph_entries(p, 0, n + 1, c1);
        let c2 = with_glyph_palette(c1, p);
        assert(c2 == ContextModel { glyph: pal_of(g), palette_seen: true, ..c });
        let n2 = n + 1 + p.len();
        lemma_run_one("END PALETTE"@, n2, ParseState::InPalette, c2);
        lemma_run_add(seq!["PALETTE"@], entry_lines(p), n, ParseState::InGlyphDefinition, c);
        lemma_run_add(
            seq!["PALETTE"@] + entry_lines(p),
            seq!["END PALETTE"@],
            n,
            ParseState::InGlyphDefinition,
            c,
        );
    } else {
        assert(glyph_palette_lines(p) =~= Seq::<Seq<char>>::empty());
    }
}

proof fn lemma_key_not_ws(p: EntriesModel, x: char)
    requires
        palette_ok(p),
        has_key(p, x),
    ensures
        !is_ws(x),
{
    let j = choose|j: int| 0 <= j < p.len() && (#[trigger] p[j]).0 == x;
    assert(!is_ws(p[j].0));
}

proof fn lemma_no_char_warnings(row: Seq<char>, p: EntriesModel, name: Seq<char>, n: nat, k: nat)
    requires
        k <= row.len(),
        forall|i: int| 0 <= i < row.len() ==> has_key(p, #[trigger] row[i]),
    ensures
        char_warnings(row, p, name, n, k) == Seq::<Seq<char>>::empty(),
    decreases k,
{
    if k > 0 {
        lemma_no_char_warnings(row, p, name, n, (k - 1) as nat);
        assert(has_key(p, row[k - 1]));
        assert(char_warnings(row, p, name, n, k) =~= Seq::<Seq<char>>::empty());
    }
}

/// Facts about one row of a well-formed glyph.
proof fn lemma_row_facts(g: GlyphModel, i: int)
    requires
        glyph_ok(g),
        g.size is Some,
        0 <= i < g.bitmap.len(),
    ensures
        ({
            let row = g.bitmap[i];
            &&& row.len() > 0
            &&& no_ws_row(row)
            &&& trim(row) == row
            &&& line_ok(row)
            &&& row_warnings(row, g.palette, g.name, 0) == Seq::<Seq<char>>::empty()
        }),
{
    let row = g.bitmap[i];
    let sz = g.size->Some_0;
    assert(row_ok(row, sz.width as nat, g.palette));
    assert forall|k: int| 0 <= k < row.len() implies !is_ws(#[trigger] row[k]) by {
        lemma_key_not_ws(g.palette, row[k]);
    }
    lemma_trim_id(row);
    assert(!has_char(row, '\n')) by {
        if has_char(row, '\n') {
            let k = choose|k: int| 0 <= k < row.len() && row[k] == '\n';
            assert(!is_ws(row[k]));
        }
    }
    lemma_no_char_warnings(row, g.palette, g.name, 0, row.len());
}

pub open spec fn no_ws_row(row: Seq<char>) -> bool {
    forall|k: int| 0 <= k < row.len() ==> !is_ws(#[trigger] row[k])
}

/// A row that reads back as itself in a data block: a plain value other
/// than `END DATA`.
pub open spec fn row_shape_ok(row: Seq<char>) -> bool {
    plain_value(row) && row != "END DATA"@
}

/// A glyph whose block reads back with the same content, warnings aside:
/// like `glyph_ok`, but rows need only be plain lines other than `END DATA`,
/// there may be fewer rows than the height, a glyph with a size may have an
/// empty palette, and warnings may be present.
pub open spec fn glyph_shape_ok(g: GlyphModel) -> bool {
    &&& plain_value(g.name)
    &&& (g.unicode matches Some(u) ==> plain_value(u) && starts_with(u, "U+"@))
    &&& (g.char_repr matches Some(ch) ==> ch == ' ' || !is_ws(ch))
    &&& palette_ok(g.palette)
    &&& match g.size {
        Some(sz) => {
            &&& size_ok(sz)
            &&& g.bitmap.len() <= sz.height
            &&& forall|i: int| 0 <= i < g.bitmap.len() ==> row_shape_ok(#[trigger] g.bitmap[i])
        },
        None => g.bitmap.len() == 0,
    }
}

pub proof fn lemma_glyph_ok_shape(g: GlyphModel)
    requires
        glyph_ok(g),
    ensures
        glyph_shape_ok(g),
{
    if g.size is Some {
        assert forall|i: int| 0 <= i < g.bitmap.len() implies row_shape_ok(
            #[trigger] g.bitmap[i],
        ) by {
            reveal_strlit("END DATA");
            lemma_row_facts(g, i);
            let row = g.bitmap[i];
            assert(!has_char(row, '\n'));
            if row.len() == 8 {
                assert(row[3] != "END DATA"@[3]);
            }
        }
    }
}

/// The open glyph after taking `rows` as its next rows, numbered from `n`.
pub open spec fn rows_taken(gm: GlyphModel, rows: Seq<Seq<char>>, n: nat) -> GlyphModel
    decreases rows.len(),
{
    if rows.len() == 0 {
        gm
    } else {
        rows_taken(take_row(gm, rows[0], n), rows.drop_first(), n + 1)
    }
}

/// Taking rows appends them and adds warnings; nothing else changes.
proof fn lemma_rows_taken_fields(gm: GlyphModel, rows: Seq<Seq<char>>, n: nat)
    ensures
        rows_taken(gm, rows, n) == (GlyphModel {
            bitmap: gm.bitmap + rows,
            warnings: rows_taken(gm, rows, n).warnings,
            ..gm
        }),
    decreases rows.len(),
{
    if rows.len() == 0 {
        assert(gm.bitmap + rows =~= gm.bitmap);
    } else {
        let g1 = take_row(gm, rows[0], n);
        lemma_rows_taken_fields(g1, rows.drop_first(), n + 1);
        assert(g1.bitmap + rows.drop_first() =~= gm.bitmap + rows);
    }
}

/// Rows of the right width made of palette keys add no warnings.
proof fn lemma_rows_taken_clean(gm: GlyphModel, rows: Seq<Seq<char>>, n: nat)
    requires
        gm.size is Some,
        gm.palette.len() > 0,
        forall|i: int|
            0 <= i < rows.len() ==> row_ok(
                #[trigger] rows[i],
                gm.size->Some_0.width as nat,
                gm.palette,
            ),
    ensures
        rows_taken(gm, rows, n).warnings == gm.warnings,
    decreases rows.len(),
{
    if rows.len() > 0 {
        let row = rows[0];
        assert(row_ok(row, gm.size->Some_0.width as nat, gm.palette));
        lemma_no_char_warnings(row, gm.palette, gm.name, n, row.len());
        let g1 = take_row(gm, row, n);
        assert(g1.warnings =~= gm.warnings);
        let rest = rows.drop_first();
        assert forall|i: int| 0 <= i < rest.len() implies row_ok(
            #[trigger] rest[i],
            g1.size->Some_0.width as nat,
            g1.palette,
        ) by {
            assert(rest[i] == rows[i + 1]);
        }
        lemma_rows_taken_clean(g1, rest, n + 1);
    }
}

proof fn lemma_rows(g: GlyphModel, i: int, n: nat, c: ContextModel)
    requires
        glyph_shape_ok(g),
        g.size is Some,
        0 <= i <= g.bitmap.len(),
        c.glyph == (GlyphModel {
            bitmap: g.bitmap.subrange(0, i),
            warnings: c.glyph.warnings,
            ..pal_of(g)
        }),
        c.collected == i,
    ensures
        run(g.bitmap.subrange(i, g.bitmap.len() as int), n, ParseState::InBitmap, c) == Ok::<
            (ParseState, ContextModel),
            Seq<char>,
        >(
            (
                ParseState::InBitmap,
                ContextModel {
                    glyph: rows_taken(c.glyph, g.bitmap.subrange(i, g.bitmap.len() as int), n),
                    collected: g.bitmap.len(),
                    ..c
                },
            ),
        ),
    decreases g.bitmap.len() - i,
{
    let len = g.bitmap.len() as int;
    if i == len {
        assert(g.bitmap.subrange(i, len) =~= Seq::<Seq<char>>::empty());
    } else {
        reveal(step);
        let row = g.bitmap[i];
        assert(row_shape_ok(row));
        lemma_trim_id(row);
        let gm = c.glyph;
        let g1 = take_row(gm, row, n);
        assert(g1 == GlyphModel {
            bitmap: g.bitmap.subrange(0, i + 1),
            warnings: g1.warnings,
            ..pal_of(g)
        }) by {
            assert(g.bitmap.subrange(0, i).push(row) =~= g.bitmap.subrange(0, i + 1));
        }
        let c2 = ContextModel { glyph: g1, collected: (i + 1) as nat, ..c };
        lemma_run_one(row, n, ParseState::InBitmap, c);
        assert(run(seq![row], n, ParseState::InBitmap, c) == Ok::<
            (ParseState, ContextModel),
            Seq<char>,
        >((ParseState::InBitmap, c2)));
        lemma_rows(g, i + 1, n + 1, c2);
        let rest = g.bitmap.subrange(i, len);
        assert(rest =~= seq![row] + g.bitmap.subrange(i + 1, len));
        assert(rest[0] == row);
        assert(rest.drop_first() =~= g.bitmap.subrange(i + 1, len));
        lemma_run_add(seq![row], g.bitmap.subrange(i + 1, len), n, ParseState::InBitmap, c);
    }
}

/// What the data block leaves in the open glyph, the block starting at line `n`.
pub open spec fn data_result(g: GlyphModel, n: nat) -> GlyphModel {
    let g1 = rows_taken(pal_of(g), g.bitmap, n + 1);
    let height = g.size->Some_0.height as nat;
    if g.bitmap.len() < height {
        crate::parse::add_warning(
            g1,
            crate::parse::early_end_warning(
                n + 1 + g.bitmap.len(),
                g.name,
                height,
                g.bitmap.len(),
            ),
        )
    } else {
        g1
    }
}

proof fn lemma_glyph_data_block(g: GlyphModel, n: nat, st: ParseState, c: ContextModel)
    requires
        glyph_shape_ok(g),
        g.size is Some,
        c.glyph == pal_of(g),
        st == ParseState::ExpectingDataKeyword || st == ParseState::InGlyphDefinition,
    ensures
        run(glyph_data_lines(g), n, st, c) == Ok::<
            (ParseState, ContextModel),
            Seq<char>,
        >(
            (
                ParseState::ExpectingEndGlyph,
                ContextModel { glyph: data_result(g, n), collected: g.bitmap.len(), ..c },
            ),
        ),
{
    reveal(step);
    reveal_strlit("DATA");
    reveal_strlit("END DATA");
    reveal_strlit("PALETTE");
    reveal_strlit("END GLYPH ");
    assert("DATA"@[0] != "PALETTE"@[0]);
    assert(!starts_with("DATA"@, "END GLYPH "@));
    lemma_trim_id("DATA"@);
    lemma_trim_id("END DATA"@);
    let len = g.bitmap.len() as int;
    let c1 = ContextModel { collected: 0, ..c };
    lemma_run_one("DATA"@, n, st, c);
    assert(g.bitmap.subrange(0, 0) =~= Seq::<Seq<char>>::empty());
    assert(c1.glyph == GlyphModel {
        bitmap: g.bitmap.subrange(0, 0),
        warnings: c1.glyph.warnings,
        ..pal_of(g)
    });
    lemma_rows(g, 0, n + 1, c1);
    assert(g.bitmap.subrange(0, len) =~= g.bitmap);
    let c2 = ContextModel {
        glyph: rows_taken(pal_of(g), g.bitmap, n + 1),
        collected: g.bitmap.len(),
        ..c
    };
    lemma_rows_taken_fields(pal_of(g), g.bitmap, n + 1);
    lemma_run_one("END DATA"@, n + 1 + g.bitmap.len(), ParseState::InBitmap, c2);
    lemma_run_add(seq!["DATA"@], g.bitmap, n, st, c);
    lemma_run_add(
        seq!["DATA"@] + g.bitmap,
        seq!["END DATA"@],
        n,
        st,
        c,
    );
}

/// `END GLYPH <name>` closes the open glyph.
pub proof fn lemma_end_glyph(st: ParseState, c: ContextModel, n: nat)
    requires
        plain_value(c.glyph.name),
        st == ParseState::ExpectingEndGlyph || (st == ParseState::InGlyphDefinition
            && c.glyph.size is None),
    ensures
        run(
            seq!["END GLYPH "@ + c.glyph.name, Seq::<char>::empty()],
            n,
            st,
            c,
        ) == Ok::<(ParseState, ContextModel), Seq<char>>((ParseState::Searching, commit(c))),
{
    reveal(step);
    reveal_strlit("END GLYPH ");
    reveal_strlit("PALETTE");
    let name = c.glyph.name;
    let t = "END GLYPH "@ + name;
    assert(t[0] == 'E');
    assert(t.last() == name.last());
    lemma_trim_id(t);
    assert(t[0] != "PALETTE"@[0]);
    assert(t.subrange(0, 10) =~= "END GLYPH "@);
    assert(t.subrange(10, t.len() as int) =~= name);
    lemma_run_one(t, n, st, c);
    lemma_blank_line(n + 1, ParseState::Searching, commit(c));
    assert(seq![t, Seq::<char>::empty()] =~= seq![t] + seq![Seq::<char>::empty()]);
    lemma_run_add(seq![t], seq![Seq::<char>::empty()], n, st, c);
}

/// The glyph that its block reads back as, the block starting at line `n`.
pub open spec fn glyph_read(g: GlyphModel, n: nat) -> GlyphModel {
    if g.size is Some {
        data_result(
            g,
            n + glyph_meta_lines(g).len() + glyph_palette_lines(g.palette).len(),
        )
    } else {
        GlyphModel { warnings: Seq::empty(), ..g }
    }
}

/// The block of a glyph, read from `Searching`, adds the glyph it reads as.
pub proof fn lemma_glyph_block(g: GlyphModel, n: nat, c: ContextModel)
    requires
        glyph_shape_ok(g),
    ensures
        run(glyph_lines(g), n, ParseState::Searching, c) matches Ok((st2, c2)) && st2
            == ParseState::Searching && c2.doc == (DocModel {
            glyphs: c.doc.glyphs.push(glyph_read(g, n)),
            ..c.doc
        }),
{
    let a = glyph_meta_lines(g);
    let b = glyph_palette_lines(g.palette);
    let d = glyph_data_lines(g);
    let e = seq!["END GLYPH "@ + g.name, Seq::<char>::empty()];
    let c1 = ContextModel { glyph: meta_of(g), collected: 0, palette_seen: false, ..c };
    lemma_glyph_meta(g, n, c);
    let n1 = n + a.len();
    let n2 = n1 + b.len();
    let n3 = n2 + d.len();
    lemma_glyph_palette_block(g, n1, c1);
    lemma_run_add(a, b, n, ParseState::Searching, c);
    lemma_run_add(a + b, d, n, ParseState::Searching, c);
    lemma_run_add(a + b + d, e, n, ParseState::Searching, c);
    if g.size is Some {
        let c2 = if g.palette.len() > 0 {
            ContextModel { glyph: pal_of(g), palette_seen: true, ..c1 }
        } else {
            assert(g.palette =~= Seq::<(char, Seq<char>)>::empty());
            assert(pal_of(g) == meta_of(g));
            c1
        };
        let st2 = if g.palette.len() > 0 {
            ParseState::ExpectingDataKeyword
        } else {
            ParseState::InGlyphDefinition
        };
        lemma_glyph_data_block(g, n2, st2, c2);
        let c3 = ContextModel { glyph: data_result(g, n2), collected: g.bitmap.len(), ..c2 };
        lemma_rows_taken_fields(pal_of(g), g.bitmap, n2 + 1);
        assert(data_result(g, n2).name == g.name);
        lemma_end_glyph(ParseState::ExpectingEndGlyph, c3, n3);
    } else {
        assert(g.bitmap =~= Seq::<Seq<char>>::empty());
        assert(d =~= Seq::<Seq<char>>::empty());
        if g.palette.len() > 0 {
            let c2 = ContextModel { glyph: pal_of(g), palette_seen: true, ..c1 };
            assert(pal_of(g) == glyph_read(g, n));
            lemma_end_glyph(ParseState::ExpectingEndGlyph, c2, n3);
        } else {
            assert(g.palette =~= Seq::<(char, Seq<char>)>::empty());
            assert(meta_of(g) == glyph_read(g, n));
            lemma_end_glyph(ParseState::InGlyphDefinition, c1, n3);
        }
    }
}

/// `glyph_read` keeps everything but the warnings, and keeps the glyph
/// itself when it is `glyph_ok`.
pub proof fn lemma_glyph_read(g: GlyphModel, n: nat)
    requires
        glyph_shape_ok(g),
    ensures
        crate::laws::glyph_without_warnings(glyph_read(g, n))
            == crate::laws::glyph_without_warnings(g),
        glyph_ok(g) ==> glyph_read(g, n) == g,
{
    if g.size is Some {
        let n2 = n + glyph_meta_lines(g).len() + glyph_palette_lines(g.palette).len();
        lemma_rows_taken_fields(pal_of(g), g.bitmap, n2 + 1);
        assert(pal_of(g).bitmap + g.bitmap =~= g.bitmap);
        if glyph_ok(g) {
            lemma_rows_taken_clean(pal_of(g), g.bitmap, n2 + 1);
            assert(g.warnings =~= Seq::<Seq<char>>::empty());
        }
    } else {
        if glyph_ok(g) {
            assert(g.warnings =~= Seq::<Seq<char>>::empty());
        }
    }
}

/// The glyphs that a run of glyph blocks reads back as, starting at line `n`.
pub open spec fn glyphs_read(gs: Seq<GlyphModel>, n: nat) -> Seq<GlyphModel>
    decreases gs.len(),
{
    if gs.len() == 0 {
        Seq::empty()
    } else {
        glyphs_read(gs.drop_last(), n).push(
            glyph_read(gs.last(), n + glyphs_lines(gs.drop_last()).len()),
        )
    }
}

/// A run of glyph blocks adds the glyphs they read as, in order.
pub proof fn lemma_glyphs(gs: Seq<GlyphModel>, n: nat, c: ContextModel)
    requires
        forall|i: int| 0 <= i < gs.len() ==> glyph_shape_ok(#[trigger] gs[i]),
    ensures
        run(glyphs_lines(gs), n, ParseState::Searching, c) matches Ok((st2, c2)) && st2
            == ParseState::Searching && c2.doc == (DocModel {
            glyphs: c.doc.glyphs + glyphs_read(gs, n),
            ..c.doc
        }),
    decreases gs.len(),
{
    if gs.len() == 0 {
        assert(c.doc.glyphs + glyphs_read(gs, n) =~= c.doc.glyphs);
    } else {
        let init = gs.drop_last();
        assert forall|i: int| 0 <= i < init.len() implies glyph_shape_ok(#[trigger] init[i]) by {
            assert(init[i] == gs[i]);
        }
        lemma_glyphs(init, n, c);
        let r1 = run(glyphs_lines(init), n, ParseState::Searching, c);
        let c1 = r1->Ok_0.1;
        let n1 = n + glyphs_lines(init).len();
        assert(glyph_shape_ok(gs[gs.len() - 1]));
        lemma_glyph_block(gs.last(), n1, c1);
        lemma_run_add(glyphs_lines(init), glyph_lines(gs.last()), n, ParseState::Searching, c);
        assert((c.doc.glyphs + glyphs_read(init, n)).push(glyph_read(gs.last(), n1))
            =~= c.doc.glyphs + glyphs_read(gs, n));
    }
}

/// `glyphs_read` keeps the glyphs but for warnings, and keeps them exactly
/// when they are `glyph_ok`.
pub proof fn lemma_glyphs_read(gs: Seq<GlyphModel>, n: nat)
    requires
        forall|i: int| 0 <= i < gs.len() ==> glyph_shape_ok(#[trigger] gs[i]),
    ensures
        glyphs_read(gs, n).len() == gs.len(),
        forall|i: int|
            0 <= i < gs.len() ==> crate::laws::glyph_without_warnings(
                #[trigger] glyphs_read(gs, n)[i],
            ) == crate::laws::glyph_without_warnings(gs[i]),
        (forall|i: int| 0 <= i < gs.len() ==> glyph_ok(#[trigger] gs[i])) ==> glyphs_read(gs, n)
            == gs,
    decreases gs.len(),
{
    if gs.len() > 0 {
        let init = gs.drop_last();
        assert forall|i: int| 0 <= i < init.len() implies glyph_shape_ok(#[trigger] init[i]) by {
            assert(init[i] == gs[i]);
        }
        lemma_glyphs_read(init, n);
        let last = gs.last();
        assert(glyph_shape_ok(gs[gs.len() - 1]));
        let n1 = n + glyphs_lines(init).len();
        lemma_glyph_read(last, n1);
        let r = glyphs_read(gs, n);
        assert forall|i: int| 0 <= i < gs.len() implies crate::laws::glyph_without_warnings(
            #[trigger] r[i],
        ) == crate::laws::glyph_without_warnings(gs[i]) by {
            if i < init.len() {
                assert(r[i] == glyphs_read(init, n)[i]);
                assert(gs[i] == init[i]);
            }
        }
        if forall|i: int| 0 <= i < gs.len() ==> glyph_ok(#[trigger] gs[i]) {
            assert forall|i: int| 0 <= i < init.len() implies glyph_ok(#[trigger] init[i]) by {
                assert(init[i] == gs[i]);
            }
            assert(glyph_ok(gs[gs.len() - 1]));
            assert(r =~= gs);
        }
    }
}

proof fn lemma_all_ok_add(a: Seq<Seq<char>>, b: Seq<Seq<char>>)
    requires
        all_lines_ok(a),
        all_lines_ok(b),
    ensures
        all_lines_ok(a + b),
{
    assert forall|i: int| 0 <= i < (a + b).len() implies line_ok(#[trigger] (a + b)[i]) by {
        if i < a.len() {
            assert((a + b)[i] == a[i]);
        } else {
            assert((a + b)[i] == b[i - a.len()]);
        }
    }
}

/// `key` followed by a value that ends in something other than whitespace.
proof fn lemma_kv_line_ok(key: Seq<char>, v: Seq<char>)
    requires
        !has_char(key, '\n'),
        v.len() > 0,
        !has_char(v, '\n'),
        !is_ws(v.last()),
    ensures
        line_ok(key + v),
{
    let t = key + v;
    assert(t.last() == v.last());
    assert(!has_char(t, '\n')) by {
        if has_char(t, '\n') {
            let j = choose|j: int| 0 <= j < t.len() && t[j] == '\n';
            if j < key.len() {
                assert(t[j] == key[j]);
                assert(has_char(key, '\n'));
            } else {
                assert(t[j] == v[j - key.len()]);
                assert(has_char(v, '\n'));
            }
        }
    }
}

proof fn lemma_literal_ok(l: Seq<char>)
    requires
        forall|i: int| 0 <= i < l.len() ==> !is_ws(#[trigger] l[i]) || l[i] == ' ',
    ensures
        line_ok(l),
        !has_char(l, '\n'),
{
    assert(!has_char(l, '\n')) by {
        if has_char(l, '\n') {
            let j = choose|j: int| 0 <= j < l.len() && l[j] == '\n';
            assert(!is_ws(l[j]) || l[j] == ' ');
        }
    }
    if l.len() > 0 {
        assert(!is_ws(l[l.len() - 1]) || l[l.len() - 1] == ' ');
    }
}

proof fn lemma_literals_ok()
    ensures
        line_ok("HEADER"@),
        line_ok("END HEADER"@),
        line_ok("DEFAULT_PALETTE"@),
        line_ok("PALETTE"@),
        line_ok("END PALETTE"@),
        line_ok("DATA"@),
        line_ok("END DATA"@),
        line_ok(Seq::<char>::empty()),
        !has_char("FONT "@, '\n'),
        !has_char("VERSION "@, '\n'),
        !has_char("AUTHOR "@, '\n'),
        !has_char("DESCRIPTION "@, '\n'),
        !has_char("DEFAULT_SIZE "@, '\n'),
        !has_char("GLYPH "@, '\n'),
        !has_char("UNICODE "@, '\n'),
        !has_char("CHAR "@, '\n'),
        !has_char("SIZE "@, '\n'),
        !has_char("END GLYPH "@, '\n'),
{
    reveal_strlit("HEADER");
    reveal_strlit("END HEADER");
    reveal_strlit("DEFAULT_PALETTE");
    reveal_strlit("PALETTE");
    reveal_strlit("END PALETTE");
    reveal_strlit("DATA");
    reveal_strlit("END DATA");
    reveal_strlit("FONT ");
    reveal_strlit("VERSION ");
    reveal_strlit("AUTHOR ");
    reveal_strlit("DESCRIPTION ");
    reveal_strlit("DEFAULT_SIZE ");
    reveal_strlit("GLYPH ");
    reveal_strlit("UNICODE ");
    reveal_strlit("CHAR ");
    reveal_strlit("SIZE ");
    reveal_strlit("END GLYPH ");
    lemma_literal_ok("HEADER"@);
    lemma_literal_ok("END HEADER"@);
    lemma_literal_ok("DEFAULT_PALETTE"@);
    lemma_literal_ok("PALETTE"@);
    lemma_literal_ok("END PALETTE"@);
    lemma_literal_ok("DATA"@);
    lemma_literal_ok("END DATA"@);
    lemma_literal_ok(Seq::<char>::empty());
    lemma_literal_ok("FONT "@);
    lemma_literal_ok("VERSION "@);
    lemma_literal_ok("AUTHOR "@);
    lemma_literal_ok("DESCRIPTION "@);
    lemma_literal_ok("DEFAULT_SIZE "@);
    lemma_literal_ok("GLYPH "@);
    lemma_literal_ok("UNICODE "@);
    lemma_literal_ok("CHAR "@);
    lemma_literal_ok("SIZE "@);
    lemma_literal_ok("END GLYPH "@);
}

proof fn lemma_opt_line_ok(key: Seq<char>, v: Option<Seq<char>>)
    requires
        !has_char(key, '\n'),
        opt_plain(v),
    ensures
        all_lines_ok(opt_line(key, v)),
{
    if let Some(x) = v {
        lemma_kv_line_ok(key, x);
    }
}

proof fn lemma_entries_ok(p: EntriesModel)
    requires
        palette_ok(p),
    ensures
        all_lines_ok(entry_lines(p)),
{
    assert forall|i: int| 0 <= i < entry_lines(p).len() implies line_ok(
        #[trigger] entry_lines(p)[i],
    ) by {
        lemma_sorted_prefix_below(p, i);
        lemma_entry_line(p[i], p.subrange(0, i));
    }
}

proof fn lemma_header_lines_ok(h: HeaderModel)
    requires
        header_ok(h),
    ensures
        all_lines_ok(header_lines(h)),
{
    lemma_sorted_of_sorted(h.default_palette);
    lemma_literals_ok();
    lemma_opt_line_ok("FONT "@, h.font_name);
    lemma_opt_line_ok("VERSION "@, h.version);
    lemma_opt_line_ok("AUTHOR "@, h.author);
    if let Some(v) = h.description {
        lemma_description_step(v, h, initial_context(), 0);
    }
    lemma_opt_line_ok("DESCRIPTION "@, opt_single_line(h.description));
    let g5 = match h.default_size {
        Some(sz) => seq!["DEFAULT_SIZE "@ + crate::serialize::size_text(sz)],
        None => Seq::<Seq<char>>::empty(),
    };
    if let Some(sz) = h.default_size {
        lemma_size_text(sz);
        lemma_kv_line_ok("DEFAULT_SIZE "@, crate::serialize::size_text(sz));
    }
    assert(all_lines_ok(g5));
    let g0: Seq<Seq<char>> = seq!["HEADER"@];
    let g1 = opt_line("FONT "@, h.font_name);
    let g2 = opt_line("VERSION "@, h.version);
    let g3 = opt_line("AUTHOR "@, h.author);
    let g4 = opt_line("DESCRIPTION "@, opt_single_line(h.description));
    lemma_all_ok_add(g0, g1);
    lemma_all_ok_add(g0 + g1, g2);
    lemma_all_ok_add(g0 + g1 + g2, g3);
    lemma_all_ok_add(g0 + g1 + g2 + g3, g4);
    lemma_all_ok_add(g0 + g1 + g2 + g3 + g4, g5);
    let b = default_palette_lines(h.default_palette);
    lemma_entries_ok(h.default_palette);
    if h.default_palette.len() > 0 {
        lemma_all_ok_add(seq!["DEFAULT_PALETTE"@], entry_lines(h.default_palette));
    }
    assert(all_lines_ok(b));
    let e: Seq<Seq<char>> = seq!["END HEADER"@, Seq::<char>::empty()];
    assert(all_lines_ok(e));
    lemma_all_ok_add(header_field_lines(h), b);
    lemma_all_ok_add(header_field_lines(h) + b, e);
}

proof fn lemma_glyph_lines_ok(g: GlyphModel)
    requires
        glyph_shape_ok(g),
    ensures
        all_lines_ok(glyph_lines(g)),
{
    lemma_sorted_of_sorted(g.palette);
    lemma_literals_ok();
    lemma_kv_line_ok("GLYPH "@, g.name);
    lemma_opt_line_ok("UNICODE "@, g.unicode);
    let d = match g.char_repr {
        Some(ch) => seq!["CHAR "@ + seq![ch]],
        None => Seq::<Seq<char>>::empty(),
    };
    if let Some(ch) = g.char_repr {
        reveal_strlit("CHAR ");
        let t = "CHAR "@ + seq![ch];
        assert(t =~= seq!['C', 'H', 'A', 'R', ' ', ch]);
        assert(!has_char(t, '\n')) by {
            if has_char(t, '\n') {
                let j = choose|j: int| 0 <= j < t.len() && t[j] == '\n';
                assert(j == 5);
            }
        }
    }
    assert(all_lines_ok(d));
    let e = match g.size {
        Some(sz) => seq!["SIZE "@ + crate::serialize::size_text(sz)],
        None => Seq::<Seq<char>>::empty(),
    };
    if let Some(sz) = g.size {
        lemma_size_text(sz);
        lemma_kv_line_ok("SIZE "@, crate::serialize::size_text(sz));
    }
    assert(all_lines_ok(e));
    let a0: Seq<Seq<char>> = seq!["GLYPH "@ + g.name];
    let a1 = opt_line("UNICODE "@, g.unicode);
    lemma_all_ok_add(a0, a1);
    lemma_all_ok_add(a0 + a1, d);
    lemma_all_ok_add(a0 + a1 + d, e);
    let m = glyph_meta_lines(g);
    lemma_entries_ok(g.palette);
    let pb = glyph_palette_lines(g.palette);
    if g.palette.len() > 0 {
        lemma_all_ok_add(seq!["PALETTE"@], entry_lines(g.palette));
        lemma_all_ok_add(seq!["PALETTE"@] + entry_lines(g.palette), seq!["END PALETTE"@]);
    }
    assert(all_lines_ok(pb));
    let db = glyph_data_lines(g);
    if g.size is Some {
        assert forall|i: int| 0 <= i < g.bitmap.len() implies line_ok(#[trigger] g.bitmap[i]) by {
            let row = g.bitmap[i];
            assert(row_shape_ok(row));
            lemma_kv_line_ok(Seq::<char>::empty(), row);
            assert(Seq::<char>::empty() + row =~= row);
        }
        lemma_all_ok_add(seq!["DATA"@], g.bitmap);
        lemma_all_ok_add(seq!["DATA"@] + g.bitmap, seq!["END DATA"@]);
    } else {
        assert(g.bitmap.len() == 0);
    }
    assert(all_lines_ok(db));
    lemma_kv_line_ok("END GLYPH "@, g.name);
    let f: Seq<Seq<char>> = seq!["END GLYPH "@ + g.name, Seq::<char>::empty()];
    assert(all_lines_ok(f));
    lemma_all_ok_add(m, pb);
    lemma_all_ok_add(m + pb, db);
    lemma_all_ok_add(m + pb + db, f);
}

proof fn lemma_glyphs_lines_ok(gs: Seq<GlyphModel>)
    requires
        forall|i: int| 0 <= i < gs.len() ==> glyph_shape_ok(#[trigger] gs[i]),
    ensures
        all_lines_ok(glyphs_lines(gs)),
    decreases gs.len(),
{
    if gs.len() > 0 {
        let init = gs.drop_last();
        assert forall|i: int| 0 <= i < init.len() implies glyph_shape_ok(#[trigger] init[i]) by {
            assert(init[i] == gs[i]);
        }
        lemma_glyphs_lines_ok(init);
        assert(glyph_shape_ok(gs[gs.len() - 1]));
        lemma_glyph_lines_ok(gs.last());
        lemma_all_ok_add(glyphs_lines(init), glyph_lines(gs.last()));
    }
}

/// A document that reads back as itself: well-formed header and glyphs.
pub open spec fn doc_ok(d: DocModel) -> bool {
    &&& header_ok(d.header)
    &&& forall|i: int| 0 <= i < d.glyphs.len() ==> glyph_ok(#[trigger] d.glyphs[i])
}

/// A document that reads back with the same content, warnings aside.
pub open spec fn doc_shape_ok(d: DocModel) -> bool {
    &&& header_ok(d.header)
    &&& forall|i: int| 0 <= i < d.glyphs.len() ==> glyph_shape_ok(#[trigger] d.glyphs[i])
}

pub proof fn lemma_doc_ok_shape(d: DocModel)
    requires
        doc_ok(d),
    ensures
        doc_shape_ok(d),
{
    assert forall|i: int| 0 <= i < d.glyphs.len() implies glyph_shape_ok(
        #[trigger] d.glyphs[i],
    ) by {
        lemma_glyph_ok_shape(d.glyphs[i]);
    }
}

/// The document's lines split as: everything up to the last non-blank line,
/// that line, and the final blank line.
#[verifier::rlimit(60)]
proof fn lemma_doc_lines_shape(d: DocModel) -> (r: (Seq<Seq<char>>, Seq<char>))
    requires
        doc_shape_ok(d),
    ensures
        doc_lines(d) == r.0.push(r.1).push(Seq::<char>::empty()),
        r.1.len() > 0,
        !has_char(r.1, '\n'),
        !is_ws(r.1.last()),
{
    lemma_literals_ok();
    let h = d.header;
    let gs = d.glyphs;
    let e: Seq<char> = Seq::empty();
    if gs.len() == 0 {
        reveal_strlit("END HEADER");
        let a = header_field_lines(h) + default_palette_lines(h.default_palette);
        assert(glyphs_lines(gs) =~= Seq::<Seq<char>>::empty());
        assert(doc_lines(d) =~= a.push("END HEADER"@).push(e));
        (a, "END HEADER"@)
    } else {
        let g = gs.last();
        assert(glyph_shape_ok(gs[gs.len() - 1]));
        let x = "END GLYPH "@ + g.name;
        let a = header_lines(h) + glyphs_lines(gs.drop_last()) + glyph_meta_lines(g)
            + glyph_palette_lines(g.palette) + glyph_data_lines(g);
        assert(glyphs_lines(gs) == glyphs_lines(gs.drop_last()) + glyph_lines(g));
        assert(doc_lines(d) =~= a.push(x).push(e));
        lemma_kv_line_ok("END GLYPH "@, g.name);
        assert(x.last() == g.name.last());
        (a, x)
    }
}

/// Reading the written text of a document gives its header and the glyphs
/// its blocks read as.
pub proof fn lemma_parse_serialize(d: DocModel)
    requires
        doc_shape_ok(d),
    ensures
        parse_spec(serialize_spec(d)) == Ok::<DocModel, Seq<char>>(
            DocModel {
                header: d.header,
                glyphs: glyphs_read(d.glyphs, 1 + header_lines(d.header).len()),
            },
        ),
{
    let lines = doc_lines(d);
    let (a, x) = lemma_doc_lines_shape(d);
    let e: Seq<char> = Seq::empty();
    lemma_header_lines_ok(d.header);
    lemma_glyphs_lines_ok(d.glyphs);
    lemma_all_ok_add(header_lines(d.header), glyphs_lines(d.glyphs));
    assert(all_lines_ok(a)) by {
        assert forall|i: int| 0 <= i < a.len() implies line_ok(#[trigger] a[i]) by {
            assert(a[i] == lines[i]);
        }
    }
    lemma_trim_end_written(a, x);
    lemma_lines_of_text(a, x);
    assert(lines_of(serialize_spec(d)) == a.push(x));
    let c0 = initial_context();
    lemma_header_block(d.header, c0, 1);
    let c1 = set_header(c0, d.header);
    let nh = 1 + header_lines(d.header).len();
    lemma_glyphs(d.glyphs, nh, c1);
    lemma_run_add(header_lines(d.header), glyphs_lines(d.glyphs), 1, ParseState::Searching, c0);
    let r = run(lines, 1, ParseState::Searching, c0);
    let c2 = r->Ok_0.1;
    assert(c2.doc.glyphs =~= glyphs_read(d.glyphs, nh));
    lemma_run_add(a.push(x), seq![e], 1, ParseState::Searching, c0);
    assert(lines =~= a.push(x) + seq![e]);
    match run(a.push(x), 1, ParseState::Searching, c0) {
        Err(m) => {},
        Ok((st, c)) => {
            lemma_blank_line(1 + a.push(x).len(), st, c);
        },
    }
    assert(run(a.push(x), 1, ParseState::Searching, c0) == r);
}

} // verus!
