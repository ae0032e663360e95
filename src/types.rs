//! The font document: header, glyphs, palettes and sizes, with their
//! mathematical models.
use vstd::prelude::*;

verus! {

/// Width and height of a glyph's pixel grid.
#[derive(Clone, Copy, Debug, PartialEq, Eq, Structural)]
pub struct Size {
    pub width: u32,
    pub height: u32,
}

/// Entries of a palette: a key character and its colour text.
pub type EntriesModel = Seq<(char, Seq<char>)>;

pub open spec fn key_code(c: char) -> u32 {
    c as u32
}

pub proof fn lemma_key_code_injective(a: char, b: char)
    ensures
        a != b ==> key_code(a) != key_code(b),
{
}

/// Keys strictly ascending by code point (so each key occurs once).
pub open spec fn sorted_keys(s: EntriesModel) -> bool {
    forall|i: int, j: int|
        0 <= i < j < s.len() ==> key_code(#[trigger] s[i].0) < key_code(#[trigger] s[j].0)
}

pub open spec fn has_key(s: EntriesModel, c: char) -> bool {
    exists|i: int| 0 <= i < s.len() && (#[trigger] s[i]).0 == c
}

/// The first position at or after `i` whose key is not below `c`.
pub open spec fn first_not_below(s: EntriesModel, c: char, i: int) -> int
    decreases s.len() - i,
{
    if i < 0 || i >= s.len() {
        s.len() as int
    } else if key_code(s[i].0) >= key_code(c) {
        i
    } else {
        first_not_below(s, c, i + 1)
    }
}

/// `s` with `c` mapped to `v`: the entry for `c` replaced, or a new entry put
/// where the key order wants it.
pub open spec fn put(s: EntriesModel, c: char, v: Seq<char>) -> EntriesModel {
    let i = first_not_below(s, c, 0);
    if i < s.len() && s[i].0 == c {
        s.update(i, (c, v))
    } else {
        s.insert(i, (c, v))
    }
}

/// The entries put one by one, in their order, into an empty palette:
/// keys ascending, a later entry for a key replacing an earlier one.
pub open spec fn sorted_of(s: EntriesModel) -> EntriesModel
    decreases s.len(),
{
    if s.len() == 0 {
        Seq::empty()
    } else {
        put(sorted_of(s.drop_last()), s.last().0, s.last().1)
    }
}

/// Putting the entries of an ascending palette in order rebuilds it.
pub proof fn lemma_sorted_of_sorted(s: EntriesModel)
    requires
        sorted_keys(s),
    ensures
        sorted_of(s) == s,
    decreases s.len(),
{
    if s.len() > 0 {
        let init = s.drop_last();
        let e = s.last();
        assert(sorted_keys(init)) by {
            assert forall|i: int, j: int|
                0 <= i < j < init.len() implies key_code(#[trigger] init[i].0) < key_code(
                    #[trigger] init[j].0,
                ) by {
                assert(init[i] == s[i] && init[j] == s[j]);
            }
        }
        lemma_sorted_of_sorted(init);
        assert forall|j: int| 0 <= j < init.len() implies key_code(init[j].0) < key_code(e.0) by {
            assert(init[j] == s[j]);
            assert(key_code(s[j].0) < key_code(s[s.len() - 1].0));
        }
        lemma_first_not_below_is(init, e.0, 0, init.len() as int);
        assert(init.insert(init.len() as int, (e.0, e.1)) =~= s);
    }
}

/// Mapping from single characters to colour strings (`#RRGGBB` or `#RGB`),
/// kept in ascending order of the key's code point.
#[derive(Clone, Debug)]
pub struct Palette {
    pub entries: Vec<(char, String)>,
}

pub open spec fn entries_view(v: Seq<(char, String)>) -> EntriesModel {
    v.map_values(|e: (char, String)| (e.0, e.1@))
}

impl View for Palette {
    type V = EntriesModel;

    open spec fn view(&self) -> EntriesModel {
        entries_view(self.entries@)
    }
}

pub proof fn lemma_first_not_below_is(s: EntriesModel, c: char, i: int, k: int)
    requires
        0 <= i <= k <= s.len(),
        forall|j: int| i <= j < k ==> key_code(s[j].0) < key_code(c),
        k < s.len() ==> key_code(s[k].0) >= key_code(c),
    ensures
        first_not_below(s, c, i) == k,
    decreases k - i,
{
    if i < k {
        lemma_first_not_below_is(s, c, i + 1, k);
    }
}

pub proof fn lemma_first_not_below_props(s: EntriesModel, c: char, i: int)
    requires
        0 <= i <= s.len(),
    ensures
        i <= first_not_below(s, c, i) <= s.len(),
        forall|j: int| i <= j < first_not_below(s, c, i) ==> key_code(s[j].0) < key_code(c),
        first_not_below(s, c, i) < s.len() ==> key_code(s[first_not_below(s, c, i)].0)
            >= key_code(c),
    decreases s.len() - i,
{
    if i < s.len() && key_code(s[i].0) < key_code(c) {
        lemma_first_not_below_props(s, c, i + 1);
    }
}

/// `put` keeps keys ascending, and holds the new entry and the old entries
/// of the other keys.
pub proof fn lemma_put(s: EntriesModel, c: char, v: Seq<char>)
    requires
        sorted_keys(s),
    ensures
        sorted_keys(put(s, c, v)),
        forall|e: (char, Seq<char>)|
            put(s, c, v).contains(e) <==> (e == (c, v) || (s.contains(e) && e.0 != c)),
{
    let i = first_not_below(s, c, 0);
    lemma_first_not_below_props(s, c, 0);
    let t = put(s, c, v);
    if i < s.len() && s[i].0 == c {
        assert(t == s.update(i, (c, v)));
        assert forall|a: int, b: int| 0 <= a < b < t.len() implies key_code(
            #[trigger] t[a].0,
        ) < key_code(#[trigger] t[b].0) by {
            assert(key_code(s[a].0) < key_code(s[b].0));
        }
        assert forall|e: (char, Seq<char>)| t.contains(e) <==> (e == (c, v) || (s.contains(e)
            && e.0 != c)) by {
            if t.contains(e) {
                let k = choose|k: int| 0 <= k < t.len() && t[k] == e;
                if k != i {
                    assert(s[k] == e);
                    if k < i {
                        assert(key_code(s[k].0) < key_code(s[i].0));
                    } else {
                        assert(key_code(s[i].0) < key_code(s[k].0));
                    }
                }
            }
            if e == (c, v) {
                assert(t[i] == e);
            } else if s.contains(e) && e.0 != c {
                let k = choose|k: int| 0 <= k < s.len() && s[k] == e;
                assert(k != i);
                assert(t[k] == e);
            }
        }
    } else {
        assert(t == s.insert(i, (c, v)));
        if i < s.len() {
            lemma_key_code_injective(s[i].0, c);
        }
        assert forall|a: int, b: int| 0 <= a < b < t.len() implies key_code(
            #[trigger] t[a].0,
        ) < key_code(#[trigger] t[b].0) by {
            if b < i {
                assert(key_code(s[a].0) < key_code(s[b].0));
            } else if a > i {
                assert(key_code(s[a - 1].0) < key_code(s[b - 1].0));
            } else if a == i {
                if b - 1 > i {
                    assert(key_code(s[i].0) < key_code(s[b - 1].0));
                }
            } else if b == i {
            } else {
                if i < b - 1 {
                    assert(key_code(s[i].0) < key_code(s[b - 1].0));
                }
            }
        }
        assert forall|e: (char, Seq<char>)| t.contains(e) <==> (e == (c, v) || (s.contains(e)
            && e.0 != c)) by {
            if t.contains(e) {
                let k = choose|k: int| 0 <= k < t.len() && t[k] == e;
                if k < i {
                    assert(s[k] == e);
                } else if k > i {
                    assert(s[k - 1] == e);
                    assert(key_code(s[i].0) <= key_code(s[k - 1].0));
                }
            }
            if e == (c, v) {
                assert(t[i] == e);
            } else if s.contains(e) && e.0 != c {
                let k = choose|k: int| 0 <= k < s.len() && s[k] == e;
                if k < i {
                    assert(t[k] == e);
                } else {
                    assert(t[k + 1] == e);
                }
            }
        }
    }
}

impl Palette {
    /// Keys unique and ascending.
    pub open spec fn wf(&self) -> bool {
        sorted_keys(self@)
    }

    pub fn new() -> (r: Palette)
        ensures
            r@ == Seq::<(char, Seq<char>)>::empty(),
            r.wf(),
    {
        let r = Palette { entries: Vec::new() };
        proof {
            assert(r@ =~= Seq::<(char, Seq<char>)>::empty());
        }
        r
    }

    pub fn len(&self) -> (r: usize)
        ensures
            r == self@.len(),
    {
        self.entries.len()
    }

    pub fn is_empty(&self) -> (r: bool)
        ensures
            r == (self@.len() == 0),
    {
        self.entries.len() == 0
    }

    pub fn contains_key(&self, c: char) -> (r: bool)
        ensures
            r == has_key(self@, c),
    {
        let mut i: usize = 0;
        while i < self.entries.len()
            invariant
                i <= self.entries@.len(),
                forall|j: int| 0 <= j < i ==> self@[j].0 != c,
            decreases self.entries@.len() - i,
        {
            if self.entries[i].0 == c {
                proof {
                    assert(self@[i as int].0 == c);
                }
                return true;
            }
            i = i + 1;
        }
        false
    }

    /// The colour of `c`, if `c` has an entry.
    pub fn get(&self, c: char) -> (r: Option<&String>)
        ensures
            r is Some <==> has_key(self@, c),
            r matches Some(v) ==> exists|i: int|
                0 <= i < self@.len() && self@[i] == (c, v@),
    {
        let mut i: usize = 0;
        while i < self.entries.len()
            invariant
                i <= self.entries@.len(),
                forall|j: int| 0 <= j < i ==> self@[j].0 != c,
            decreases self.entries@.len() - i,
        {
            if self.entries[i].0 == c {
                proof {
                    assert(self@[i as int] == (c, self.entries@[i as int].1@));
                }
                return Some(&self.entries[i].1);
            }
            i = i + 1;
        }
        None
    }

    /// A copy with the entries put, in their order, into an empty palette.
    pub fn sorted(&self) -> (r: Palette)
        ensures
            r.wf(),
            r@ == sorted_of(self@),
    {
        let mut r = Palette::new();
        let mut i: usize = 0;
        while i < self.entries.len()
            invariant
                i <= self.entries@.len(),
                r.wf(),
                r@ == sorted_of(self@.subrange(0, i as int)),
            decreases self.entries@.len() - i,
        {
            let c = self.entries[i].0;
            let color = self.entries[i].1.clone();
            r.insert(c, color);
            proof {
                let a = self@.subrange(0, i as int);
                let b = self@.subrange(0, i + 1);
                assert(b.drop_last() =~= a);
                assert(b.last() == (c, color@));
            }
            i = i + 1;
        }
        proof {
            assert(self@.subrange(0, self@.len() as int) =~= self@);
        }
        r
    }

    /// Maps `c` to `color`; returns the colour it replaced, if any.
    pub fn insert(&mut self, c: char, color: String) -> (r: Option<String>)
        requires
            old(self).wf(),
        ensures
            final(self).wf(),
            final(self)@ == put(old(self)@, c, color@),
            r is Some <==> has_key(old(self)@, c),
    {
        let n = self.entries.len();
        let mut i: usize = 0;
        while i < n && (self.entries[i].0 as u32) < (c as u32)
            invariant
                n == self.entries@.len(),
                i <= n,
                forall|j: int| 0 <= j < i ==> key_code(self@[j].0) < key_code(c),
            decreases n - i,
        {
            i = i + 1;
        }
        let ghost s = self@;
        proof {
            lemma_first_not_below_is(s, c, 0, i as int);
            lemma_put(s, c, color@);
        }
        if i < n && self.entries[i].0 == c {
            let ghost before = self.entries@;
            let old_entry = self.entries.remove(i);
            self.entries.insert(i, (c, color));
            proof {
                assert(self.entries@ =~= before.update(i as int, (c, color)));
                assert(self@ =~= s.update(i as int, (c, color@)));
                assert(s[i as int].0 == c);
            }
            Some(old_entry.1)
        } else {
            self.entries.insert(i, (c, color));
            proof {
                assert(self@ =~= s.insert(i as int, (c, color@)));
                if i < n {
                    lemma_key_code_injective(s[i as int].0, c);
                }
                assert(!has_key(s, c)) by {
                    if has_key(s, c) {
                        let k = choose|k: int| 0 <= k < s.len() && (#[trigger] s[k]).0 == c;
                        if k > i {
                            assert(key_code(s[i as int].0) < key_code(s[k].0));
                        }
                    }
                }
            }
            None
        }
    }
}

impl Default for Palette {
    fn default() -> (r: Palette)
        ensures
            r@ == Seq::<(char, Seq<char>)>::empty(),
            r.wf(),
    {
        Palette::new()
    }
}

pub open spec fn opt_view(o: Option<String>) -> Option<Seq<char>> {
    match o {
        Some(s) => Some(s@),
        None => None,
    }
}

pub open spec fn strings_view(v: Seq<String>) -> Seq<Seq<char>> {
    v.map_values(|s: String| s@)
}

/// What a glyph holds, over plain values.
pub struct GlyphModel {
    pub name: Seq<char>,
    pub unicode: Option<Seq<char>>,
    pub char_repr: Option<char>,
    pub size: Option<Size>,
    pub palette: EntriesModel,
    pub bitmap: Seq<Seq<char>>,
    pub warnings: Seq<Seq<char>>,
}

/// One character definition: metadata, colour table and rows of pixels.
#[derive(Clone, Debug)]
pub struct Glyph {
    pub name: String,
    pub unicode: Option<String>,
    pub char_repr: Option<char>,
    pub size: Option<Size>,
    pub palette: Palette,
    pub bitmap: Vec<String>,
    /// Diagnostics gathered while this glyph was read; empty otherwise.
    pub validation_warnings: Vec<String>,
}

impl View for Glyph {
    type V = GlyphModel;

    open spec fn view(&self) -> GlyphModel {
        GlyphModel {
            name: self.name@,
            unicode: opt_view(self.unicode),
            char_repr: self.char_repr,
            size: self.size,
            palette: self.palette@,
            bitmap: strings_view(self.bitmap@),
            warnings: strings_view(self.validation_warnings@),
        }
    }
}

pub open spec fn new_glyph_model(name: Seq<char>) -> GlyphModel {
    GlyphModel {
        name,
        unicode: None,
        char_repr: None,
        size: None,
        palette: Seq::empty(),
        bitmap: Seq::empty(),
        warnings: Seq::empty(),
    }
}

impl Glyph {
    pub open spec fn wf(&self) -> bool {
        self.palette.wf()
    }

    /// A glyph with the given name and nothing else: no metadata, an empty
    /// palette, no size, no rows and no warnings.
    pub fn new(name: String) -> (r: Glyph)
        ensures
            r@ == new_glyph_model(name@),
            r.wf(),
    {
        let r = Glyph {
            name,
            unicode: None,
            char_repr: None,
            size: None,
            palette: Palette::new(),
            bitmap: Vec::new(),
            validation_warnings: Vec::new(),
        };
        proof {
            assert(strings_view(r.bitmap@) =~= Seq::<Seq<char>>::empty());
            assert(strings_view(r.validation_warnings@) =~= Seq::<Seq<char>>::empty());
        }
        r
    }
}

/// What a header holds. A missing default palette is seen as an empty one.
pub struct HeaderModel {
    pub font_name: Option<Seq<char>>,
    pub version: Option<Seq<char>>,
    pub author: Option<Seq<char>>,
    pub description: Option<Seq<char>>,
    pub default_size: Option<Size>,
    pub default_palette: EntriesModel,
}

/// Font-wide metadata.
#[derive(Clone, Debug)]
pub struct GtfHeader {
    pub font_name: Option<String>,
    pub version: Option<String>,
    pub author: Option<String>,
    pub description: Option<String>,
    pub default_size: Option<Size>,
    /// Font-wide colours, not applied to glyphs. Reading a `HEADER` block
    /// leaves it present, empty when there is no `DEFAULT_PALETTE` block;
    /// the model sees a missing palette and an empty one alike.
    pub default_palette: Option<Palette>,
}

pub open spec fn opt_palette_view(p: Option<Palette>) -> EntriesModel {
    match p {
        Some(p) => p@,
        None => Seq::empty(),
    }
}

impl View for GtfHeader {
    type V = HeaderModel;

    open spec fn view(&self) -> HeaderModel {
        HeaderModel {
            font_name: opt_view(self.font_name),
            version: opt_view(self.version),
            author: opt_view(self.author),
            description: opt_view(self.description),
            default_size: self.default_size,
            default_palette: opt_palette_view(self.default_palette),
        }
    }
}

pub open spec fn empty_header_model() -> HeaderModel {
    HeaderModel {
        font_name: None,
        version: None,
        author: None,
        description: None,
        default_size: None,
        default_palette: Seq::empty(),
    }
}

impl GtfHeader {
    pub open spec fn wf(&self) -> bool {
        self.default_palette matches Some(p) ==> p.wf()
    }

    pub fn new() -> (r: GtfHeader)
        ensures
            r@ == empty_header_model(),
            r.default_palette is None,
            r.wf(),
    {
        GtfHeader {
            font_name: None,
            version: None,
            author: None,
            description: None,
            default_size: None,
            default_palette: None,
        }
    }
}

impl Default for GtfHeader {
    fn default() -> (r: GtfHeader)
        ensures
            r@ == empty_header_model(),
            r.default_palette is None,
            r.wf(),
    {
        GtfHeader::new()
    }
}

pub struct DocModel {
    pub header: HeaderModel,
    pub glyphs: Seq<GlyphModel>,
}

/// A whole font: header plus glyphs in their order.
#[derive(Clone, Debug)]
pub struct GtfDocument {
    pub header: GtfHeader,
    pub glyphs: Vec<Glyph>,
}

pub open spec fn glyphs_view(v: Seq<Glyph>) -> Seq<GlyphModel> {
    v.map_values(|g: Glyph| g@)
}

impl View for GtfDocument {
    type V = DocModel;

    open spec fn view(&self) -> DocModel {
        DocModel { header: self.header@, glyphs: glyphs_view(self.glyphs@) }
    }
}

pub open spec fn empty_doc_model() -> DocModel {
    DocModel { header: empty_header_model(), glyphs: Seq::empty() }
}

impl GtfDocument {
    /// Every palette in the document keeps its keys unique and ascending.
    pub open spec fn wf(&self) -> bool {
        &&& self.header.wf()
        &&& forall|i: int| 0 <= i < self.glyphs@.len() ==> (#[trigger] self.glyphs@[i]).wf()
    }

    pub fn new() -> (r: GtfDocument)
        ensures
            r@ == empty_doc_model(),
            r.wf(),
    {
        let r = GtfDocument { header: GtfHeader::new(), glyphs: Vec::new() };
        proof {
            assert(glyphs_view(r.glyphs@) =~= Seq::<GlyphModel>::empty());
        }
        r
    }
}

impl Default for GtfDocument {
    fn default() -> (r: GtfDocument)
        ensures
            r@ == empty_doc_model(),
            r.wf(),
    {
        GtfDocument::new()
    }
}

} // verus!
