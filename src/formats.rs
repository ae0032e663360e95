//! The registry of foreign font formats. GTF itself is read and written by
//! `parse` and `serialize`; the other formats are declared here with their
//! metadata and answer every conversion with a "not yet implemented" error.
use vstd::prelude::*;

use crate::text::{chars_of, equals_at, push_str, string_from, string_of_str};
use crate::types::GtfDocument;

verus! {

/// Whether a format is written as text or as binary data.
#[derive(Clone, Copy, Debug, PartialEq, Eq, Structural)]
pub enum ExportMode {
    Text,
    Binary,
}

/// Whether a format is read as text or as binary data.
#[derive(Clone, Copy, Debug, PartialEq, Eq, Structural)]
pub enum ImportMode {
    Text,
    Binary,
}

/// What a user interface shows of an exporter.
#[derive(Clone, Debug)]
pub struct ExporterInfo {
    pub name: String,
    pub extensions: Vec<String>,
    pub mode: ExportMode,
    pub description: String,
}

/// What a user interface shows of an importer.
#[derive(Clone, Debug)]
pub struct ImporterInfo {
    pub name: String,
    pub extensions: Vec<String>,
    pub mode: ImportMode,
    pub description: String,
}

pub open spec fn strs_view(v: Seq<&str>) -> Seq<Seq<char>> {
    v.map_values(|s: &str| s@)
}

/// Owned copies of the extensions.
fn owned_extensions(exts: &[&str]) -> (r: Vec<String>)
    ensures
        crate::types::strings_view(r@) == strs_view(exts@),
{
    let mut r: Vec<String> = Vec::new();
    let mut i: usize = 0;
    while i < exts.len()
        invariant
            i <= exts@.len(),
            crate::types::strings_view(r@) == strs_view(exts@.subrange(0, i as int)),
        decreases exts@.len() - i,
    {
        let ghost before = r@;
        let e = string_of_str(exts[i]);
        r.push(e);
        proof {
            assert(r@ == before.push(e));
            assert(crate::types::strings_view(r@) =~= crate::types::strings_view(before).push(e@));
            assert(strs_view(exts@.subrange(0, i + 1)) =~= strs_view(exts@.subrange(0, i as int)).push(
                exts@[i as int]@,
            ));
        }
        i = i + 1;
    }
    proof {
        assert(exts@.subrange(0, exts@.len() as int) =~= exts@);
    }
    r
}

/// `pre` + `name` + `post`, as a new string.
fn framed(pre: &str, name: &str, post: &str) -> (r: String)
    ensures
        r@ == pre@ + name@ + post@,
{
    let mut m: Vec<char> = Vec::new();
    push_str(&mut m, pre);
    push_str(&mut m, name);
    push_str(&mut m, post);
    string_from(m.as_slice())
}

/// A format that a document can be written to.
pub trait FontExporter {
    spec fn format_name(&self) -> Seq<char>;

    spec fn format_extensions(&self) -> Seq<Seq<char>>;

    spec fn format_mode(&self) -> ExportMode;

    /// Human-readable format name.
    fn name(&self) -> (r: &'static str)
        ensures
            r@ == self.format_name(),
    ;

    /// File extensions, without the dot.
    fn extensions(&self) -> (r: &'static [&'static str])
        ensures
            strs_view(r@) == self.format_extensions(),
    ;

    fn mode(&self) -> (r: ExportMode)
        ensures
            r == self.format_mode(),
    ;

    /// The document as text, for text formats.
    fn export_to_text(&self, document: &GtfDocument) -> Result<String, String>;

    /// The document as bytes, for binary formats.
    fn export_to_bytes(&self, document: &GtfDocument) -> Result<Vec<u8>, String>;
}

/// A format that a document can be read from.
pub trait FontImporter {
    spec fn format_name(&self) -> Seq<char>;

    spec fn format_extensions(&self) -> Seq<Seq<char>>;

    spec fn format_mode(&self) -> ImportMode;

    /// Human-readable format name.
    fn name(&self) -> (r: &'static str)
        ensures
            r@ == self.format_name(),
    ;

    /// File extensions, without the dot.
    fn extensions(&self) -> (r: &'static [&'static str])
        ensures
            strs_view(r@) == self.format_extensions(),
    ;

    fn mode(&self) -> (r: ImportMode)
        ensures
            r == self.format_mode(),
    ;

    /// A document from text, for text formats.
    fn import_from_text(&self, content: &str) -> Result<GtfDocument, String>;

    /// A document from bytes, for binary formats.
    fn import_from_bytes(&self, content: &[u8]) -> Result<GtfDocument, String>;

    /// A quick look at a file's content, without a full parse.
    fn validate_content(&self, content: &[u8]) -> bool;
}

/// Metadata of an exporter for display.
pub fn exporter_info<E: FontExporter>(e: &E) -> (r: ExporterInfo)
    ensures
        r.mode == e.format_mode(),
        r.name@ == e.format_name(),
        crate::types::strings_view(r.extensions@) == e.format_extensions(),
        r.description@ == "Export to "@ + e.format_name() + " format"@,
{
    ExporterInfo {
        name: string_of_str(e.name()),
        extensions: owned_extensions(e.extensions()),
        mode: e.mode(),
        description: framed("Export to ", e.name(), " format"),
    }
}

/// Metadata of an importer for display.
pub fn importer_info<I: FontImporter>(i: &I) -> (r: ImporterInfo)
    ensures
        r.mode == i.format_mode(),
        r.name@ == i.format_name(),
        crate::types::strings_view(r.extensions@) == i.format_extensions(),
        r.description@ == "Import from "@ + i.format_name() + " format"@,
{
    ImporterInfo {
        name: string_of_str(i.name()),
        extensions: owned_extensions(i.extensions()),
        mode: i.mode(),
        description: framed("Import from ", i.name(), " format"),
    }
}

/// `<name>: <operation> not supported`.
fn unsupported(name: &str, operation: &str) -> (r: String)
    ensures
        r@ == name@ + ": "@ + operation@ + " not supported"@,
{
    let mut m: Vec<char> = Vec::new();
    push_str(&mut m, name);
    push_str(&mut m, ": ");
    push_str(&mut m, operation);
    push_str(&mut m, " not supported");
    string_from(m.as_slice())
}

/// DAT text (VISE): a legacy text format; conversion not written yet.
pub struct DatTextExporter;

/// BFNT: packed binary bitmaps for embedded displays; conversion not written yet.
pub struct BfntBinaryExporter;

/// BMP: bitmap images of glyphs; conversion not written yet.
pub struct BmpImageExporter;

impl FontExporter for DatTextExporter {
    open spec fn format_name(&self) -> Seq<char> {
        "DAT Text (VISE)"@
    }

    open spec fn format_extensions(&self) -> Seq<Seq<char>> {
        seq!["dat"@]
    }

    open spec fn format_mode(&self) -> ExportMode {
        ExportMode::Text
    }

    fn name(&self) -> &'static str {
        "DAT Text (VISE)"
    }

    fn extensions(&self) -> &'static [&'static str] {
        &["dat"]
    }

    fn mode(&self) -> ExportMode {
        ExportMode::Text
    }

    fn export_to_text(&self, document: &GtfDocument) -> Result<String, String> {
        Err(string_of_str("DAT text export not yet implemented"))
    }

    fn export_to_bytes(&self, document: &GtfDocument) -> Result<Vec<u8>, String> {
        Err(unsupported(self.name(), "export_to_bytes"))
    }
}

impl FontExporter for BfntBinaryExporter {
    open spec fn format_name(&self) -> Seq<char> {
        "BFNT Binary"@
    }

    open spec fn format_extensions(&self) -> Seq<Seq<char>> {
        seq!["bfnt"@]
    }

    open spec fn format_mode(&self) -> ExportMode {
        ExportMode::Binary
    }

    fn name(&self) -> &'static str {
        "BFNT Binary"
    }

    fn extensions(&self) -> &'static [&'static str] {
        &["bfnt"]
    }

    fn mode(&self) -> ExportMode {
        ExportMode::Binary
    }

    fn export_to_text(&self, document: &GtfDocument) -> Result<String, String> {
        Err(unsupported(self.name(), "export_to_text"))
    }

    fn export_to_bytes(&self, document: &GtfDocument) -> Result<Vec<u8>, String> {
        Err(string_of_str("BFNT binary export not yet implemented"))
    }
}

impl FontExporter for BmpImageExporter {
    open spec fn format_name(&self) -> Seq<char> {
        "BMP Image"@
    }

    open spec fn format_extensions(&self) -> Seq<Seq<char>> {
        seq!["bmp"@]
    }

    open spec fn format_mode(&self) -> ExportMode {
        ExportMode::Binary
    }

    fn name(&self) -> &'static str {
        "BMP Image"
    }

    fn extensions(&self) -> &'static [&'static str] {
        &["bmp"]
    }

    fn mode(&self) -> ExportMode {
        ExportMode::Binary
    }

    fn export_to_text(&self, document: &GtfDocument) -> Result<String, String> {
        Err(unsupported(self.name(), "export_to_text"))
    }

    fn export_to_bytes(&self, document: &GtfDocument) -> Result<Vec<u8>, String> {
        Err(string_of_str("BMP image export not yet implemented"))
    }
}

/// DAT text (VISE): a legacy text format; conversion not written yet.
pub struct DatTextImporter;

/// FNT: a text bitmap-font format of embedded devices; conversion not written yet.
pub struct FntTextImporter;

/// BFNT: packed binary bitmaps for embedded displays; conversion not written yet.
pub struct BfntBinaryImporter;

impl FontImporter for DatTextImporter {
    open spec fn format_name(&self) -> Seq<char> {
        "DAT Text (VISE)"@
    }

    open spec fn format_extensions(&self) -> Seq<Seq<char>> {
        seq!["dat"@]
    }

    open spec fn format_mode(&self) -> ImportMode {
        ImportMode::Text
    }

    fn name(&self) -> &'static str {
        "DAT Text (VISE)"
    }

    fn extensions(&self) -> &'static [&'static str] {
        &["dat"]
    }

    fn mode(&self) -> ImportMode {
        ImportMode::Text
    }

    fn import_from_text(&self, content: &str) -> Result<GtfDocument, String> {
        Err(string_of_str("DAT text import not yet implemented"))
    }

    fn import_from_bytes(&self, content: &[u8]) -> Result<GtfDocument, String> {
        Err(unsupported(self.name(), "import_from_bytes"))
    }

    fn validate_content(&self, content: &[u8]) -> bool {
        content.len() > 0
    }
}

impl FontImporter for FntTextImporter {
    open spec fn format_name(&self) -> Seq<char> {
        "FNT Text"@
    }

    open spec fn format_extensions(&self) -> Seq<Seq<char>> {
        seq!["fnt"@]
    }

    open spec fn format_mode(&self) -> ImportMode {
        ImportMode::Text
    }

    fn name(&self) -> &'static str {
        "FNT Text"
    }

    fn extensions(&self) -> &'static [&'static str] {
        &["fnt"]
    }

    fn mode(&self) -> ImportMode {
        ImportMode::Text
    }

    fn import_from_text(&self, content: &str) -> Result<GtfDocument, String> {
        Err(string_of_str("FNT text import not yet implemented"))
    }

    fn import_from_bytes(&self, content: &[u8]) -> Result<GtfDocument, String> {
        Err(unsupported(self.name(), "import_from_bytes"))
    }

    fn validate_content(&self, content: &[u8]) -> bool {
        content.len() > 0
    }
}

impl FontImporter for BfntBinaryImporter {
    open spec fn format_name(&self) -> Seq<char> {
        "BFNT Binary"@
    }

    open spec fn format_extensions(&self) -> Seq<Seq<char>> {
        seq!["bfnt"@]
    }

    open spec fn format_mode(&self) -> ImportMode {
        ImportMode::Binary
    }

    fn name(&self) -> &'static str {
        "BFNT Binary"
    }

    fn extensions(&self) -> &'static [&'static str] {
        &["bfnt"]
    }

    fn mode(&self) -> ImportMode {
        ImportMode::Binary
    }

    fn import_from_text(&self, content: &str) -> Result<GtfDocument, String> {
        Err(unsupported(self.name(), "import_from_text"))
    }

    fn import_from_bytes(&self, content: &[u8]) -> Result<GtfDocument, String> {
        Err(string_of_str("BFNT binary import not yet implemented"))
    }

    fn validate_content(&self, content: &[u8]) -> bool {
        content.len() > 4
    }
}

/// Metadata of every exporter: native GTF first, then the foreign formats.
pub fn get_all_exporter_info() -> (r: Vec<ExporterInfo>)
    ensures
        r@.len() == 4,
        r@[0].name@ == "GTF Text"@,
        r@[0].mode == ExportMode::Text,
        r@[1].name@ == "DAT Text (VISE)"@,
        r@[2].name@ == "BFNT Binary"@,
        r@[3].name@ == "BMP Image"@,
        r@[1].mode == ExportMode::Text,
        r@[2].mode == ExportMode::Binary,
        r@[3].mode == ExportMode::Binary,
        crate::types::strings_view(r@[0].extensions@) == seq!["gtf"@],
        crate::types::strings_view(r@[1].extensions@) == seq!["dat"@],
        crate::types::strings_view(r@[2].extensions@) == seq!["bfnt"@],
        crate::types::strings_view(r@[3].extensions@) == seq!["bmp"@],
        r@[0].description@ == "Native GTF v2 text format (fully implemented)"@,
        r@[1].description@ == "Export to "@ + "DAT Text (VISE)"@ + " format"@,
        r@[2].description@ == "Export to "@ + "BFNT Binary"@ + " format"@,
        r@[3].description@ == "Export to "@ + "BMP Image"@ + " format"@,
{
    let mut r: Vec<ExporterInfo> = Vec::new();
    let mut exts: Vec<String> = Vec::new();
    exts.push(string_of_str("gtf"));
    proof {
        assert(crate::types::strings_view(exts@) =~= seq!["gtf"@]);
    }
    r.push(
        ExporterInfo {
            name: string_of_str("GTF Text"),
            extensions: exts,
            mode: ExportMode::Text,
            description: string_of_str("Native GTF v2 text format (fully implemented)"),
        },
    );
    r.push(exporter_info(&DatTextExporter));
    r.push(exporter_info(&BfntBinaryExporter));
    r.push(exporter_info(&BmpImageExporter));
    r
}

/// Metadata of every importer: native GTF first, then the foreign formats.
pub fn get_all_importer_info() -> (r: Vec<ImporterInfo>)
    ensures
        r@.len() == 4,
        r@[0].name@ == "GTF Text"@,
        r@[0].mode == ImportMode::Text,
        r@[1].name@ == "DAT Text (VISE)"@,
        r@[2].name@ == "FNT Text"@,
        r@[3].name@ == "BFNT Binary"@,
        r@[1].mode == ImportMode::Text,
        r@[2].mode == ImportMode::Text,
        r@[3].mode == ImportMode::Binary,
        crate::types::strings_view(r@[0].extensions@) == seq!["gtf"@],
        crate::types::strings_view(r@[1].extensions@) == seq!["dat"@],
        crate::types::strings_view(r@[2].extensions@) == seq!["fnt"@],
        crate::types::strings_view(r@[3].extensions@) == seq!["bfnt"@],
        r@[0].description@ == "Native GTF v2 text format (fully implemented)"@,
        r@[1].description@ == "Import from "@ + "DAT Text (VISE)"@ + " format"@,
        r@[2].description@ == "Import from "@ + "FNT Text"@ + " format"@,
        r@[3].description@ == "Import from "@ + "BFNT Binary"@ + " format"@,
{
    let mut r: Vec<ImporterInfo> = Vec::new();
    let mut exts: Vec<String> = Vec::new();
    exts.push(string_of_str("gtf"));
    proof {
        assert(crate::types::strings_view(exts@) =~= seq!["gtf"@]);
    }
    r.push(
        ImporterInfo {
            name: string_of_str("GTF Text"),
            extensions: exts,
            mode: ImportMode::Text,
            description: string_of_str("Native GTF v2 text format (fully implemented)"),
        },
    );
    r.push(importer_info(&DatTextImporter));
    r.push(importer_info(&FntTextImporter));
    r.push(importer_info(&BfntBinaryImporter));
    r
}

/// What `str::to_lowercase` gives for a text.
pub uninterp spec fn lower_of(s: Seq<char>) -> Seq<char>;

/// Relies on `str::to_lowercase`: the lowercase form depends on the
/// characters alone.
#[verifier::external_body]
fn lowercase(s: &str) -> (r: String)
    ensures
        r@ == lower_of(s@),
{
    s.to_lowercase()
}

/// The formats a document can be written in.
#[derive(Clone, Copy, Debug, PartialEq, Eq, Structural)]
pub enum ExportFormat {
    Gtf,
    Dat,
    Bfnt,
    Bmp,
}

/// The formats a document can be read from.
#[derive(Clone, Copy, Debug, PartialEq, Eq, Structural)]
pub enum ImportFormat {
    Gtf,
    Dat,
    Fnt,
    Bfnt,
}

pub open spec fn export_format_named(lower: Seq<char>) -> Option<ExportFormat> {
    if lower == "gtf"@ {
        Some(ExportFormat::Gtf)
    } else if lower == "dat"@ {
        Some(ExportFormat::Dat)
    } else if lower == "bfnt"@ {
        Some(ExportFormat::Bfnt)
    } else if lower == "bmp"@ {
        Some(ExportFormat::Bmp)
    } else {
        None
    }
}

pub open spec fn import_format_named(lower: Seq<char>) -> Option<ImportFormat> {
    if lower == "gtf"@ {
        Some(ImportFormat::Gtf)
    } else if lower == "dat"@ {
        Some(ImportFormat::Dat)
    } else if lower == "fnt"@ {
        Some(ImportFormat::Fnt)
    } else if lower == "bfnt"@ {
        Some(ImportFormat::Bfnt)
    } else {
        None
    }
}

/// The export format that an already lowercased name selects; `format` is
/// the name as the caller gave it, for the message.
pub fn export_format_from_lower(lower: &str, format: &str) -> (r: Result<ExportFormat, String>)
    ensures
        match export_format_named(lower@) {
            Some(f) => r == Ok::<ExportFormat, String>(f),
            None => r matches Err(m) && m@ == "Unknown export format: '"@ + format@ + "'"@,
        },
{
    let l = chars_of(lower);
    let n = l.len();
    proof {
        assert(l@.subrange(0, n as int) =~= l@);
    }
    if equals_at(l.as_slice(), 0, n, "gtf") {
        Ok(ExportFormat::Gtf)
    } else if equals_at(l.as_slice(), 0, n, "dat") {
        Ok(ExportFormat::Dat)
    } else if equals_at(l.as_slice(), 0, n, "bfnt") {
        Ok(ExportFormat::Bfnt)
    } else if equals_at(l.as_slice(), 0, n, "bmp") {
        Ok(ExportFormat::Bmp)
    } else {
        Err(framed("Unknown export format: '", format, "'"))
    }
}

/// The import format that an already lowercased name selects; `format` is
/// the name as the caller gave it, for the message.
pub fn import_format_from_lower(lower: &str, format: &str) -> (r: Result<ImportFormat, String>)
    ensures
        match import_format_named(lower@) {
            Some(f) => r == Ok::<ImportFormat, String>(f),
            None => r matches Err(m) && m@ == "Unknown import format: '"@ + format@ + "'"@,
        },
{
    let l = chars_of(lower);
    let n = l.len();
    proof {
        assert(l@.subrange(0, n as int) =~= l@);
    }
    if equals_at(l.as_slice(), 0, n, "gtf") {
        Ok(ImportFormat::Gtf)
    } else if equals_at(l.as_slice(), 0, n, "dat") {
        Ok(ImportFormat::Dat)
    } else if equals_at(l.as_slice(), 0, n, "fnt") {
        Ok(ImportFormat::Fnt)
    } else if equals_at(l.as_slice(), 0, n, "bfnt") {
        Ok(ImportFormat::Bfnt)
    } else {
        Err(framed("Unknown import format: '", format, "'"))
    }
}

/// The export format a name selects, whatever its letter case.
pub fn export_format(format: &str) -> (r: Result<ExportFormat, String>)
    ensures
        match export_format_named(lower_of(format@)) {
            Some(f) => r == Ok::<ExportFormat, String>(f),
            None => r matches Err(m) && m@ == "Unknown export format: '"@ + format@ + "'"@,
        },
{
    let lower = lowercase(format);
    export_format_from_lower(lower.as_str(), format)
}

/// The import format a name selects, whatever its letter case.
pub fn import_format(format: &str) -> (r: Result<ImportFormat, String>)
    ensures
        match import_format_named(lower_of(format@)) {
            Some(f) => r == Ok::<ImportFormat, String>(f),
            None => r matches Err(m) && m@ == "Unknown import format: '"@ + format@ + "'"@,
        },
{
    let lower = lowercase(format);
    import_format_from_lower(lower.as_str(), format)
}

} // verus!
