//! GTF pixel-font documents: a verified reader and writer for the GTF text
//! format, the document model they share, a bitmap resize and the registry
//! of foreign formats.
use vstd::prelude::*;

pub mod formats;
pub mod laws;
pub mod parse;
pub mod resize;
pub mod roundtrip;
pub mod serialize;
pub mod text;
pub mod types;

pub use formats::{
    export_format, import_format, ExportFormat, ImportFormat, get_all_exporter_info, get_all_importer_info, BfntBinaryExporter, BfntBinaryImporter,
    BmpImageExporter, DatTextExporter, DatTextImporter, ExportMode, ExporterInfo, FntTextImporter,
    FontExporter, FontImporter, ImportMode, ImporterInfo,
};
pub use parse::parse_gtf_content;
pub use resize::resize_bitmap;
pub use serialize::serialize_gtf_document;
pub use types::{Glyph, GtfDocument, GtfHeader, Palette, Size};

verus! {

} // verus!
