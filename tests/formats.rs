use gtf_font::{
    export_format, import_format, ExportFormat, ImportFormat,
    get_all_exporter_info, get_all_importer_info, BfntBinaryImporter, DatTextExporter, ExportMode,
    FontExporter, FontImporter, GtfDocument, ImportMode,
};

#[test]
fn exporter_registry_lists_formats() {
    let infos = get_all_exporter_info();
    let names: Vec<&str> = infos.iter().map(|i| i.name.as_str()).collect();
    assert_eq!(names, vec!["GTF Text", "DAT Text (VISE)", "BFNT Binary", "BMP Image"]);
    assert_eq!(infos[1].extensions, vec!["dat".to_string()]);
    assert_eq!(infos[1].description, "Export to DAT Text (VISE) format");
    assert_eq!(infos[3].mode, ExportMode::Binary);
}

#[test]
fn importer_registry_lists_formats() {
    let infos = get_all_importer_info();
    let names: Vec<&str> = infos.iter().map(|i| i.name.as_str()).collect();
    assert_eq!(names, vec!["GTF Text", "DAT Text (VISE)", "FNT Text", "BFNT Binary"]);
    assert_eq!(infos[2].description, "Import from FNT Text format");
    assert_eq!(infos[3].mode, ImportMode::Binary);
}

#[test]
fn stub_formats_report_not_implemented() {
    let doc = GtfDocument::new();
    assert_eq!(
        DatTextExporter.export_to_text(&doc).unwrap_err(),
        "DAT text export not yet implemented"
    );
    assert_eq!(
        DatTextExporter.export_to_bytes(&doc).unwrap_err(),
        "DAT Text (VISE): export_to_bytes not supported"
    );
    assert!(BfntBinaryImporter.import_from_bytes(&[1, 2, 3]).is_err());
    assert!(!BfntBinaryImporter.validate_content(&[1, 2, 3, 4]));
    assert!(BfntBinaryImporter.validate_content(&[1, 2, 3, 4, 5]));
}

#[test]
fn format_names_ignore_letter_case() {
    assert_eq!(export_format("GTF"), Ok(ExportFormat::Gtf));
    assert_eq!(export_format("Bmp"), Ok(ExportFormat::Bmp));
    assert_eq!(import_format("FnT"), Ok(ImportFormat::Fnt));
    assert_eq!(export_format("fnt"), Err("Unknown export format: 'fnt'".to_string()));
    assert_eq!(import_format("BMP"), Err("Unknown import format: 'BMP'".to_string()));
}
