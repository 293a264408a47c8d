use tessera_bridge::export::{
    check_batch, check_print_box, file_name, first_occurrences, stem, FileFormat, NamePlan, NameStep, OnConflict,
    OutputSettings,
};
use tessera_bridge::presets::{
    default_preset_names, find_preset, order_presets, preset_file_name, preset_name, preset_rank,
    preset_stem, preset_to_delete, preset_to_rename, ExportPreset,
};

fn settings(format: FileFormat, quality: u8, bit_depth: u8, dpi: u32, upscale: u8) -> OutputSettings {
    OutputSettings { format, quality, bit_depth, dpi, upscale }
}

fn problem(s: OutputSettings) -> Option<String> {
    s.validate().err().map(|e| e.message_text())
}

#[test]
fn output_settings_are_checked_in_order() {
    assert_eq!(problem(settings(FileFormat::Jpeg, 90, 8, 72, 1)), None);
    assert_eq!(problem(settings(FileFormat::Tiff, 90, 16, 300, 4)), None);
    assert_eq!(problem(settings(FileFormat::Jpeg, 0, 7, 0, 3)).unwrap(), "JPEG quality must be 1–100");
    assert_eq!(problem(settings(FileFormat::Jpeg, 101, 8, 72, 1)).unwrap(), "JPEG quality must be 1–100");
    assert_eq!(problem(settings(FileFormat::Tiff, 100, 12, 72, 1)).unwrap(), "bit depth must be 8 or 16");
    assert_eq!(problem(settings(FileFormat::Png, 1, 16, 72, 1)).unwrap(), "16-bit output needs TIFF");
    assert_eq!(problem(settings(FileFormat::Png, 1, 8, 9601, 1)).unwrap(), "resolution must be 1–9600 dpi");
    assert_eq!(problem(settings(FileFormat::Png, 1, 8, 0, 1)).unwrap(), "resolution must be 1–9600 dpi");
    assert_eq!(problem(settings(FileFormat::Png, 1, 8, 9600, 3)).unwrap(), "upscale must be 1, 2 or 4");
}

#[test]
fn formats_name_their_extension() {
    assert_eq!(FileFormat::Jpeg.extension(), "jpg");
    assert_eq!(FileFormat::Png.extension(), "png");
    assert_eq!(FileFormat::Tiff.extension(), "tif");
}

#[test]
fn print_boxes_are_bounded() {
    assert_eq!(check_print_box(0, 10).unwrap_err().message_text(), "print box must be at least 1 × 1 pixel");
    assert_eq!(check_print_box(10, 0).unwrap_err().message_text(), "print box must be at least 1 × 1 pixel");
    assert_eq!(check_print_box(20_000, 20_000).unwrap_err().message_text(), "print box exceeds 200 megapixels");
    assert!(check_print_box(10_000, 20_000).is_ok());
    assert!(check_print_box(u32::MAX, u32::MAX).is_err());
}

#[test]
fn batch_targets_keep_first_occurrences() {
    let ids: Vec<String> = ["a", "b", "a", "c", "b"].iter().map(|s| s.to_string()).collect();
    assert_eq!(first_occurrences(ids), vec!["a", "b", "c"]);
    assert!(first_occurrences(vec![]).is_empty());
}

#[test]
fn free_names_are_taken_and_clashes_numbered() {
    let mut plan = NamePlan::new();
    assert!(matches!(plan.step("IMG_1.jpg", false, OnConflict::Unique, "{name}", 1).unwrap(), NameStep::Take));
    match plan.step("img_1.JPG", false, OnConflict::Unique, "{name}", 1).unwrap() {
        NameStep::Retry { naming, attempt } => {
            assert_eq!(naming, "{name}-2");
            assert_eq!(attempt, 2);
        }
        other => panic!("unexpected {other:?}"),
    }
    match plan.step("IMG_2.jpg", true, OnConflict::Unique, "{name}", 2).unwrap() {
        NameStep::Retry { naming, attempt } => {
            assert_eq!(naming, "{name}-3");
            assert_eq!(attempt, 3);
        }
        other => panic!("unexpected {other:?}"),
    }
}

#[test]
fn skipped_conflicts_fail_the_image_or_the_batch() {
    let mut plan = NamePlan::new();
    match plan.step("a.jpg", true, OnConflict::Skip, "{name}", 1).unwrap() {
        NameStep::Exists { message } => assert_eq!(message, "a.jpg already exists"),
        other => panic!("unexpected {other:?}"),
    }
    assert!(matches!(plan.step("b.jpg", false, OnConflict::Skip, "{name}", 1).unwrap(), NameStep::Take));
    let e = plan.step("B.jpg", false, OnConflict::Skip, "{name}", 1).unwrap_err();
    assert_eq!(e.message_text(), "the name template gives “B.jpg” for more than one photo; add {seq}");
}

#[test]
fn source_names_come_from_the_path() {
    assert_eq!(stem("/photos/IMG_0001.CR3").unwrap(), "IMG_0001");
    assert_eq!(file_name("/photos/IMG_0001.CR3"), "IMG_0001.CR3");
    assert_eq!(stem("/").unwrap_err().message_text(), "file names must be UTF-8");
    assert_eq!(file_name("/"), "");
}

fn preset(name: &str) -> ExportPreset {
    ExportPreset { name: name.to_string(), settings_json: format!("{{\"n\":\"{name}\"}}") }
}

#[test]
fn presets_list_shipped_ones_first_then_by_name() {
    let listed = vec![
        preset("zeta"),
        preset("Print 300 dpi"),
        preset("Alpha"),
        preset("Web 2048 sRGB"),
        preset("alpha"),
        preset("Beta"),
    ];
    let ordered = order_presets(&listed);
    let names: Vec<&str> = ordered.iter().map(|p| p.name.as_str()).collect();
    assert_eq!(names, vec!["Web 2048 sRGB", "Print 300 dpi", "Alpha", "alpha", "Beta", "zeta"]);
    assert_eq!(ordered[2].settings_json, "{\"n\":\"Alpha\"}");
    assert_eq!(ordered[3].settings_json, "{\"n\":\"alpha\"}");
}

#[test]
fn shipped_presets_have_ranks() {
    let names = default_preset_names();
    assert_eq!(names, vec!["Web 2048 sRGB", "Full-size JPEG", "16-bit TIFF ProPhoto", "Print 300 dpi"]);
    for (i, n) in names.iter().enumerate() {
        assert_eq!(preset_rank(n), i);
    }
    assert_eq!(preset_rank("mine"), usize::MAX);
}

#[test]
fn preset_names_are_trimmed_and_bounded() {
    assert_eq!(preset_name("  Web small \n").unwrap(), "Web small");
    let refused = "preset names are 1–80 characters";
    assert_eq!(preset_name("   ").unwrap_err().message_text(), refused);
    assert_eq!(preset_name(&"x".repeat(81)).unwrap_err().message_text(), refused);
    assert_eq!(preset_name(&"é".repeat(80)).unwrap(), "é".repeat(80));
    assert_eq!(preset_name("a\u{7}b").unwrap_err().message_text(), refused);
}

#[test]
fn preset_files_have_safe_stems() {
    assert_eq!(preset_stem("../My/Preset*"), "_My_Preset_");
    assert_eq!(preset_stem("Web 2048 sRGB"), "Web 2048 sRGB");
    assert_eq!(preset_stem("..."), "preset");
    assert_eq!(preset_stem("   "), "preset");
    assert_eq!(preset_stem(&"a".repeat(70)), "a".repeat(64));
    assert_eq!(preset_file_name("Web", 1), "Web.json");
    assert_eq!(preset_file_name("Web", 3), "Web 3.json");
}

#[test]
fn presets_are_found_by_name() {
    let names: Vec<String> = ["a", "b", "a"].iter().map(|s| s.to_string()).collect();
    assert_eq!(find_preset(&names, "a"), Some(0));
    assert_eq!(find_preset(&names, "b"), Some(1));
    assert_eq!(find_preset(&names, "c"), None);
}

#[test]
fn presets_are_deleted_and_renamed_by_name() {
    let names: Vec<String> = ["Web", "Print", "Mine"].iter().map(|s| s.to_string()).collect();
    assert_eq!(preset_to_delete(&names, "Print").unwrap(), 1);
    assert_eq!(preset_to_delete(&names, "Gone").unwrap_err().message_text(), "no export preset named “Gone”");
    assert_eq!(preset_to_rename(&names, "Mine", "  Ours ").unwrap(), (2, "Ours".to_string()));
    assert_eq!(preset_to_rename(&names, "Mine", "Mine").unwrap(), (2, "Mine".to_string()));
    assert_eq!(
        preset_to_rename(&names, "Mine", "Web").unwrap_err().message_text(),
        "a preset named “Web” exists"
    );
    assert_eq!(preset_to_rename(&names, "Gone", "New").unwrap_err().message_text(), "no export preset named “Gone”");
    assert_eq!(preset_to_rename(&names, "Gone", " ").unwrap_err().message_text(), "preset names are 1–80 characters");
}

#[test]
fn batches_need_a_folder_and_images() {
    assert_eq!(check_batch("  /Users/me/Export ", 2).unwrap(), "/Users/me/Export");
    assert_eq!(
        check_batch("Export", 2).unwrap_err().message_text(),
        "choose an export folder (an absolute path)"
    );
    assert_eq!(check_batch("", 2).unwrap_err().message_text(), "choose an export folder (an absolute path)");
    assert_eq!(check_batch("/tmp/out", 0).unwrap_err().message_text(), "nothing to export");
}
