use tessera_bridge::document::{
    check_viewport, ext, file_title, history_label, numbered_name, plan_document_surface,
    premultiplied, save_kind, stem, Effect, SaveKind, Signal, StrokeTool,
};

fn names(v: &[&str]) -> Vec<String> {
    v.iter().map(|s| s.to_string()).collect()
}

#[test]
fn default_names_count_up_per_base() {
    assert_eq!(numbered_name(&names(&[]), "Layer"), "Layer 1");
    assert_eq!(numbered_name(&names(&["Levels 1", "Levels 2", "Layer 2"]), "Levels"), "Levels 3");
    assert_eq!(numbered_name(&names(&["Levels 1", "Levels 2", "Layer 2"]), "Layer"), "Layer 3");
    assert_eq!(numbered_name(&names(&["Levels x", "Levels", "Levels 7b"]), "Levels"), "Levels 1");
    assert_eq!(numbered_name(&names(&["Curves +4", "Curves 2"]), "Curves"), "Curves 5");
}

#[test]
fn strokes_are_labelled_by_tool() {
    assert_eq!(history_label(StrokeTool::Brush), "Brush Tool");
    assert_eq!(history_label(StrokeTool::Eraser), "Eraser");
    assert_eq!(history_label(StrokeTool::Clone), "Clone Stamp");
    assert_eq!(history_label(StrokeTool::Heal), "Healing Brush");
}

#[test]
fn file_names_decide_titles_and_saving() {
    assert_eq!(ext("/work/Poster.PSD"), "psd");
    assert_eq!(ext("/work/Poster"), "");
    assert_eq!(file_title("/work/Poster.psd"), "Poster.psd");
    assert_eq!(file_title("/"), "Untitled");
    assert_eq!(stem("/work/Poster.psd"), "Poster");
    assert_eq!(stem("/"), "Layer");
    assert_eq!(save_kind("/work/a.tessera-doc").unwrap(), SaveKind::Native);
    assert_eq!(save_kind("/work/a.PSD").unwrap(), SaveKind::Psd);
    assert_eq!(save_kind("/work/a.psb").unwrap(), SaveKind::Psb);
    assert_eq!(
        save_kind("/work/a.tiff").unwrap_err().message_text(),
        "documents are saved as .tessera-doc, .psd or .psb, not .tiff"
    );
    assert_eq!(
        save_kind("/work/a").unwrap_err().message_text(),
        "documents are saved as .tessera-doc, .psd or .psb, not ."
    );
}

#[test]
fn document_surfaces_take_the_coarsest_covering_level() {
    let extents = vec![(4000, 3000), (2000, 1500), (1000, 750), (500, 375)];
    let p = plan_document_surface(&extents, 900, 700);
    assert_eq!((p.level, p.width, p.height), (2, 1000, 750));
    let p = plan_document_surface(&extents, 5000, 100);
    assert_eq!((p.level, p.width, p.height), (0, 4000, 3000));
    let p = plan_document_surface(&extents, 1, 1);
    assert_eq!((p.level, p.width, p.height), (3, 500, 375));
}

#[test]
fn viewports_are_checked() {
    assert_eq!(check_viewport(6, 6, 10, 10).unwrap_err().message_text(), "level must be below 6");
    assert_eq!(check_viewport(1, 6, 0, 10).unwrap_err().message_text(), "viewport must not be empty");
    assert!(check_viewport(5, 6, 10, 10).is_ok());
}

#[test]
fn resampling_filters_run_premultiplied() {
    for e in [Effect::Gaussian, Effect::Box, Effect::Motion, Effect::RadialSpin, Effect::RadialZoom, Effect::Distort] {
        assert!(premultiplied(e));
    }
    assert!(!premultiplied(Effect::Other));
}

#[test]
fn renderer_work_is_pending_until_drained() {
    assert!(!Signal { frame: false, layers: vec![], history: false }.pending());
    assert!(Signal { frame: true, layers: vec![], history: false }.pending());
    assert!(Signal { frame: false, layers: vec![3], history: false }.pending());
    assert!(Signal { frame: false, layers: vec![], history: true }.pending());
}
