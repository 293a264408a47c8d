use tessera_bridge::blend::{
    blend_mode_names, blend_name, knockout_name, parse_blend, parse_knockout, resolve_blend, BlendMode, Knockout,
};
use tessera_bridge::document::DocGroupMode;

#[test]
fn blend_modes_are_named_in_menu_order() {
    let names = blend_mode_names();
    assert_eq!(names.len(), 27);
    assert_eq!(names[0], "normal");
    assert_eq!(names[3], "multiply");
    assert_eq!(names[26], "luminosity");
    for n in &names {
        assert_eq!(blend_name(parse_blend(n).unwrap()), n.as_str());
    }
    assert_eq!(blend_name(BlendMode::ColorDodge), "color_dodge");
}

#[test]
fn unknown_blend_modes_are_refused() {
    assert_eq!(parse_blend("glow").unwrap_err().message_text(), "unknown blend mode \"glow\"");
    assert_eq!(parse_blend("Normal").unwrap_err().message_text(), "unknown blend mode \"Normal\"");
}

#[test]
fn knockout_reads_its_names() {
    assert_eq!(parse_knockout("").unwrap(), Knockout::NoKnockout);
    assert_eq!(parse_knockout("none").unwrap(), Knockout::NoKnockout);
    assert_eq!(parse_knockout("deep").unwrap(), Knockout::Deep);
    assert_eq!(knockout_name(Knockout::Shallow), "shallow");
    assert_eq!(parse_knockout("full").unwrap_err().message_text(), "unknown knockout \"full\"");
}

#[test]
fn pass_through_is_for_groups() {
    assert_eq!(
        resolve_blend(Some(DocGroupMode::Isolated), "pass_through", BlendMode::Screen).unwrap(),
        (BlendMode::Screen, Some(DocGroupMode::PassThrough))
    );
    assert_eq!(
        resolve_blend(None, "pass_through", BlendMode::Screen).unwrap_err().message_text(),
        "pass_through applies to groups only"
    );
    assert_eq!(
        resolve_blend(Some(DocGroupMode::PassThrough), "overlay", BlendMode::Normal).unwrap(),
        (BlendMode::Overlay, Some(DocGroupMode::Isolated))
    );
    assert_eq!(resolve_blend(None, "overlay", BlendMode::Normal).unwrap(), (BlendMode::Overlay, None));
}
