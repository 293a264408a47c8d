//! Blend modes and knockout of layers, to and from the names the host
//! uses for them.
use vstd::prelude::*;
use vstd::string::*;
use crate::ids::{BridgeError, failure, failure_owned};
use crate::document::DocGroupMode;
use crate::text::{same_text, concat_str};

verus! {

/// The blend modes a layer can have (see [`menu_position`] for the order
/// the menu lists them in).
#[derive(Clone, Copy, Debug, PartialEq, Eq, Structural)]
pub enum BlendMode {
    Color,
    ColorBurn,
    ColorDodge,
    Darken,
    DarkerColor,
    Difference,
    Dissolve,
    Divide,
    Exclusion,
    HardLight,
    HardMix,
    Hue,
    Lighten,
    LighterColor,
    LinearBurn,
    LinearDodge,
    LinearLight,
    Luminosity,
    Multiply,
    Normal,
    Overlay,
    PinLight,
    Saturation,
    Screen,
    SoftLight,
    Subtract,
    VividLight,
}

pub open spec fn blend_name_of(m: BlendMode) -> Seq<char> {
    match m {
        BlendMode::Color => "color"@,
        BlendMode::ColorBurn => "color_burn"@,
        BlendMode::ColorDodge => "color_dodge"@,
        BlendMode::Darken => "darken"@,
        BlendMode::DarkerColor => "darker_color"@,
        BlendMode::Difference => "difference"@,
        BlendMode::Dissolve => "dissolve"@,
        BlendMode::Divide => "divide"@,
        BlendMode::Exclusion => "exclusion"@,
        BlendMode::HardLight => "hard_light"@,
        BlendMode::HardMix => "hard_mix"@,
        BlendMode::Hue => "hue"@,
        BlendMode::Lighten => "lighten"@,
        BlendMode::LighterColor => "lighter_color"@,
        BlendMode::LinearBurn => "linear_burn"@,
        BlendMode::LinearDodge => "linear_dodge"@,
        BlendMode::LinearLight => "linear_light"@,
        BlendMode::Luminosity => "luminosity"@,
        BlendMode::Multiply => "multiply"@,
        BlendMode::Normal => "normal"@,
        BlendMode::Overlay => "overlay"@,
        BlendMode::PinLight => "pin_light"@,
        BlendMode::Saturation => "saturation"@,
        BlendMode::Screen => "screen"@,
        BlendMode::SoftLight => "soft_light"@,
        BlendMode::Subtract => "subtract"@,
        BlendMode::VividLight => "vivid_light"@,
    }
}

/// Where the blend menu lists a mode, from the top.
pub open spec fn menu_position(m: BlendMode) -> int {
    match m {
        BlendMode::Color => 25,
        BlendMode::ColorBurn => 4,
        BlendMode::ColorDodge => 9,
        BlendMode::Darken => 2,
        BlendMode::DarkerColor => 6,
        BlendMode::Difference => 19,
        BlendMode::Dissolve => 1,
        BlendMode::Divide => 22,
        BlendMode::Exclusion => 20,
        BlendMode::HardLight => 14,
        BlendMode::HardMix => 18,
        BlendMode::Hue => 23,
        BlendMode::Lighten => 7,
        BlendMode::LighterColor => 11,
        BlendMode::LinearBurn => 5,
        BlendMode::LinearDodge => 10,
        BlendMode::LinearLight => 16,
        BlendMode::Luminosity => 26,
        BlendMode::Multiply => 3,
        BlendMode::Normal => 0,
        BlendMode::Overlay => 12,
        BlendMode::PinLight => 17,
        BlendMode::Saturation => 24,
        BlendMode::Screen => 8,
        BlendMode::SoftLight => 13,
        BlendMode::Subtract => 21,
        BlendMode::VividLight => 15,
    }
}

/// The mode the menu lists at position `k` (the last one past the end).
pub open spec fn menu_mode(k: int) -> BlendMode {
    if k == 25 {
        BlendMode::Color
    } else if k == 4 {
        BlendMode::ColorBurn
    } else if k == 9 {
        BlendMode::ColorDodge
    } else if k == 2 {
        BlendMode::Darken
    } else if k == 6 {
        BlendMode::DarkerColor
    } else if k == 19 {
        BlendMode::Difference
    } else if k == 1 {
        BlendMode::Dissolve
    } else if k == 22 {
        BlendMode::Divide
    } else if k == 20 {
        BlendMode::Exclusion
    } else if k == 14 {
        BlendMode::HardLight
    } else if k == 18 {
        BlendMode::HardMix
    } else if k == 23 {
        BlendMode::Hue
    } else if k == 7 {
        BlendMode::Lighten
    } else if k == 11 {
        BlendMode::LighterColor
    } else if k == 5 {
        BlendMode::LinearBurn
    } else if k == 10 {
        BlendMode::LinearDodge
    } else if k == 16 {
        BlendMode::LinearLight
    } else if k == 26 {
        BlendMode::Luminosity
    } else if k == 3 {
        BlendMode::Multiply
    } else if k == 0 {
        BlendMode::Normal
    } else if k == 12 {
        BlendMode::Overlay
    } else if k == 17 {
        BlendMode::PinLight
    } else if k == 24 {
        BlendMode::Saturation
    } else if k == 8 {
        BlendMode::Screen
    } else if k == 13 {
        BlendMode::SoftLight
    } else if k == 21 {
        BlendMode::Subtract
    } else {
        BlendMode::VividLight
    }
}

fn menu_mode_exec(k: usize) -> (m: BlendMode)
    ensures
        m == menu_mode(k as int),
{
    match k {
        25 => BlendMode::Color,
        4 => BlendMode::ColorBurn,
        9 => BlendMode::ColorDodge,
        2 => BlendMode::Darken,
        6 => BlendMode::DarkerColor,
        19 => BlendMode::Difference,
        1 => BlendMode::Dissolve,
        22 => BlendMode::Divide,
        20 => BlendMode::Exclusion,
        14 => BlendMode::HardLight,
        18 => BlendMode::HardMix,
        23 => BlendMode::Hue,
        7 => BlendMode::Lighten,
        11 => BlendMode::LighterColor,
        5 => BlendMode::LinearBurn,
        10 => BlendMode::LinearDodge,
        16 => BlendMode::LinearLight,
        26 => BlendMode::Luminosity,
        3 => BlendMode::Multiply,
        0 => BlendMode::Normal,
        12 => BlendMode::Overlay,
        17 => BlendMode::PinLight,
        24 => BlendMode::Saturation,
        8 => BlendMode::Screen,
        13 => BlendMode::SoftLight,
        21 => BlendMode::Subtract,
        _ => BlendMode::VividLight,
    }
}

/// The mode a name stands for, if any.
pub open spec fn blend_of_name(name: Seq<char>) -> Option<BlendMode> {
    if name == "color"@ {
        Some(BlendMode::Color)
    } else if name == "color_burn"@ {
        Some(BlendMode::ColorBurn)
    } else if name == "color_dodge"@ {
        Some(BlendMode::ColorDodge)
    } else if name == "darken"@ {
        Some(BlendMode::Darken)
    } else if name == "darker_color"@ {
        Some(BlendMode::DarkerColor)
    } else if name == "difference"@ {
        Some(BlendMode::Difference)
    } else if name == "dissolve"@ {
        Some(BlendMode::Dissolve)
    } else if name == "divide"@ {
        Some(BlendMode::Divide)
    } else if name == "exclusion"@ {
        Some(BlendMode::Exclusion)
    } else if name == "hard_light"@ {
        Some(BlendMode::HardLight)
    } else if name == "hard_mix"@ {
        Some(BlendMode::HardMix)
    } else if name == "hue"@ {
        Some(BlendMode::Hue)
    } else if name == "lighten"@ {
        Some(BlendMode::Lighten)
    } else if name == "lighter_color"@ {
        Some(BlendMode::LighterColor)
    } else if name == "linear_burn"@ {
        Some(BlendMode::LinearBurn)
    } else if name == "linear_dodge"@ {
        Some(BlendMode::LinearDodge)
    } else if name == "linear_light"@ {
        Some(BlendMode::LinearLight)
    } else if name == "luminosity"@ {
        Some(BlendMode::Luminosity)
    } else if name == "multiply"@ {
        Some(BlendMode::Multiply)
    } else if name == "normal"@ {
        Some(BlendMode::Normal)
    } else if name == "overlay"@ {
        Some(BlendMode::Overlay)
    } else if name == "pin_light"@ {
        Some(BlendMode::PinLight)
    } else if name == "saturation"@ {
        Some(BlendMode::Saturation)
    } else if name == "screen"@ {
        Some(BlendMode::Screen)
    } else if name == "soft_light"@ {
        Some(BlendMode::SoftLight)
    } else if name == "subtract"@ {
        Some(BlendMode::Subtract)
    } else if name == "vivid_light"@ {
        Some(BlendMode::VividLight)
    } else {
        None
    }
}

/// The name a host sees for a blend mode.
pub fn blend_name(m: BlendMode) -> (r: &'static str)
    ensures
        r@ == blend_name_of(m),
{
    match m {
        BlendMode::Color => "color",
        BlendMode::ColorBurn => "color_burn",
        BlendMode::ColorDodge => "color_dodge",
        BlendMode::Darken => "darken",
        BlendMode::DarkerColor => "darker_color",
        BlendMode::Difference => "difference",
        BlendMode::Dissolve => "dissolve",
        BlendMode::Divide => "divide",
        BlendMode::Exclusion => "exclusion",
        BlendMode::HardLight => "hard_light",
        BlendMode::HardMix => "hard_mix",
        BlendMode::Hue => "hue",
        BlendMode::Lighten => "lighten",
        BlendMode::LighterColor => "lighter_color",
        BlendMode::LinearBurn => "linear_burn",
        BlendMode::LinearDodge => "linear_dodge",
        BlendMode::LinearLight => "linear_light",
        BlendMode::Luminosity => "luminosity",
        BlendMode::Multiply => "multiply",
        BlendMode::Normal => "normal",
        BlendMode::Overlay => "overlay",
        BlendMode::PinLight => "pin_light",
        BlendMode::Saturation => "saturation",
        BlendMode::Screen => "screen",
        BlendMode::SoftLight => "soft_light",
        BlendMode::Subtract => "subtract",
        BlendMode::VividLight => "vivid_light",
    }
}

/// Names of all blend modes, menu order first to last (a group can also be
/// `pass_through`, which is not a mode).
pub fn blend_mode_names() -> (r: Vec<String>)
    ensures
        r@.len() == 27,
        forall|k: int| 0 <= k < 27 ==> #[trigger] r@[k]@ == blend_name_of(menu_mode(k)),
{
    let mut r: Vec<String> = Vec::new();
    let mut i: usize = 0;
    while i < 27
        invariant
            i <= 27,
            r@.len() == i,
            forall|k: int| 0 <= k < i ==> #[trigger] r@[k]@ == blend_name_of(menu_mode(k)),
        decreases 27 - i,
    {
        r.push(String::from_str(blend_name(menu_mode_exec(i))));
        i = i + 1;
    }
    r
}

/// The menu lists every mode once: positions and modes correspond.
pub proof fn the_menu_lists_every_mode_once(m: BlendMode)
    ensures
        0 <= menu_position(m) < 27,
        menu_mode(menu_position(m)) == m,
{
}

/// What `{:?}` writes for a text: quoted, with quotes, backslashes and
/// non-printing characters escaped.
pub uninterp spec fn debug_quoted(s: Seq<char>) -> Seq<char>;

/// `format!("{:?}")` on a `&str`.
#[verifier::external_body]
fn debug_text(s: &str) -> (r: String)
    ensures
        r@ == debug_quoted(s@),
{
    format!("{s:?}")
}

/// The blend mode named `name`.
pub fn parse_blend(name: &str) -> (r: Result<BlendMode, BridgeError>)
    ensures
        match blend_of_name(name@) {
            Some(m) => r == Ok::<BlendMode, BridgeError>(m),
            None => r matches Err(e) && e.message() == "unknown blend mode "@ + debug_quoted(name@),
        },
{
    if same_text(name, "color") {
        Ok(BlendMode::Color)
    } else if same_text(name, "color_burn") {
        Ok(BlendMode::ColorBurn)
    } else if same_text(name, "color_dodge") {
        Ok(BlendMode::ColorDodge)
    } else if same_text(name, "darken") {
        Ok(BlendMode::Darken)
    } else if same_text(name, "darker_color") {
        Ok(BlendMode::DarkerColor)
    } else if same_text(name, "difference") {
        Ok(BlendMode::Difference)
    } else if same_text(name, "dissolve") {
        Ok(BlendMode::Dissolve)
    } else if same_text(name, "divide") {
        Ok(BlendMode::Divide)
    } else if same_text(name, "exclusion") {
        Ok(BlendMode::Exclusion)
    } else if same_text(name, "hard_light") {
        Ok(BlendMode::HardLight)
    } else if same_text(name, "hard_mix") {
        Ok(BlendMode::HardMix)
    } else if same_text(name, "hue") {
        Ok(BlendMode::Hue)
    } else if same_text(name, "lighten") {
        Ok(BlendMode::Lighten)
    } else if same_text(name, "lighter_color") {
        Ok(BlendMode::LighterColor)
    } else if same_text(name, "linear_burn") {
        Ok(BlendMode::LinearBurn)
    } else if same_text(name, "linear_dodge") {
        Ok(BlendMode::LinearDodge)
    } else if same_text(name, "linear_light") {
        Ok(BlendMode::LinearLight)
    } else if same_text(name, "luminosity") {
        Ok(BlendMode::Luminosity)
    } else if same_text(name, "multiply") {
        Ok(BlendMode::Multiply)
    } else if same_text(name, "normal") {
        Ok(BlendMode::Normal)
    } else if same_text(name, "overlay") {
        Ok(BlendMode::Overlay)
    } else if same_text(name, "pin_light") {
        Ok(BlendMode::PinLight)
    } else if same_text(name, "saturation") {
        Ok(BlendMode::Saturation)
    } else if same_text(name, "screen") {
        Ok(BlendMode::Screen)
    } else if same_text(name, "soft_light") {
        Ok(BlendMode::SoftLight)
    } else if same_text(name, "subtract") {
        Ok(BlendMode::Subtract)
    } else if same_text(name, "vivid_light") {
        Ok(BlendMode::VividLight)
    } else {
        let head = String::from_str("unknown blend mode ");
        Err(failure_owned(concat_str(&head, debug_text(name).as_str())))
    }
}

/// Length, first and last character: enough to tell the mode names apart.
spec fn name_key(s: Seq<char>) -> (int, char, char) {
    (s.len() as int, s[0], s[s.len() - 1])
}

/// Every blend mode reads back from its name: the names tell the modes
/// apart.
pub proof fn blend_names_round_trip(m: BlendMode)
    ensures
        blend_of_name(blend_name_of(m)) == Some(m),
{
    reveal_strlit("color");
    assert(name_key("color"@) == (5int, 'c', 'r'));
    reveal_strlit("color_burn");
    assert(name_key("color_burn"@) == (10int, 'c', 'n'));
    reveal_strlit("color_dodge");
    assert(name_key("color_dodge"@) == (11int, 'c', 'e'));
    reveal_strlit("darken");
    assert(name_key("darken"@) == (6int, 'd', 'n'));
    reveal_strlit("darker_color");
    assert(name_key("darker_color"@) == (12int, 'd', 'r'));
    reveal_strlit("difference");
    assert(name_key("difference"@) == (10int, 'd', 'e'));
    reveal_strlit("dissolve");
    assert(name_key("dissolve"@) == (8int, 'd', 'e'));
    reveal_strlit("divide");
    assert(name_key("divide"@) == (6int, 'd', 'e'));
    reveal_strlit("exclusion");
    assert(name_key("exclusion"@) == (9int, 'e', 'n'));
    reveal_strlit("hard_light");
    assert(name_key("hard_light"@) == (10int, 'h', 't'));
    reveal_strlit("hard_mix");
    assert(name_key("hard_mix"@) == (8int, 'h', 'x'));
    reveal_strlit("hue");
    assert(name_key("hue"@) == (3int, 'h', 'e'));
    reveal_strlit("lighten");
    assert(name_key("lighten"@) == (7int, 'l', 'n'));
    reveal_strlit("lighter_color");
    assert(name_key("lighter_color"@) == (13int, 'l', 'r'));
    reveal_strlit("linear_burn");
    assert(name_key("linear_burn"@) == (11int, 'l', 'n'));
    reveal_strlit("linear_dodge");
    assert(name_key("linear_dodge"@) == (12int, 'l', 'e'));
    reveal_strlit("linear_light");
    assert(name_key("linear_light"@) == (12int, 'l', 't'));
    reveal_strlit("luminosity");
    assert(name_key("luminosity"@) == (10int, 'l', 'y'));
    reveal_strlit("multiply");
    assert(name_key("multiply"@) == (8int, 'm', 'y'));
    reveal_strlit("normal");
    assert(name_key("normal"@) == (6int, 'n', 'l'));
    reveal_strlit("overlay");
    assert(name_key("overlay"@) == (7int, 'o', 'y'));
    reveal_strlit("pin_light");
    assert(name_key("pin_light"@) == (9int, 'p', 't'));
    reveal_strlit("saturation");
    assert(name_key("saturation"@) == (10int, 's', 'n'));
    reveal_strlit("screen");
    assert(name_key("screen"@) == (6int, 's', 'n'));
    reveal_strlit("soft_light");
    assert(name_key("soft_light"@) == (10int, 's', 't'));
    reveal_strlit("subtract");
    assert(name_key("subtract"@) == (8int, 's', 't'));
    reveal_strlit("vivid_light");
    assert(name_key("vivid_light"@) == (11int, 'v', 't'));
}

/// Knockout of a layer.
#[derive(Clone, Copy, Debug, PartialEq, Eq, Structural)]
pub enum Knockout {
    NoKnockout,
    Shallow,
    Deep,
}

pub open spec fn knockout_name_of(k: Knockout) -> Seq<char> {
    match k {
        Knockout::NoKnockout => "none"@,
        Knockout::Shallow => "shallow"@,
        Knockout::Deep => "deep"@,
    }
}

pub fn knockout_name(k: Knockout) -> (r: &'static str)
    ensures
        r@ == knockout_name_of(k),
{
    match k {
        Knockout::NoKnockout => "none",
        Knockout::Shallow => "shallow",
        Knockout::Deep => "deep",
    }
}

/// The knockout a name stands for: `none` (or empty), `shallow`, `deep`.
pub open spec fn knockout_of_name(name: Seq<char>) -> Option<Knockout> {
    if name == "none"@ || name.len() == 0 {
        Some(Knockout::NoKnockout)
    } else if name == "shallow"@ {
        Some(Knockout::Shallow)
    } else if name == "deep"@ {
        Some(Knockout::Deep)
    } else {
        None
    }
}

/// Reads a knockout name; an empty name means none.
pub fn parse_knockout(name: &str) -> (r: Result<Knockout, BridgeError>)
    ensures
        match knockout_of_name(name@) {
            Some(k) => r == Ok::<Knockout, BridgeError>(k),
            None => r matches Err(e) && e.message() == "unknown knockout "@ + debug_quoted(name@),
        },
{
    proof {
        reveal_strlit("none");
        reveal_strlit("shallow");
        reveal_strlit("deep");
        assert("shallow"@.len() != "none"@.len());
        assert("deep"@[0] != "none"@[0]);
    }
    let empty = name.unicode_len() == 0;
    if same_text(name, "deep") {
        return Ok(Knockout::Deep);
    }
    if same_text(name, "shallow") {
        return Ok(Knockout::Shallow);
    }
    if empty || same_text(name, "none") {
        return Ok(Knockout::NoKnockout);
    }
    let head = String::from_str("unknown knockout ");
    Err(failure_owned(concat_str(&head, debug_text(name).as_str())))
}

/// Every knockout reads back from its name.
pub proof fn knockout_names_round_trip(k: Knockout)
    ensures
        knockout_of_name(knockout_name_of(k)) == Some(k),
{
    reveal_strlit("none");
    reveal_strlit("shallow");
    reveal_strlit("deep");
    assert("shallow"@.len() != "none"@.len());
    assert("deep"@[0] != "none"@[0]);
    assert("shallow"@.len() != 0 && "deep"@.len() != 0);
}

/// What a layer ends up with when the host names a blend mode: the mode it
/// stores and, for groups, the group mode. Naming `pass_through` is only
/// meaningful for a group: the group turns pass-through and its stored mode
/// stays. Naming an ordinary mode stores it, and a group becomes isolated.
pub fn resolve_blend(group: Option<DocGroupMode>, name: &str, current: BlendMode) -> (r: Result<(BlendMode, Option<DocGroupMode>), BridgeError>)
    ensures
        name@ == "pass_through"@ ==> match group {
            Some(_) => r == Ok::<(BlendMode, Option<DocGroupMode>), BridgeError>((current, Some(DocGroupMode::PassThrough))),
            None => r matches Err(e) && e.message() == "pass_through applies to groups only"@,
        },
        name@ != "pass_through"@ ==> match blend_of_name(name@) {
            Some(m) => r == Ok::<(BlendMode, Option<DocGroupMode>), BridgeError>((
                m,
                match group {
                    Some(_) => Some(DocGroupMode::Isolated),
                    None => None,
                },
            )),
            None => r matches Err(e) && e.message() == "unknown blend mode "@ + debug_quoted(name@),
        },
{
    let is_group = group.is_some();
    if !same_text(name, "pass_through") {
        let stored = parse_blend(name)?;
        let mode = if is_group { Some(DocGroupMode::Isolated) } else { None };
        Ok((stored, mode))
    } else if is_group {
        Ok((current, Some(DocGroupMode::PassThrough)))
    } else {
        Err(failure("pass_through applies to groups only"))
    }
}

} // verus!
