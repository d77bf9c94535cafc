use pelican::theme::{button_colors, BtnKind, ButtonColors, Swatch};

#[test]
fn button_palette() {
    assert_eq!(
        button_colors(BtnKind::Primary, true, false, false),
        ButtonColors { fill: Swatch::Accent, stroke: Swatch::Accent, text: Swatch::Bone }
    );
    assert_eq!(button_colors(BtnKind::Danger, true, true, true).fill, Swatch::AccentWash);
    assert_eq!(button_colors(BtnKind::Quiet, true, false, true).fill, Swatch::Elevated);
    let off = ButtonColors { fill: Swatch::Panel, stroke: Swatch::HairlineFaint, text: Swatch::AshDim };
    for k in [BtnKind::Primary, BtnKind::Danger, BtnKind::Quiet] {
        assert_eq!(button_colors(k, false, true, true), off);
    }
}
