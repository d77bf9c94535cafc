//! Which palette colours a button is painted with.
//!
//! The window paints flat buttons in three kinds. The colours themselves
//! (RGB values) belong to the painter; here each kind and state picks its
//! fill, stroke and text swatch.

use vstd::prelude::*;

verus! {

/// The kinds of flat button.
#[derive(Debug, Clone, Copy, PartialEq, Eq, Structural)]
pub enum BtnKind {
    /// Filled accent: the single primary action of a surface.
    Primary,
    /// Outlined accent: a destructive secondary action.
    Danger,
    /// Plain panel: a tertiary action.
    Quiet,
}

/// The swatches of the palette that buttons use.
#[derive(Debug, Clone, Copy, PartialEq, Eq, Structural)]
pub enum Swatch {
    Hull,
    Panel,
    Elevated,
    Hover,
    Hairline,
    HairlineFaint,
    Accent,
    AccentBright,
    AccentDeep,
    AccentWash,
    Bone,
    BoneDim,
    AshDim,
}

/// Fill, stroke and text swatches of a button.
#[derive(Debug, Clone, Copy, PartialEq, Eq, Structural)]
pub struct ButtonColors {
    pub fill: Swatch,
    pub stroke: Swatch,
    pub text: Swatch,
}

/// A disabled button is a plain panel whatever its kind; an enabled one is
/// coloured by its kind, pressed first, then hovered, then at rest.
pub open spec fn button_colors_of(kind: BtnKind, enabled: bool, pressed: bool, hovered: bool) -> ButtonColors {
    let c = |f: Swatch, s: Swatch, t: Swatch| ButtonColors { fill: f, stroke: s, text: t };
    if !enabled {
        c(Swatch::Panel, Swatch::HairlineFaint, Swatch::AshDim)
    } else {
        match kind {
            BtnKind::Primary => if pressed {
                c(Swatch::AccentDeep, Swatch::AccentBright, Swatch::Bone)
            } else if hovered {
                c(Swatch::Accent, Swatch::AccentBright, Swatch::Bone)
            } else {
                c(Swatch::Accent, Swatch::Accent, Swatch::Bone)
            },
            BtnKind::Danger => if pressed {
                c(Swatch::AccentWash, Swatch::Accent, Swatch::AccentBright)
            } else if hovered {
                c(Swatch::Panel, Swatch::Accent, Swatch::AccentBright)
            } else {
                c(Swatch::Hull, Swatch::Hairline, Swatch::AccentBright)
            },
            BtnKind::Quiet => if pressed {
                c(Swatch::Hover, Swatch::Hairline, Swatch::Bone)
            } else if hovered {
                c(Swatch::Elevated, Swatch::Hairline, Swatch::Bone)
            } else {
                c(Swatch::Panel, Swatch::HairlineFaint, Swatch::BoneDim)
            },
        }
    }
}

/// The swatches of a button of `kind` (see `button_colors_of`).
pub fn button_colors(kind: BtnKind, enabled: bool, pressed: bool, hovered: bool) -> (r: ButtonColors)
    ensures
        r == button_colors_of(kind, enabled, pressed, hovered),
{
    let (fill, stroke, text) = if !enabled {
        (Swatch::Panel, Swatch::HairlineFaint, Swatch::AshDim)
    } else {
        match kind {
            BtnKind::Primary => if pressed {
                (Swatch::AccentDeep, Swatch::AccentBright, Swatch::Bone)
            } else if hovered {
                (Swatch::Accent, Swatch::AccentBright, Swatch::Bone)
            } else {
                (Swatch::Accent, Swatch::Accent, Swatch::Bone)
            },
            BtnKind::Danger => if pressed {
                (Swatch::AccentWash, Swatch::Accent, Swatch::AccentBright)
            } else if hovered {
                (Swatch::Panel, Swatch::Accent, Swatch::AccentBright)
            } else {
                (Swatch::Hull, Swatch::Hairline, Swatch::AccentBright)
            },
            BtnKind::Quiet => if pressed {
                (Swatch::Hover, Swatch::Hairline, Swatch::Bone)
            } else if hovered {
                (Swatch::Elevated, Swatch::Hairline, Swatch::Bone)
            } else {
                (Swatch::Panel, Swatch::HairlineFaint, Swatch::BoneDim)
            },
        }
    };
    ButtonColors { fill, stroke, text }
}

/// A disabled button looks the same whatever its kind and pointer state.
pub proof fn lemma_disabled_buttons_alike(k1: BtnKind, k2: BtnKind, p1: bool, p2: bool, h1: bool, h2: bool)
    ensures
        button_colors_of(k1, false, p1, h1) == button_colors_of(k2, false, p2, h2),
{
}

} // verus!
