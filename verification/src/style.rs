//! Visual-style values carried by display items: colors, border styles,
//! blend modes, filters, gradient stops, and cursor kinds. The style system
//! computes them; the display list only stores and forwards them, so they
//! are modelled as plain values. Color channels and filter amounts are
//! fixed-point integers: channels in 1/255 steps, amounts in 1/1000 steps.

use vstd::prelude::*;
use crate::geometry::Au;

verus! {

/// An RGBA color; each channel runs from 0 (none) to 255 (full).
#[derive(Clone, Copy, PartialEq, Eq, Structural, Debug)]
pub struct Color {
    pub r: u8,
    pub g: u8,
    pub b: u8,
    pub a: u8,
}

impl Color {
    pub fn new(r: u8, g: u8, b: u8, a: u8) -> (c: Color)
        ensures
            c == (Color { r, g, b, a }),
    {
        Color { r, g, b, a }
    }

    /// Fully transparent black.
    pub fn transparent() -> (c: Color)
        ensures
            c == (Color { r: 0, g: 0, b: 0, a: 0 }),
    {
        Color { r: 0, g: 0, b: 0, a: 0 }
    }
}

/// One stop of a linear gradient; `offset` runs from 0 to 1000 over the
/// gradient line.
#[derive(Clone, Copy, PartialEq, Eq, Structural, Debug)]
pub struct GradientStop {
    pub offset: u32,
    pub color: Color,
}

/// A CSS border-style keyword.
#[derive(Clone, Copy, PartialEq, Eq, Structural, Debug)]
pub enum BorderStyle {
    Hidden,
    NotRendered,
    Dotted,
    Dashed,
    Solid,
    Double,
    Groove,
    Ridge,
    Inset,
    Outset,
}

/// A CSS mix-blend-mode keyword.
#[derive(Clone, Copy, PartialEq, Eq, Structural, Debug)]
pub enum MixBlendMode {
    Normal,
    Multiply,
    Screen,
    Overlay,
    Darken,
    Lighten,
    ColorDodge,
    ColorBurn,
    HardLight,
    SoftLight,
    Difference,
    Exclusion,
    Hue,
    Saturation,
    Color,
    Luminosity,
}

/// One CSS filter operation. Amounts are in 1/1000 steps (1000 = 100%);
/// `HueRotate` is in 1/1000 degree; `Blur` is a radius in app units.
#[derive(Clone, Copy, PartialEq, Eq, Structural, Debug)]
pub enum Filter {
    Blur(Au),
    Brightness(u32),
    Contrast(u32),
    Grayscale(u32),
    HueRotate(i32),
    Invert(u32),
    Opacity(u32),
    Saturate(u32),
    Sepia(u32),
}

/// A CSS cursor keyword, shown when the pointer hovers the item.
#[derive(Clone, Copy, PartialEq, Eq, Structural, Debug)]
pub enum Cursor {
    DefaultCursor,
    PointerCursor,
    ContextMenuCursor,
    HelpCursor,
    ProgressCursor,
    WaitCursor,
    CellCursor,
    CrosshairCursor,
    TextCursor,
    VerticalTextCursor,
    AliasCursor,
    CopyCursor,
    MoveCursor,
    NoDropCursor,
    NotAllowedCursor,
    GrabCursor,
    GrabbingCursor,
    EResizeCursor,
    NResizeCursor,
    NeResizeCursor,
    NwResizeCursor,
    SResizeCursor,
    SeResizeCursor,
    SwResizeCursor,
    WResizeCursor,
    EwResizeCursor,
    NsResizeCursor,
    NeswResizeCursor,
    NwseResizeCursor,
    ColResizeCursor,
    RowResizeCursor,
    AllScrollCursor,
    ZoomInCursor,
    ZoomOutCursor,
    NoneCursor,
}

/// The storage format of decoded image pixels.
#[derive(Clone, Copy, PartialEq, Eq, Structural, Debug)]
pub enum PixelFormat {
    /// Luminance only, one byte per pixel.
    K8,
    /// Luminance and alpha, two bytes per pixel.
    KA8,
    /// Red, green, blue, three bytes per pixel.
    RGB8,
    /// Red, green, blue, alpha, four bytes per pixel.
    RGBA8,
}

} // verus!
