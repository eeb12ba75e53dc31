use vstd::prelude::*;

verus! {

/// A colour with straight (not premultiplied) alpha.
#[derive(Debug, Clone, Copy, PartialEq, Eq, Structural)]
pub struct Rgba {
    pub r: u8,
    pub g: u8,
    pub b: u8,
    pub a: u8,
}

/// Opaque white.
pub open spec fn white() -> Rgba {
    Rgba { r: 255, g: 255, b: 255, a: 255 }
}

/// An opaque colour.
pub open spec fn rgb(r: u8, g: u8, b: u8) -> Rgba {
    Rgba { r, g, b, a: 255 }
}

/// The colours of the six fixed layers, by identifier from 1.
pub open spec fn layer_palette() -> Seq<Rgba> {
    seq![
        rgb(72, 202, 228),
        rgb(255, 159, 67),
        rgb(78, 205, 126),
        rgb(255, 105, 180),
        rgb(255, 209, 102),
        rgb(162, 125, 255),
    ]
}

/// The colour a layer's memos are drawn in: its palette entry for the
/// identifiers 1 to 6, white for any other.
pub fn layer_color(layer_id: u64) -> (color: Rgba)
    ensures
        color == if 1 <= layer_id <= 6 {
            layer_palette()[layer_id - 1]
        } else {
            white()
        },
{
    if layer_id == 1 {
        Rgba { r: 72, g: 202, b: 228, a: 255 }
    } else if layer_id == 2 {
        Rgba { r: 255, g: 159, b: 67, a: 255 }
    } else if layer_id == 3 {
        Rgba { r: 78, g: 205, b: 126, a: 255 }
    } else if layer_id == 4 {
        Rgba { r: 255, g: 105, b: 180, a: 255 }
    } else if layer_id == 5 {
        Rgba { r: 255, g: 209, b: 102, a: 255 }
    } else if layer_id == 6 {
        Rgba { r: 162, g: 125, b: 255, a: 255 }
    } else {
        Rgba { r: 255, g: 255, b: 255, a: 255 }
    }
}

/// The outline of a memo: white when it is selected, its layer's colour
/// otherwise, with the layer's opacity as alpha.
pub fn memo_stroke_color(base_color: Rgba, selected: bool, alpha: u8) -> (color: Rgba)
    ensures
        color == (if selected {
            Rgba { a: alpha, ..white() }
        } else {
            Rgba { a: alpha, ..base_color }
        }),
{
    if selected {
        Rgba { r: 255, g: 255, b: 255, a: alpha }
    } else {
        Rgba { r: base_color.r, g: base_color.g, b: base_color.b, a: alpha }
    }
}

} // verus!
