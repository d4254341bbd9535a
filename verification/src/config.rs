use vstd::prelude::*;

verus! {

/// A color as red, green and blue intensities.
#[derive(Clone, Copy, PartialEq, Eq, Structural, Debug)]
pub struct Rgb {
    pub r: u8,
    pub g: u8,
    pub b: u8,
}

/// Width, in pixels, of the column of line numbers.
pub const LINECOUNTERWIDTH: u32 = 30;

pub open spec fn rgb(r: u8, g: u8, b: u8) -> Rgb {
    Rgb { r, g, b }
}

pub fn linecounter_bg0() -> (c: Rgb)
    ensures
        c == rgb(40, 40, 40),
{
    Rgb { r: 40, g: 40, b: 40 }
}

pub fn linecounter_bg1() -> (c: Rgb)
    ensures
        c == rgb(50, 50, 50),
{
    Rgb { r: 50, g: 50, b: 50 }
}

pub fn linecounter_fg() -> (c: Rgb)
    ensures
        c == rgb(140, 140, 140),
{
    Rgb { r: 140, g: 140, b: 140 }
}

pub fn status_bg() -> (c: Rgb)
    ensures
        c == rgb(60, 60, 60),
{
    Rgb { r: 60, g: 60, b: 60 }
}

pub fn cursor_color() -> (c: Rgb)
    ensures
        c == rgb(0, 0, 140),
{
    Rgb { r: 0, g: 0, b: 140 }
}

pub fn cursor_on_linecounter() -> (c: Rgb)
    ensures
        c == rgb(30, 30, 100),
{
    Rgb { r: 30, g: 30, b: 100 }
}

pub fn minimap_bg() -> (c: Rgb)
    ensures
        c == rgb(50, 50, 50),
{
    Rgb { r: 50, g: 50, b: 50 }
}

pub fn minimap_fg() -> (c: Rgb)
    ensures
        c == rgb(200, 200, 200),
{
    Rgb { r: 200, g: 200, b: 200 }
}

pub fn minimap_fg_viewport() -> (c: Rgb)
    ensures
        c == rgb(255, 255, 255),
{
    Rgb { r: 255, g: 255, b: 255 }
}

pub fn bg1() -> (c: Rgb)
    ensures
        c == rgb(20, 20, 20),
{
    Rgb { r: 20, g: 20, b: 20 }
}

pub fn bg0() -> (c: Rgb)
    ensures
        c == rgb(25, 25, 25),
{
    Rgb { r: 25, g: 25, b: 25 }
}

pub fn mouse_hoover() -> (c: Rgb)
    ensures
        c == rgb(30, 30, 60),
{
    Rgb { r: 30, g: 30, b: 60 }
}

pub fn fg_general() -> (c: Rgb)
    ensures
        c == rgb(255, 255, 255),
{
    Rgb { r: 255, g: 255, b: 255 }
}

pub fn grey() -> (c: Rgb)
    ensures
        c == rgb(128, 128, 128),
{
    Rgb { r: 128, g: 128, b: 128 }
}

pub fn com_manip_color() -> (c: Rgb)
    ensures
        c == rgb(200, 200, 45),
{
    Rgb { r: 200, g: 200, b: 45 }
}

pub fn com_target_color() -> (c: Rgb)
    ensures
        c == rgb(125, 125, 200),
{
    Rgb { r: 125, g: 125, b: 200 }
}

pub fn com_targetless_color() -> (c: Rgb)
    ensures
        c == rgb(125, 200, 125),
{
    Rgb { r: 125, g: 200, b: 125 }
}

pub fn com_quantifyer_color() -> (c: Rgb)
    ensures
        c == rgb(200, 125, 200),
{
    Rgb { r: 200, g: 125, b: 200 }
}

} // verus!
