//! Color themes: the built-in presets, recognising them by value, and the
//! hexadecimal text a skin file writes colors in.

use eframe::egui::Color32;
use vstd::prelude::*;

use crate::text::{push_char, push_str};

verus! {

/// An RGBA color in the form the UI toolkit stores it (premultiplied alpha,
/// one byte per channel).
#[derive(Debug, Clone, Copy, PartialEq, Eq, Structural)]
pub struct Color {
    pub r: u8,
    pub g: u8,
    pub b: u8,
    pub a: u8,
}

impl Color {
    /// Opaque color from red, green and blue.
    pub fn from_rgb(r: u8, g: u8, b: u8) -> (c: Color)
        ensures
            c == (Color { r, g, b, a: 255 }),
    {
        Color { r, g, b, a: 255 }
    }

    pub fn white() -> (c: Color)
        ensures
            c == (Color { r: 255, g: 255, b: 255, a: 255 }),
    {
        Color { r: 255, g: 255, b: 255, a: 255 }
    }

    pub fn red() -> (c: Color)
        ensures
            c == (Color { r: 255, g: 0, b: 0, a: 255 }),
    {
        Color { r: 255, g: 0, b: 0, a: 255 }
    }

    pub fn light_gray() -> (c: Color)
        ensures
            c == (Color { r: 220, g: 220, b: 220, a: 255 }),
    {
        Color { r: 220, g: 220, b: 220, a: 255 }
    }

    pub fn dark_gray() -> (c: Color)
        ensures
            c == (Color { r: 96, g: 96, b: 96, a: 255 }),
    {
        Color { r: 96, g: 96, b: 96, a: 255 }
    }
}

/// Palette for the spectrum analyzer: the colors it paints itself rather
/// than pulling from the toolkit's visuals.
#[derive(Debug, Clone, Copy, PartialEq, Eq, Structural)]
pub struct SpectrumColors {
    pub background: Color,
    /// Unlit segments — the faint grid behind the bars.
    pub unlit: Color,
    /// Lit segments below ~62% height.
    pub low: Color,
    /// Lit segments between ~62% and ~85% height.
    pub mid: Color,
    /// Lit segments above ~85% height.
    pub high: Color,
    /// The slowly-falling peak-hold cell.
    pub peak: Color,
}

/// Everything the skin covers. `None` fields leave the corresponding toolkit
/// visuals untouched, so a skin can override just the custom-painted parts
/// and inherit the base widget theme.
#[derive(Debug, Clone, Copy, PartialEq, Eq, Structural)]
pub struct Skin {
    /// Base widget theme: dark or light visuals.
    pub dark: bool,
    /// Title, marquee, active sort column, current track, play button.
    pub accent: Color,
    /// Time labels beside the seek bar.
    pub text_dim: Color,
    /// Audio error message.
    pub error: Color,
    /// Window/panel background.
    pub background: Option<Color>,
    /// Selected-row fill in the playlist.
    pub selection: Option<Color>,
    /// Default text color.
    pub text: Option<Color>,
    pub spectrum: SpectrumColors,
}

/// The default spectrum palette.
pub open spec fn default_spectrum() -> SpectrumColors {
    SpectrumColors {
        background: Color { r: 8, g: 12, b: 8, a: 255 },
        unlit: Color { r: 18, g: 30, b: 20, a: 255 },
        low: Color { r: 0, g: 210, b: 90, a: 255 },
        mid: Color { r: 240, g: 200, b: 40, a: 255 },
        high: Color { r: 255, g: 60, b: 40, a: 255 },
        peak: Color { r: 255, g: 240, b: 200, a: 255 },
    }
}

impl Default for SpectrumColors {
    fn default() -> (c: Self)
        ensures
            c == default_spectrum(),
    {
        SpectrumColors {
            background: Color { r: 8, g: 12, b: 8, a: 255 },
            unlit: Color { r: 18, g: 30, b: 20, a: 255 },
            low: Color { r: 0, g: 210, b: 90, a: 255 },
            mid: Color { r: 240, g: 200, b: 40, a: 255 },
            high: Color { r: 255, g: 60, b: 40, a: 255 },
            peak: Color { r: 255, g: 240, b: 200, a: 255 },
        }
    }
}

/// The `winamp` preset.
pub open spec fn winamp_skin() -> Skin {
    Skin {
        dark: true,
        accent: Color { r: 0, g: 255, b: 128, a: 255 },
        text_dim: Color { r: 220, g: 220, b: 220, a: 255 },
        error: Color { r: 255, g: 0, b: 0, a: 255 },
        background: None,
        selection: None,
        text: None,
        spectrum: SpectrumColors {
            background: Color { r: 8, g: 12, b: 8, a: 255 },
            unlit: Color { r: 18, g: 30, b: 20, a: 255 },
            low: Color { r: 0, g: 210, b: 90, a: 255 },
            mid: Color { r: 240, g: 200, b: 40, a: 255 },
            high: Color { r: 255, g: 60, b: 40, a: 255 },
            peak: Color { r: 255, g: 240, b: 200, a: 255 },
        },
    }
}

/// The `amber` preset.
pub open spec fn amber_skin() -> Skin {
    Skin {
        dark: true,
        accent: Color { r: 255, g: 176, b: 0, a: 255 },
        text_dim: Color { r: 200, g: 170, b: 120, a: 255 },
        error: Color { r: 255, g: 0, b: 0, a: 255 },
        background: None,
        selection: None,
        text: None,
        spectrum: SpectrumColors {
            background: Color { r: 12, g: 10, b: 6, a: 255 },
            unlit: Color { r: 36, g: 26, b: 12, a: 255 },
            low: Color { r: 220, g: 150, b: 0, a: 255 },
            mid: Color { r: 255, g: 110, b: 30, a: 255 },
            high: Color { r: 255, g: 60, b: 40, a: 255 },
            peak: Color { r: 255, g: 230, b: 170, a: 255 },
        },
    }
}

/// The `ice` preset.
pub open spec fn ice_skin() -> Skin {
    Skin {
        dark: true,
        accent: Color { r: 90, g: 200, b: 255, a: 255 },
        text_dim: Color { r: 220, g: 220, b: 220, a: 255 },
        error: Color { r: 255, g: 0, b: 0, a: 255 },
        background: Some(Color { r: 10, g: 16, b: 24, a: 255 }),
        selection: Some(Color { r: 20, g: 60, b: 100, a: 255 }),
        text: None,
        spectrum: SpectrumColors {
            background: Color { r: 6, g: 10, b: 16, a: 255 },
            unlit: Color { r: 16, g: 26, b: 38, a: 255 },
            low: Color { r: 40, g: 110, b: 255, a: 255 },
            mid: Color { r: 70, g: 200, b: 255, a: 255 },
            high: Color { r: 240, g: 250, b: 255, a: 255 },
            peak: Color { r: 255, g: 255, b: 255, a: 255 },
        },
    }
}

/// The `vaporwave` preset.
pub open spec fn vaporwave_skin() -> Skin {
    Skin {
        dark: true,
        accent: Color { r: 1, g: 205, b: 254, a: 255 },
        text_dim: Color { r: 190, g: 170, b: 210, a: 255 },
        error: Color { r: 255, g: 0, b: 0, a: 255 },
        background: Some(Color { r: 16, g: 11, b: 26, a: 255 }),
        selection: Some(Color { r: 80, g: 40, b: 110, a: 255 }),
        text: None,
        spectrum: SpectrumColors {
            background: Color { r: 13, g: 8, b: 22, a: 255 },
            unlit: Color { r: 34, g: 22, b: 50, a: 255 },
            low: Color { r: 185, g: 103, b: 255, a: 255 },
            mid: Color { r: 255, g: 113, b: 206, a: 255 },
            high: Color { r: 255, g: 251, b: 150, a: 255 },
            peak: Color { r: 255, g: 255, b: 255, a: 255 },
        },
    }
}

/// The `sunset` preset.
pub open spec fn sunset_skin() -> Skin {
    Skin {
        dark: true,
        accent: Color { r: 244, g: 162, b: 97, a: 255 },
        text_dim: Color { r: 170, g: 190, b: 185, a: 255 },
        error: Color { r: 255, g: 0, b: 0, a: 255 },
        background: Some(Color { r: 22, g: 34, b: 37, a: 255 }),
        selection: Some(Color { r: 42, g: 90, b: 95, a: 255 }),
        text: None,
        spectrum: SpectrumColors {
            background: Color { r: 16, g: 26, b: 27, a: 255 },
            unlit: Color { r: 30, g: 48, b: 48, a: 255 },
            low: Color { r: 42, g: 157, b: 143, a: 255 },
            mid: Color { r: 233, g: 196, b: 106, a: 255 },
            high: Color { r: 231, g: 111, b: 81, a: 255 },
            peak: Color { r: 244, g: 162, b: 97, a: 255 },
        },
    }
}

/// The `rose` preset.
pub open spec fn rose_skin() -> Skin {
    Skin {
        dark: true,
        accent: Color { r: 255, g: 180, b: 162, a: 255 },
        text_dim: Color { r: 185, g: 165, b: 175, a: 255 },
        error: Color { r: 255, g: 0, b: 0, a: 255 },
        background: Some(Color { r: 28, g: 22, b: 28, a: 255 }),
        selection: Some(Color { r: 90, g: 60, b: 75, a: 255 }),
        text: None,
        spectrum: SpectrumColors {
            background: Color { r: 24, g: 18, b: 24, a: 255 },
            unlit: Color { r: 50, g: 38, b: 48, a: 255 },
            low: Color { r: 181, g: 131, b: 141, a: 255 },
            mid: Color { r: 229, g: 152, b: 155, a: 255 },
            high: Color { r: 255, g: 205, b: 178, a: 255 },
            peak: Color { r: 255, g: 205, b: 178, a: 255 },
        },
    }
}

/// The `candy` preset.
pub open spec fn candy_skin() -> Skin {
    Skin {
        dark: true,
        accent: Color { r: 255, g: 175, b: 204, a: 255 },
        text_dim: Color { r: 180, g: 170, b: 195, a: 255 },
        error: Color { r: 255, g: 0, b: 0, a: 255 },
        background: Some(Color { r: 20, g: 16, b: 28, a: 255 }),
        selection: Some(Color { r: 70, g: 50, b: 90, a: 255 }),
        text: None,
        spectrum: SpectrumColors {
            background: Color { r: 16, g: 12, b: 24, a: 255 },
            unlit: Color { r: 38, g: 30, b: 50, a: 255 },
            low: Color { r: 162, g: 210, b: 255, a: 255 },
            mid: Color { r: 205, g: 180, b: 219, a: 255 },
            high: Color { r: 255, g: 175, b: 204, a: 255 },
            peak: Color { r: 255, g: 255, b: 255, a: 255 },
        },
    }
}

/// The `forest` preset.
pub open spec fn forest_skin() -> Skin {
    Skin {
        dark: true,
        accent: Color { r: 221, g: 161, b: 94, a: 255 },
        text_dim: Color { r: 175, g: 180, b: 150, a: 255 },
        error: Color { r: 255, g: 0, b: 0, a: 255 },
        background: Some(Color { r: 18, g: 22, b: 12, a: 255 }),
        selection: Some(Color { r: 70, g: 85, b: 45, a: 255 }),
        text: None,
        spectrum: SpectrumColors {
            background: Color { r: 14, g: 17, b: 9, a: 255 },
            unlit: Color { r: 32, g: 40, b: 20, a: 255 },
            low: Color { r: 96, g: 108, b: 56, a: 255 },
            mid: Color { r: 221, g: 161, b: 94, a: 255 },
            high: Color { r: 254, g: 250, b: 224, a: 255 },
            peak: Color { r: 254, g: 250, b: 224, a: 255 },
        },
    }
}

/// The `paper` preset.
pub open spec fn paper_skin() -> Skin {
    Skin {
        dark: false,
        accent: Color { r: 0, g: 120, b: 70, a: 255 },
        text_dim: Color { r: 96, g: 96, b: 96, a: 255 },
        error: Color { r: 255, g: 0, b: 0, a: 255 },
        background: None,
        selection: None,
        text: None,
        spectrum: SpectrumColors {
            background: Color { r: 235, g: 232, b: 224, a: 255 },
            unlit: Color { r: 210, g: 206, b: 196, a: 255 },
            low: Color { r: 20, g: 140, b: 80, a: 255 },
            mid: Color { r: 200, g: 130, b: 0, a: 255 },
            high: Color { r: 210, g: 50, b: 30, a: 255 },
            peak: Color { r: 0, g: 120, b: 70, a: 255 },
        },
    }
}

/// The built-in skins in picker order, with their names.
pub open spec fn preset_list() -> Seq<(Seq<char>, Skin)> {
    seq![
        ("winamp"@, winamp_skin()),
        ("amber"@, amber_skin()),
        ("ice"@, ice_skin()),
        ("vaporwave"@, vaporwave_skin()),
        ("sunset"@, sunset_skin()),
        ("rose"@, rose_skin()),
        ("candy"@, candy_skin()),
        ("forest"@, forest_skin()),
        ("paper"@, paper_skin()),
    ]
}

/// Name of the first preset in `list` equal to `skin`.
pub open spec fn find_preset(list: Seq<(Seq<char>, Skin)>, skin: Skin) -> Option<Seq<char>>
    decreases list.len(),
{
    if list.len() == 0 {
        None
    } else if list[0].1 == skin {
        Some(list[0].0)
    } else {
        find_preset(list.drop_first(), skin)
    }
}

impl Default for Skin {
    fn default() -> (s: Self)
        ensures
            s == winamp_skin(),
    {
        Self::winamp()
    }
}

impl Skin {
    /// The classic look: green-on-black, like Winamp.
    pub fn winamp() -> (s: Self)
        ensures
            s == winamp_skin(),
    {
        Skin {
            dark: true,
            accent: Color { r: 0, g: 255, b: 128, a: 255 },
            text_dim: Color { r: 220, g: 220, b: 220, a: 255 },
            error: Color { r: 255, g: 0, b: 0, a: 255 },
            background: None,
            selection: None,
            text: None,
            spectrum: SpectrumColors {
                background: Color { r: 8, g: 12, b: 8, a: 255 },
                unlit: Color { r: 18, g: 30, b: 20, a: 255 },
                low: Color { r: 0, g: 210, b: 90, a: 255 },
                mid: Color { r: 240, g: 200, b: 40, a: 255 },
                high: Color { r: 255, g: 60, b: 40, a: 255 },
                peak: Color { r: 255, g: 240, b: 200, a: 255 },
            },
        }
    }

    /// Amber terminal: warm monochrome with an orange-red top end.
    pub fn amber() -> (s: Self)
        ensures
            s == amber_skin(),
    {
        Skin {
            dark: true,
            accent: Color { r: 255, g: 176, b: 0, a: 255 },
            text_dim: Color { r: 200, g: 170, b: 120, a: 255 },
            error: Color { r: 255, g: 0, b: 0, a: 255 },
            background: None,
            selection: None,
            text: None,
            spectrum: SpectrumColors {
                background: Color { r: 12, g: 10, b: 6, a: 255 },
                unlit: Color { r: 36, g: 26, b: 12, a: 255 },
                low: Color { r: 220, g: 150, b: 0, a: 255 },
                mid: Color { r: 255, g: 110, b: 30, a: 255 },
                high: Color { r: 255, g: 60, b: 40, a: 255 },
                peak: Color { r: 255, g: 230, b: 170, a: 255 },
            },
        }
    }

    /// Cold blue: cyan-on-navy, bars fading to white.
    pub fn ice() -> (s: Self)
        ensures
            s == ice_skin(),
    {
        Skin {
            dark: true,
            accent: Color { r: 90, g: 200, b: 255, a: 255 },
            text_dim: Color { r: 220, g: 220, b: 220, a: 255 },
            error: Color { r: 255, g: 0, b: 0, a: 255 },
            background: Some(Color { r: 10, g: 16, b: 24, a: 255 }),
            selection: Some(Color { r: 20, g: 60, b: 100, a: 255 }),
            text: None,
            spectrum: SpectrumColors {
                background: Color { r: 6, g: 10, b: 16, a: 255 },
                unlit: Color { r: 16, g: 26, b: 38, a: 255 },
                low: Color { r: 40, g: 110, b: 255, a: 255 },
                mid: Color { r: 70, g: 200, b: 255, a: 255 },
                high: Color { r: 240, g: 250, b: 255, a: 255 },
                peak: Color { r: 255, g: 255, b: 255, a: 255 },
            },
        }
    }

    /// Vaporwave Dream (ff71ce / 01cdfe / 05ffa1 / b967ff / fffb96):
    /// cyan accent on deep purple, bars running violet → pink → cream.
    pub fn vaporwave() -> (s: Self)
        ensures
            s == vaporwave_skin(),
    {
        Skin {
            dark: true,
            accent: Color { r: 1, g: 205, b: 254, a: 255 },
            text_dim: Color { r: 190, g: 170, b: 210, a: 255 },
            error: Color { r: 255, g: 0, b: 0, a: 255 },
            background: Some(Color { r: 16, g: 11, b: 26, a: 255 }),
            selection: Some(Color { r: 80, g: 40, b: 110, a: 255 }),
            text: None,
            spectrum: SpectrumColors {
                background: Color { r: 13, g: 8, b: 22, a: 255 },
                unlit: Color { r: 34, g: 22, b: 50, a: 255 },
                low: Color { r: 185, g: 103, b: 255, a: 255 },
                mid: Color { r: 255, g: 113, b: 206, a: 255 },
                high: Color { r: 255, g: 251, b: 150, a: 255 },
                peak: Color { r: 255, g: 255, b: 255, a: 255 },
            },
        }
    }

    /// Sunset (264653 / 2a9d8f / e9c46a / f4a261 / e76f51):
    /// orange accent on dark teal, bars running teal → sand → coral.
    pub fn sunset() -> (s: Self)
        ensures
            s == sunset_skin(),
    {
        Skin {
            dark: true,
            accent: Color { r: 244, g: 162, b: 97, a: 255 },
            text_dim: Color { r: 170, g: 190, b: 185, a: 255 },
            error: Color { r: 255, g: 0, b: 0, a: 255 },
            background: Some(Color { r: 22, g: 34, b: 37, a: 255 }),
            selection: Some(Color { r: 42, g: 90, b: 95, a: 255 }),
            text: None,
            spectrum: SpectrumColors {
                background: Color { r: 16, g: 26, b: 27, a: 255 },
                unlit: Color { r: 30, g: 48, b: 48, a: 255 },
                low: Color { r: 42, g: 157, b: 143, a: 255 },
                mid: Color { r: 233, g: 196, b: 106, a: 255 },
                high: Color { r: 231, g: 111, b: 81, a: 255 },
                peak: Color { r: 244, g: 162, b: 97, a: 255 },
            },
        }
    }

    /// Blush (ffcdb2 / ffb4a2 / e5989b / b5838d / 6d6875):
    /// muted rose tones on a dark mauve window.
    pub fn rose() -> (s: Self)
        ensures
            s == rose_skin(),
    {
        Skin {
            dark: true,
            accent: Color { r: 255, g: 180, b: 162, a: 255 },
            text_dim: Color { r: 185, g: 165, b: 175, a: 255 },
            error: Color { r: 255, g: 0, b: 0, a: 255 },
            background: Some(Color { r: 28, g: 22, b: 28, a: 255 }),
            selection: Some(Color { r: 90, g: 60, b: 75, a: 255 }),
            text: None,
            spectrum: SpectrumColors {
                background: Color { r: 24, g: 18, b: 24, a: 255 },
                unlit: Color { r: 50, g: 38, b: 48, a: 255 },
                low: Color { r: 181, g: 131, b: 141, a: 255 },
                mid: Color { r: 229, g: 152, b: 155, a: 255 },
                high: Color { r: 255, g: 205, b: 178, a: 255 },
                peak: Color { r: 255, g: 205, b: 178, a: 255 },
            },
        }
    }

    /// Candy (cdb4db / ffc8dd / ffafcc / bde0fe / a2d2ff):
    /// pastel pink accent, bars running baby blue → lilac → pink.
    pub fn candy() -> (s: Self)
        ensures
            s == candy_skin(),
    {
        Skin {
            dark: true,
            accent: Color { r: 255, g: 175, b: 204, a: 255 },
            text_dim: Color { r: 180, g: 170, b: 195, a: 255 },
            error: Color { r: 255, g: 0, b: 0, a: 255 },
            background: Some(Color { r: 20, g: 16, b: 28, a: 255 }),
            selection: Some(Color { r: 70, g: 50, b: 90, a: 255 }),
            text: None,
            spectrum: SpectrumColors {
                background: Color { r: 16, g: 12, b: 24, a: 255 },
                unlit: Color { r: 38, g: 30, b: 50, a: 255 },
                low: Color { r: 162, g: 210, b: 255, a: 255 },
                mid: Color { r: 205, g: 180, b: 219, a: 255 },
                high: Color { r: 255, g: 175, b: 204, a: 255 },
                peak: Color { r: 255, g: 255, b: 255, a: 255 },
            },
        }
    }

    /// Forest (606c38 / 283618 / fefae0 / dda15e / bc6c25):
    /// earthy olive with a tan accent, bars running moss → tan → cream.
    pub fn forest() -> (s: Self)
        ensures
            s == forest_skin(),
    {
        Skin {
            dark: true,
            accent: Color { r: 221, g: 161, b: 94, a: 255 },
            text_dim: Color { r: 175, g: 180, b: 150, a: 255 },
            error: Color { r: 255, g: 0, b: 0, a: 255 },
            background: Some(Color { r: 18, g: 22, b: 12, a: 255 }),
            selection: Some(Color { r: 70, g: 85, b: 45, a: 255 }),
            text: None,
            spectrum: SpectrumColors {
                background: Color { r: 14, g: 17, b: 9, a: 255 },
                unlit: Color { r: 32, g: 40, b: 20, a: 255 },
                low: Color { r: 96, g: 108, b: 56, a: 255 },
                mid: Color { r: 221, g: 161, b: 94, a: 255 },
                high: Color { r: 254, g: 250, b: 224, a: 255 },
                peak: Color { r: 254, g: 250, b: 224, a: 255 },
            },
        }
    }

    /// Light mode: light widget visuals with a green accent.
    pub fn paper() -> (s: Self)
        ensures
            s == paper_skin(),
    {
        Skin {
            dark: false,
            accent: Color { r: 0, g: 120, b: 70, a: 255 },
            text_dim: Color { r: 96, g: 96, b: 96, a: 255 },
            error: Color { r: 255, g: 0, b: 0, a: 255 },
            background: None,
            selection: None,
            text: None,
            spectrum: SpectrumColors {
                background: Color { r: 235, g: 232, b: 224, a: 255 },
                unlit: Color { r: 210, g: 206, b: 196, a: 255 },
                low: Color { r: 20, g: 140, b: 80, a: 255 },
                mid: Color { r: 200, g: 130, b: 0, a: 255 },
                high: Color { r: 210, g: 50, b: 30, a: 255 },
                peak: Color { r: 0, g: 120, b: 70, a: 255 },
            },
        }
    }

    /// Named built-in skins shown in the picker.
    pub fn presets() -> (r: Vec<(&'static str, Self)>)
        ensures
            r@.map_values(|p: (&'static str, Skin)| (p.0@, p.1)) == preset_list(),
    {
        let r = vec![
            ("winamp", Self::winamp()),
            ("amber", Self::amber()),
            ("ice", Self::ice()),
            ("vaporwave", Self::vaporwave()),
            ("sunset", Self::sunset()),
            ("rose", Self::rose()),
            ("candy", Self::candy()),
            ("forest", Self::forest()),
            ("paper", Self::paper()),
        ];
        proof {
            assert(r@.map_values(|p: (&'static str, Skin)| (p.0@, p.1)) =~= preset_list());
        }
        r
    }

    /// Name of the built-in preset matching this skin, if it matches one
    /// exactly — otherwise the picker shows "custom".
    pub fn preset_name(&self) -> (r: Option<&'static str>)
        ensures
            match r {
                Some(n) => find_preset(preset_list(), *self) == Some(n@),
                None => find_preset(preset_list(), *self) is None,
            },
            r matches Some(n) ==> exists|i: int|
                0 <= i < preset_list().len() && #[trigger] preset_list()[i] == (n@, *self),
            r is None ==> forall|i: int|
                0 <= i < preset_list().len() ==> (#[trigger] preset_list()[i]).1 != *self,
    {
        proof {
            lemma_find_preset_is_exact(preset_list(), *self);
        }
        let presets = Self::presets();
        let ghost list = preset_list();
        let n = presets.len();
        proof {
            assert(list.skip(0) == list);
        }
        for i in 0..n
            invariant
                n == presets.len(),
                list == preset_list(),
                presets@.map_values(|p: (&'static str, Skin)| (p.0@, p.1)) == list,
                find_preset(list, *self) == find_preset(list.skip(i as int), *self),
        {
            let (name, skin) = presets[i];
            proof {
                assert(list.skip(i as int)[0] == (name@, skin));
                assert(list.skip(i as int).drop_first() == list.skip(i + 1));
            }
            if skin == *self {
                return Some(name);
            }
        }
        None
    }
}

proof fn lemma_find_preset_from(k: int, i: int)
    requires
        0 <= k <= i < preset_list().len(),
    ensures
        find_preset(preset_list().skip(k), preset_list()[i].1) == Some(preset_list()[i].0),
    decreases i - k,
{
    let l = preset_list();
    assert(l.skip(k)[0] == l[k]);
    if k < i {
        assert(l[k].1.accent != l[i].1.accent);
        assert(l.skip(k).drop_first() == l.skip(k + 1));
        lemma_find_preset_from(k + 1, i);
    }
}

#[verifier::external_type_specification]
#[verifier::external_body]
pub struct ExColor32(Color32);

/// The lowercase hexadecimal digit for `d < 16`.
pub open spec fn hex_digit(d: nat) -> char {
    if d < 10 {
        (48 + d) as char
    } else {
        (87 + d) as char
    }
}

/// A byte as two lowercase hexadecimal digits (`{:02x}`).
pub open spec fn hex2(b: u8) -> Seq<char> {
    seq![hex_digit(b as nat / 16), hex_digit(b as nat % 16)]
}

/// `"#rrggbb"`: the form an opaque color is written in.
pub open spec fn opaque_hex(c: Color) -> Seq<char> {
    seq!['#'] + hex2(c.r) + hex2(c.g) + hex2(c.b)
}

/// `"#rrggbbaa"`, the digits of the stored channels.
pub open spec fn hex8(c: Color) -> Seq<char> {
    seq!['#'] + hex2(c.r) + hex2(c.g) + hex2(c.b) + hex2(c.a)
}

/// The value of a hexadecimal digit, either case.
pub open spec fn hex_value(ch: char) -> Option<nat> {
    if '0' <= ch && ch <= '9' {
        Some((ch as nat - 48) as nat)
    } else if 'a' <= ch && ch <= 'f' {
        Some((ch as nat - 87) as nat)
    } else if 'A' <= ch && ch <= 'F' {
        Some((ch as nat - 55) as nat)
    } else {
        None
    }
}

/// `'#'` followed by exactly six hexadecimal digits.
pub open spec fn is_hex6(s: Seq<char>) -> bool {
    &&& s.len() == 7
    &&& s[0] == '#'
    &&& forall|i: int| 1 <= i < 7 ==> #[trigger] hex_value(s[i]) is Some
}

/// The byte written by two hexadecimal digits.
pub open spec fn hex_byte(hi: char, lo: char) -> u8 {
    (hex_value(hi).unwrap() * 16 + hex_value(lo).unwrap()) as u8
}

/// The opaque color a `"#rrggbb"` text names.
pub open spec fn hex6_color(s: Seq<char>) -> Color {
    Color { r: hex_byte(s[1], s[2]), g: hex_byte(s[3], s[4]), b: hex_byte(s[5], s[6]), a: 255 }
}

/// The result of `Color32::from_hex` on a text with these characters.
pub uninterp spec fn parsed_hex(s: Seq<char>) -> Option<Color>;

/// The text `Color32::to_hex` gives for a color stored with these channels.
pub uninterp spec fn to_hex_text(c: Color) -> Seq<char>;

/// Trusted wrapper over `Color32::from_hex` (ecolor): the 3, 4, 6 and
/// 8-digit CSS forms after a `'#'`. Its result is named by `parsed_hex`.
/// Beyond the name it claims two things its source shows: without a
/// leading `'#'` the text is refused, and six hexadecimal digits give the
/// opaque color with those bytes (`from_rgb`). What the other forms give,
/// which involves rounding when un-premultiplying, is left unsaid.
#[verifier::external_body]
fn color_from_hex(s: &str) -> (r: Option<Color>)
    ensures
        r == parsed_hex(s@),
        !(s@.len() > 0 && s@[0] == '#') ==> r is None,
        is_hex6(s@) ==> r == Some(hex6_color(s@)),
{
    match Color32::from_hex(s) {
        Ok(c) => Some(Color { r: c.r(), g: c.g(), b: c.b(), a: c.a() }),
        Err(_) => None,
    }
}

/// Trusted wrapper over `Color32::to_hex` (ecolor) on the color stored with
/// these channels: `'#'` and eight lowercase digits of the un-premultiplied
/// channels. Its result is named by `to_hex_text`; when alpha is 0 or 255
/// the stored channels are returned as they are, so the digits are those of
/// the channels. For other alphas the un-premultiplying rounds in floating
/// point, and nothing more is claimed.
#[verifier::external_body]
fn color_to_hex(c: Color) -> (r: String)
    ensures
        r@ == to_hex_text(c),
        (c.a == 255 || c.a == 0) ==> r@ == hex8(c),
{
    Color32::from_rgba_premultiplied(c.r, c.g, c.b, c.a).to_hex()
}

fn hex_digit_char(d: u8) -> (ch: char)
    requires
        d < 16,
    ensures
        ch == hex_digit(d as nat),
{
    if d < 10 {
        (48 + d) as char
    } else {
        (87 + d) as char
    }
}

fn push_hex2(s: &mut String, b: u8)
    ensures
        final(s)@ == old(s)@ + hex2(b),
{
    push_char(s, hex_digit_char(b / 16));
    push_char(s, hex_digit_char(b % 16));
}

/// How a skin file writes a color: `"#rrggbb"` when opaque (easy to edit by
/// hand), otherwise `Color32::to_hex`'s eight-digit form.
pub fn hex_text(c: Color) -> (r: String)
    ensures
        c.a == 255 ==> r@ == opaque_hex(c),
        c.a != 255 ==> r@ == to_hex_text(c),
{
    if c.a == 255 {
        let mut s = String::new();
        push_char(&mut s, '#');
        push_hex2(&mut s, c.r);
        push_hex2(&mut s, c.g);
        push_hex2(&mut s, c.b);
        proof {
            assert(s@ =~= opaque_hex(c));
        }
        s
    } else {
        color_to_hex(c)
    }
}

/// How a skin file writes an optional color: `Color32::to_hex`'s form, and
/// nothing when there is no color.
pub fn optional_hex_text(c: Option<Color>) -> (r: Option<String>)
    ensures
        match c {
            Some(x) => r matches Some(t) && t@ == to_hex_text(x),
            None => r is None,
        },
{
    match c {
        Some(x) => Some(color_to_hex(x)),
        None => None,
    }
}

/// A color text that `Color32::from_hex` refuses.
#[derive(Debug, Clone, PartialEq, Eq)]
pub struct InvalidHexColor {
    /// The text as it was given.
    pub text: String,
}

/// Read a color from a skin file: the refused text comes back in the error.
pub fn parse_hex_color(s: &str) -> (r: Result<Color, InvalidHexColor>)
    ensures
        match r {
            Ok(c) => parsed_hex(s@) == Some(c),
            Err(e) => parsed_hex(s@) is None && e.text@ == s@,
        },
        is_hex6(s@) ==> r == Ok::<Color, InvalidHexColor>(hex6_color(s@)),
        !(s@.len() > 0 && s@[0] == '#') ==> r is Err,
{
    match color_from_hex(s) {
        Some(c) => Ok(c),
        None => {
            let mut text = String::new();
            push_str(&mut text, s);
            Err(InvalidHexColor { text })
        },
    }
}

/// Read an optional color: absent stays absent, a present text must parse.
pub fn parse_optional_hex_color(s: Option<&str>) -> (r: Result<Option<Color>, InvalidHexColor>)
    ensures
        match s {
            None => r == Ok::<Option<Color>, InvalidHexColor>(None),
            Some(t) => match r {
                Ok(c) => c is Some && parsed_hex(t@) == c,
                Err(e) => parsed_hex(t@) is None && e.text@ == t@,
            },
        },
{
    match s {
        None => Ok(None),
        Some(t) => match parse_hex_color(t) {
            Ok(c) => Ok(Some(c)),
            Err(e) => Err(e),
        },
    }
}

proof fn lemma_hex_digit_value(d: nat)
    requires
        d < 16,
    ensures
        hex_value(hex_digit(d)) == Some(d),
{
}

/// Law: an opaque color written the way a skin file writes it reads back as
/// the same color (`"#rrggbb"` is six hexadecimal digits, and they decode
/// to the channels).
pub proof fn lemma_opaque_hex_reads_back(c: Color)
    requires
        c.a == 255,
    ensures
        is_hex6(opaque_hex(c)),
        hex6_color(opaque_hex(c)) == c,
{
    let s = opaque_hex(c);
    lemma_hex_digit_value(c.r as nat / 16);
    lemma_hex_digit_value(c.r as nat % 16);
    lemma_hex_digit_value(c.g as nat / 16);
    lemma_hex_digit_value(c.g as nat % 16);
    lemma_hex_digit_value(c.b as nat / 16);
    lemma_hex_digit_value(c.b as nat % 16);
    assert(s[1] == hex_digit(c.r as nat / 16));
    assert(s[2] == hex_digit(c.r as nat % 16));
    assert(s[3] == hex_digit(c.g as nat / 16));
    assert(s[4] == hex_digit(c.g as nat % 16));
    assert(s[5] == hex_digit(c.b as nat / 16));
    assert(s[6] == hex_digit(c.b as nat % 16));
    assert forall|i: int| 1 <= i < 7 implies #[trigger] hex_value(s[i]) is Some by {}
}

/// Law: a skin is named after a preset only when it equals that preset in
/// every field, and then after the first such preset; when no name comes
/// back, no preset equals it.
pub proof fn lemma_find_preset_is_exact(list: Seq<(Seq<char>, Skin)>, skin: Skin)
    ensures
        find_preset(list, skin) matches Some(n) ==> exists|i: int|
            0 <= i < list.len() && #[trigger] list[i] == (n, skin) && forall|j: int|
                0 <= j < i ==> (#[trigger] list[j]).1 != skin,
        find_preset(list, skin) is None ==> forall|i: int| 0 <= i < list.len() ==> (#[trigger] list[i]).1 != skin,
    decreases list.len(),
{
    if list.len() > 0 {
        let rest = list.drop_first();
        lemma_find_preset_is_exact(rest, skin);
        if list[0].1 == skin {
            assert(list[0] == (list[0].0, skin));
        } else {
            if let Some(n) = find_preset(rest, skin) {
                let i = choose|i: int|
                    0 <= i < rest.len() && #[trigger] rest[i] == (n, skin) && forall|j: int|
                        0 <= j < i ==> (#[trigger] rest[j]).1 != skin;
                assert(list[i + 1] == (n, skin));
                assert forall|j: int| 0 <= j < i + 1 implies (#[trigger] list[j]).1 != skin by {
                    if j > 0 {
                        assert(list[j] == rest[j - 1]);
                    }
                }
            } else {
                assert forall|i: int| 0 <= i < list.len() implies (#[trigger] list[i]).1 != skin by {
                    if i > 0 {
                        assert(list[i] == rest[i - 1]);
                    }
                }
            }
        }
    }
}

/// Law: every built-in preset is recognised under its own name (the
/// presets are pairwise different).
pub proof fn lemma_every_preset_names_itself()
    ensures
        forall|i: int|
            0 <= i < preset_list().len() ==> find_preset(preset_list(), (#[trigger] preset_list()[i]).1)
                == Some(preset_list()[i].0),
{
    let l = preset_list();
    assert forall|i: int| 0 <= i < l.len() implies find_preset(l, (#[trigger] l[i]).1) == Some(l[i].0) by {
        lemma_find_preset_from(0, i);
        assert(l.skip(0) == l);
    }
}

} // verus!
