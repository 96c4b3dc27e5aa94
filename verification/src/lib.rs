//! Conversion of full-colour animation frames into the frames of a
//! palette-based GIF animation: temporal denoising, frame differencing,
//! palette quantization, cropping against a virtual screen, LZW compression
//! and the timing of the written frames.

use vstd::prelude::*;

pub mod color;
pub mod error;
pub mod settings;
pub mod img;
pub mod denoise;
pub mod steady;
pub mod blur;
pub mod prepare;
pub mod screen;
pub mod crop;
pub mod diff;
pub mod quantize;
pub mod remap;
pub mod encoder;
pub mod progress;
pub mod writer;
pub mod ordqueue;
pub mod cli;
pub mod capi;
pub mod palette;
pub mod bits;
pub mod gifsicle;

use crate::color::RGB8;
use crate::error::Error;
use crate::settings::{Settings, SettingsExt, MAX_SIZE};

verus! {

/// What an encoding is set up with before the frames are given.
pub struct Writer {
    pub settings: SettingsExt,
    /// Colours that are kept in the palette of every frame.
    pub fixed_colors: Vec<RGB8>,
}

/// No more colours than this can be fixed: one of the 256 of a palette
/// is kept for transparency.
pub const MAX_FIXED_COLORS: usize = 255;

/// The settings can be encoded with: the quality is from 1 to 100, and
/// neither side of the size asked for is above `MAX_SIZE`.
pub open spec fn settings_ok(settings: Settings) -> bool {
    &&& 1 <= settings.quality <= 100
    &&& (settings.width matches Some(w) ==> w <= MAX_SIZE)
    &&& (settings.height matches Some(h) ==> h <= MAX_SIZE)
}

/// Sets up an encoding for at most `max_threads` frames at a time in
/// every stage. Settings with a quality outside 1 to 100 or a size that is
/// too large are refused, and so is a number of threads of 0.
pub fn new(settings: Settings, max_threads: u8) -> (res: Result<Writer, Error>)
    ensures
        res is Ok <==> settings_ok(settings) && max_threads > 0,
        res matches Err(e) ==> e is WrongSize,
        res matches Ok(w) ==> {
            &&& w.wf()
            &&& w.settings.s == settings
            &&& w.settings.max_threads == max_threads
            &&& w.settings.motion_quality == settings.quality
            &&& w.settings.giflossy_quality == settings.quality
            &&& !w.settings.extra_effort
            &&& w.settings.matte is None
            &&& w.fixed_colors@.len() == 0
        },
{
    if settings.quality == 0 || settings.quality > 100 {
        return Err(Error::WrongSize("quality must be 1-100".to_string()));
    }
    let too_wide = match settings.width {
        Some(w) => w > MAX_SIZE,
        None => false,
    };
    let too_high = match settings.height {
        Some(h) => h > MAX_SIZE,
        None => false,
    };
    if too_wide || too_high {
        return Err(Error::WrongSize("image size too large".to_string()));
    }
    if max_threads == 0 {
        return Err(Error::WrongSize("out of range integral type conversion attempted".to_string()));
    }
    Ok(
        Writer {
            settings: SettingsExt {
                s: settings,
                max_threads,
                motion_quality: settings.quality,
                giflossy_quality: settings.quality,
                extra_effort: false,
                matte: None,
            },
            fixed_colors: Vec::new(),
        },
    )
}

impl Writer {
    pub open spec fn wf(&self) -> bool {
        self.fixed_colors.len() <= MAX_FIXED_COLORS
    }

    /// Asks for a slower encoding that may look a little better.
    pub fn set_extra_effort(&mut self, enabled: bool)
        ensures
            final(self).settings == (SettingsExt { extra_effort: enabled, ..old(self).settings }),
            final(self).fixed_colors == old(self).fixed_colors,
    {
        self.settings.extra_effort = enabled;
    }

    /// Sets the quality of the temporal denoising apart from the quality
    /// of the colours.
    pub fn set_motion_quality(&mut self, q: u8)
        ensures
            final(self).settings == (SettingsExt { motion_quality: q, ..old(self).settings }),
            final(self).fixed_colors == old(self).fixed_colors,
    {
        self.settings.motion_quality = q;
    }

    /// Sets the quality of the lossy compression apart from the quality of
    /// the colours.
    pub fn set_lossy_quality(&mut self, q: u8)
        ensures
            final(self).settings == (SettingsExt { giflossy_quality: q, ..old(self).settings }),
            final(self).fixed_colors == old(self).fixed_colors,
    {
        self.settings.giflossy_quality = q;
    }

    /// Adds a fixed colour that is kept in the palette at all times. Once
    /// `MAX_FIXED_COLORS` are fixed, further ones are left out.
    pub fn add_fixed_color(&mut self, col: RGB8)
        requires
            old(self).wf(),
        ensures
            final(self).wf(),
            final(self).settings == old(self).settings,
            final(self).fixed_colors@ == (if old(self).fixed_colors.len() < MAX_FIXED_COLORS {
                old(self).fixed_colors@.push(col)
            } else {
                old(self).fixed_colors@
            }),
    {
        if self.fixed_colors.len() < MAX_FIXED_COLORS {
            self.fixed_colors.push(col);
        }
    }

    /// Sets the colour that half transparent pixels are laid over.
    pub fn set_matte_color(&mut self, col: RGB8)
        ensures
            final(self).settings == (SettingsExt { matte: Some(col), ..old(self).settings }),
            final(self).fixed_colors == old(self).fixed_colors,
    {
        self.settings.matte = Some(col);
    }
}

} // verus!
