//! The settings of the editor that are kept between sessions.

use vstd::prelude::*;

use crate::tagger::{magnitude, value_order, Wd14Model, DEFAULT_THRESHOLD};

verus! {

/// The settings that are kept. Thresholds are the bits of floating point
/// numbers.
#[derive(Debug)]
pub struct Preferences {
    pub dark_mode: bool,
    pub wd14_model: Wd14Model,
    pub general: u32,
    pub character: u32,
    pub rating: bool,
    pub append: bool,
    pub spaces: bool,
    pub character_first: bool,
    pub undesired: String,
    pub backup_on_save: bool,
    pub caption_extension: String,
    pub filename_fallback: bool,
    pub truncate_count: usize,
}

/// The settings that are kept.
#[verifier::ext_equal]
pub struct PreferencesView {
    pub dark_mode: bool,
    pub wd14_model: Wd14Model,
    pub general: u32,
    pub character: u32,
    pub rating: bool,
    pub append: bool,
    pub spaces: bool,
    pub character_first: bool,
    pub undesired: Seq<char>,
    pub backup_on_save: bool,
    pub caption_extension: Seq<char>,
    pub filename_fallback: bool,
    pub truncate_count: usize,
}

impl View for Preferences {
    type V = PreferencesView;

    open spec fn view(&self) -> PreferencesView {
        PreferencesView {
            dark_mode: self.dark_mode,
            wd14_model: self.wd14_model,
            general: self.general,
            character: self.character,
            rating: self.rating,
            append: self.append,
            spaces: self.spaces,
            character_first: self.character_first,
            undesired: self.undesired@,
            backup_on_save: self.backup_on_save,
            caption_extension: self.caption_extension@,
            filename_fallback: self.filename_fallback,
            truncate_count: self.truncate_count,
        }
    }
}

/// The settings of a first session.
pub open spec fn default_preferences() -> PreferencesView {
    PreferencesView {
        dark_mode: true,
        wd14_model: Wd14Model::ConvNextV2,
        general: DEFAULT_THRESHOLD,
        character: DEFAULT_THRESHOLD,
        rating: false,
        append: false,
        spaces: true,
        character_first: false,
        undesired: Seq::empty(),
        backup_on_save: true,
        caption_extension: "txt"@,
        filename_fallback: false,
        truncate_count: 75,
    }
}

/// The bits of a floating point number brought into the range from zero to one.
/// What is not a number stays so.
pub open spec fn clamped(bits: u32) -> u32 {
    if magnitude(bits) > 0x7f80_0000 {
        bits
    } else if value_order(bits) < 0 {
        0
    } else if value_order(bits) > 0x3f80_0000 {
        0x3f80_0000
    } else {
        bits
    }
}

/// The bits of a floating point number brought into the range from zero to one.
pub fn clamp_unit(bits: u32) -> (result: u32)
    ensures
        result == clamped(bits),
{
    if bits >= 0x8000_0000 {
        let size: u32 = bits - 0x8000_0000;
        if size > 0x7f80_0000 || size == 0 {
            bits
        } else {
            0
        }
    } else if bits > 0x7f80_0000 {
        bits
    } else if bits > 0x3f80_0000 {
        0x3f80_0000
    } else {
        bits
    }
}

/// Settings with the thresholds brought into their range.
pub open spec fn ranged(settings: PreferencesView) -> PreferencesView {
    PreferencesView {
        general: clamped(settings.general),
        character: clamped(settings.character),
        ..settings
    }
}

impl Default for Preferences {
    fn default() -> (settings: Preferences)
        ensures
            settings@ == default_preferences(),
    {
        let settings = Preferences {
            dark_mode: true,
            wd14_model: Wd14Model::ConvNextV2,
            general: DEFAULT_THRESHOLD,
            character: DEFAULT_THRESHOLD,
            rating: false,
            append: false,
            spaces: true,
            character_first: false,
            undesired: String::new(),
            backup_on_save: true,
            caption_extension: "txt".to_owned(),
            filename_fallback: false,
            truncate_count: 75,
        };
        assert(settings@.undesired =~= Seq::empty());
        settings
    }
}

impl Preferences {
    /// A copy of the settings.
    pub fn copy(&self) -> (copy: Preferences)
        ensures
            copy@ == self@,
    {
        Preferences {
            dark_mode: self.dark_mode,
            wd14_model: self.wd14_model,
            general: self.general,
            character: self.character,
            rating: self.rating,
            append: self.append,
            spaces: self.spaces,
            character_first: self.character_first,
            undesired: self.undesired.clone(),
            backup_on_save: self.backup_on_save,
            caption_extension: self.caption_extension.clone(),
            filename_fallback: self.filename_fallback,
            truncate_count: self.truncate_count,
        }
    }

    /// The settings with the thresholds brought into their range.
    pub fn in_range(self) -> (settings: Preferences)
        ensures
            settings@ == ranged(self@),
    {
        let mut settings = self;
        settings.general = clamp_unit(settings.general);
        settings.character = clamp_unit(settings.character);
        settings
    }
}

} // verus!
