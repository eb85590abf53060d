//! How stored pet settings are read back: each setting is text, absent when
//! never written, and decoded with a default or refused.
use super::{PetFps, PetMode, PetVisualStyle};
use crate::error::AppError;
use crate::text::{parse_unsigned, parse_unsigned_seq, str_eq};
use vstd::prelude::*;

verus! {

pub const DEFAULT_SIZE: u16 = 220;

pub const MIN_SIZE: u16 = 120;

pub const MAX_SIZE: u16 = 900;

/// The stored settings of the pet.
pub struct PetStore;

pub open spec fn text_of(value: Option<String>) -> Option<Seq<char>> {
    match value {
        Some(s) => Some(s@),
        None => None,
    }
}

pub open spec fn parse_mode_spec(value: Option<Seq<char>>) -> Result<PetMode, AppError> {
    match value {
        None => Ok(PetMode::Lite),
        Some(v) => if v == "real"@ {
            Ok(PetMode::Real)
        } else if v == "lite"@ {
            Ok(PetMode::Lite)
        } else {
            Err(AppError::InvalidPetSettings)
        },
    }
}

/// The mode: `real` or `lite`, Lite when unset.
pub fn parse_mode(value: Option<String>) -> (r: Result<PetMode, AppError>)
    ensures
        r == parse_mode_spec(text_of(value)),
{
    match value {
        None => Ok(PetMode::Lite),
        Some(v) => {
            if str_eq(v.as_str(), "real") {
                Ok(PetMode::Real)
            } else if str_eq(v.as_str(), "lite") {
                Ok(PetMode::Lite)
            } else {
                Err(AppError::InvalidPetSettings)
            }
        },
    }
}

pub open spec fn parse_visual_style_spec(value: Option<Seq<char>>) -> Result<PetVisualStyle, AppError> {
    match value {
        None => Ok(PetVisualStyle::Gargantua),
        Some(v) => if v == "gargantua"@ {
            Ok(PetVisualStyle::Gargantua)
        } else if v == "fusion"@ {
            Ok(PetVisualStyle::Fusion)
        } else {
            Err(AppError::InvalidPetSettings)
        },
    }
}

/// The visual style: `gargantua` or `fusion`, Gargantua when unset.
pub fn parse_visual_style(value: Option<String>) -> (r: Result<PetVisualStyle, AppError>)
    ensures
        r == parse_visual_style_spec(text_of(value)),
{
    match value {
        None => Ok(PetVisualStyle::Gargantua),
        Some(v) => {
            if str_eq(v.as_str(), "gargantua") {
                Ok(PetVisualStyle::Gargantua)
            } else if str_eq(v.as_str(), "fusion") {
                Ok(PetVisualStyle::Fusion)
            } else {
                Err(AppError::InvalidPetSettings)
            }
        },
    }
}

pub open spec fn parse_size_spec(value: Option<Seq<char>>) -> Result<u16, AppError> {
    let size = match value {
        None => Some(DEFAULT_SIZE as int),
        Some(v) => parse_unsigned_seq(v, u16::MAX as int),
    };
    match size {
        Some(n) => if MIN_SIZE <= n <= MAX_SIZE {
            Ok(n as u16)
        } else {
            Err(AppError::InvalidPetSettings)
        },
        None => Err(AppError::InvalidPetSettings),
    }
}

/// The size: a `u16` from 120 to 900, 220 when unset.
pub fn parse_size(value: Option<String>) -> (r: Result<u16, AppError>)
    ensures
        r == parse_size_spec(text_of(value)),
{
    let size: u16 = match value {
        Some(v) => match parse_unsigned(v.as_str(), u16::MAX as u64) {
            Some(n) => n as u16,
            None => return Err(AppError::InvalidPetSettings),
        },
        None => DEFAULT_SIZE,
    };
    if size < MIN_SIZE || size > MAX_SIZE {
        return Err(AppError::InvalidPetSettings);
    }
    Ok(size)
}

pub open spec fn parse_fps_spec(value: Option<Seq<char>>) -> Result<PetFps, AppError> {
    match value {
        None => Ok(PetFps::Auto),
        Some(v) => if v == "auto"@ {
            Ok(PetFps::Auto)
        } else if v == "fps30"@ {
            Ok(PetFps::Fps30)
        } else if v == "fps60"@ {
            Ok(PetFps::Fps60)
        } else {
            Err(AppError::InvalidPetSettings)
        },
    }
}

/// The frame rate: `auto`, `fps30` or `fps60`, Auto when unset.
pub fn parse_fps(value: Option<String>) -> (r: Result<PetFps, AppError>)
    ensures
        r == parse_fps_spec(text_of(value)),
{
    match value {
        None => Ok(PetFps::Auto),
        Some(v) => {
            if str_eq(v.as_str(), "auto") {
                Ok(PetFps::Auto)
            } else if str_eq(v.as_str(), "fps30") {
                Ok(PetFps::Fps30)
            } else if str_eq(v.as_str(), "fps60") {
                Ok(PetFps::Fps60)
            } else {
                Err(AppError::InvalidPetSettings)
            }
        },
    }
}

pub open spec fn parse_visible_spec(value: Option<Seq<char>>, mode: PetMode) -> Result<bool, AppError> {
    match value {
        None => Ok(mode == PetMode::Real),
        Some(v) => if v == "true"@ {
            Ok(true)
        } else if v == "false"@ {
            Ok(false)
        } else {
            Err(AppError::InvalidPetSettings)
        },
    }
}

/// Visibility: `true` or `false`; when unset, a Real pet is visible and a Lite one is not.
pub fn parse_visible(value: Option<String>, mode: PetMode) -> (r: Result<bool, AppError>)
    ensures
        r == parse_visible_spec(text_of(value), mode),
{
    match value {
        None => Ok(mode == PetMode::Real),
        Some(v) => {
            if str_eq(v.as_str(), "true") {
                Ok(true)
            } else if str_eq(v.as_str(), "false") {
                Ok(false)
            } else {
                Err(AppError::InvalidPetSettings)
            }
        },
    }
}

pub open spec fn parse_display_id_spec(value: Option<Seq<char>>) -> Result<Option<u64>, AppError> {
    match value {
        None => Ok(None),
        Some(v) => match parse_unsigned_seq(v, u64::MAX as int) {
            Some(n) => Ok(Some(n as u64)),
            None => Err(AppError::InvalidPetSettings),
        },
    }
}

/// The display the pet was last on, when stored.
pub fn parse_display_id(value: Option<String>) -> (r: Result<Option<u64>, AppError>)
    ensures
        r == parse_display_id_spec(text_of(value)),
{
    match value {
        None => Ok(None),
        Some(v) => match parse_unsigned(v.as_str(), u64::MAX) {
            Some(n) => Ok(Some(n)),
            None => Err(AppError::InvalidPetSettings),
        },
    }
}

pub open spec fn mode_text(mode: PetMode) -> Seq<char> {
    match mode {
        PetMode::Real => "real"@,
        PetMode::Lite => "lite"@,
    }
}

pub open spec fn visual_style_text(style: PetVisualStyle) -> Seq<char> {
    match style {
        PetVisualStyle::Gargantua => "gargantua"@,
        PetVisualStyle::Fusion => "fusion"@,
    }
}

pub open spec fn fps_text(fps: PetFps) -> Seq<char> {
    match fps {
        PetFps::Auto => "auto"@,
        PetFps::Fps30 => "fps30"@,
        PetFps::Fps60 => "fps60"@,
    }
}

/// The stored text of a mode.
pub fn mode_name(mode: PetMode) -> (r: &'static str)
    ensures
        r@ == mode_text(mode),
{
    match mode {
        PetMode::Real => "real",
        PetMode::Lite => "lite",
    }
}

/// The stored text of a visual style.
pub fn visual_style_name(visual_style: PetVisualStyle) -> (r: &'static str)
    ensures
        r@ == visual_style_text(visual_style),
{
    match visual_style {
        PetVisualStyle::Gargantua => "gargantua",
        PetVisualStyle::Fusion => "fusion",
    }
}

/// The stored text of a frame rate.
pub fn fps_name(fps: PetFps) -> (r: &'static str)
    ensures
        r@ == fps_text(fps),
{
    match fps {
        PetFps::Auto => "auto",
        PetFps::Fps30 => "fps30",
        PetFps::Fps60 => "fps60",
    }
}

/// Every setting written under its stored name reads back as the same setting.
pub proof fn lemma_stored_names_round_trip(mode: PetMode, style: PetVisualStyle, fps: PetFps)
    ensures
        parse_mode_spec(Some(mode_text(mode))) == Ok::<PetMode, AppError>(mode),
        parse_visual_style_spec(Some(visual_style_text(style))) == Ok::<PetVisualStyle, AppError>(
            style,
        ),
        parse_fps_spec(Some(fps_text(fps))) == Ok::<PetFps, AppError>(fps),
{
    reveal_strlit("real");
    reveal_strlit("lite");
    reveal_strlit("gargantua");
    reveal_strlit("fusion");
    reveal_strlit("auto");
    reveal_strlit("fps30");
    reveal_strlit("fps60");
    assert("lite"@[0] != "real"@[0]);
    assert("fusion"@[0] != "gargantua"@[0]);
    assert("fps30"@[0] != "auto"@[0]);
    assert("fps60"@[0] != "auto"@[0]);
    assert("fps60"@[3] != "fps30"@[3]);
}

} // verus!
