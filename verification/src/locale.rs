//! The interface languages the application offers.
use crate::text::str_eq;
use vstd::prelude::*;

verus! {

/// The locales the interface is translated into.
pub open spec fn supported_locale(value: Seq<char>) -> bool {
    value == "zh-CN"@ || value == "zh-TW"@ || value == "en"@
}

/// Whether the interface is translated into `value`.
pub fn is_supported_locale(value: &str) -> (r: bool)
    ensures
        r == supported_locale(value@),
{
    str_eq(value, "zh-CN") || str_eq(value, "zh-TW") || str_eq(value, "en")
}

/// The locale the application starts in: the saved one where it is
/// supported, else Simplified Chinese.
pub open spec fn startup_locale_spec(saved: Option<Seq<char>>) -> Seq<char> {
    match saved {
        Some(v) => if supported_locale(v) {
            v
        } else {
            "zh-CN"@
        },
        None => "zh-CN"@,
    }
}

/// The locale to start in, from the saved setting if there is one.
pub fn startup_locale(saved: Option<&str>) -> (r: String)
    ensures
        r@ == startup_locale_spec(
            match saved {
                Some(v) => Some(v@),
                None => None,
            },
        ),
{
    match saved {
        Some(v) => if is_supported_locale(v) {
            v.to_owned()
        } else {
            "zh-CN".to_owned()
        },
        None => "zh-CN".to_owned(),
    }
}

} // verus!
