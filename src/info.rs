//! The `config` command's operations and its boolean parsing.
use vstd::prelude::*;

use crate::text::{ascii_folds_to, eq_folded, str_eq};

verus! {

/// An operation on the tool's stored settings.
pub enum Info {
    /// Set `field` to `value`.
    SetField { field: String, value: String },
    /// Print the value of `field`, bare when `raw`.
    Get { field: String, raw: bool },
    /// List the settings that can be set.
    List,
    /// Set up the configuration interactively.
    Setup {},
}

/// The words read as `true`, after ASCII case folding.
pub open spec fn is_true_word(s: Seq<char>) -> bool {
    ascii_folds_to(s, "true"@) || ascii_folds_to(s, "yes"@) || ascii_folds_to(s, "y"@)
}

/// The words read as `false`, after ASCII case folding.
pub open spec fn is_false_word(s: Seq<char>) -> bool {
    ascii_folds_to(s, "false"@) || ascii_folds_to(s, "no"@) || ascii_folds_to(s, "n"@)
}

/// Reads a boolean setting: `true`, `yes`, `y` or `false`, `no`, `n`, in any
/// ASCII case; anything else is `None`.
pub fn get_bool(value: &str) -> (r: Option<bool>)
    ensures
        r == if is_true_word(value@) {
            Some(true)
        } else if is_false_word(value@) {
            Some(false)
        } else {
            None::<bool>
        },
{
    if eq_folded(value, "true") || eq_folded(value, "yes") || eq_folded(value, "y") {
        Some(true)
    } else if eq_folded(value, "false") || eq_folded(value, "no") || eq_folded(value, "n") {
        Some(false)
    } else {
        None
    }
}


/// A setting that `Info` can read or write.
#[derive(PartialEq, Eq, Structural, Clone, Copy, Debug)]
pub enum ConfigField {
    DefaultDeveloper,
    SdkPath,
    SdkNightly,
}

/// The setting named `name`: `default-developer`, `sdk-path` or
/// `sdk-nightly`, matched exactly.
pub fn config_field(name: &str) -> (r: Option<ConfigField>)
    ensures
        r == if name@ == "default-developer"@ {
            Some(ConfigField::DefaultDeveloper)
        } else if name@ == "sdk-path"@ {
            Some(ConfigField::SdkPath)
        } else if name@ == "sdk-nightly"@ {
            Some(ConfigField::SdkNightly)
        } else {
            None::<ConfigField>
        },
{
    if str_eq(name, "default-developer") {
        Some(ConfigField::DefaultDeveloper)
    } else if str_eq(name, "sdk-path") {
        Some(ConfigField::SdkPath)
    } else if str_eq(name, "sdk-nightly") {
        Some(ConfigField::SdkNightly)
    } else {
        None
    }
}

/// The names of the settings, in the order they are listed.
pub fn configurables() -> (r: Vec<&'static str>)
    ensures
        r@.len() == 3,
        r@[0]@ == "default-developer"@,
        r@[1]@ == "sdk-path"@,
        r@[2]@ == "sdk-nightly"@,
{
    vec!["default-developer", "sdk-path", "sdk-nightly"]
}

} // verus!
