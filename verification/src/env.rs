//! The platform directories the default file locations are built from.
//!
//! What these return depends on the environment of the running process
//! (variables such as `HOME` and `XDG_CONFIG_HOME`), so nothing is stated of
//! their results: the functions that use them are verified for every value.
use vstd::prelude::*;

verus! {

/// `dirs::config_dir`, with the path as text (lossily for non-UTF-8 paths).
/// Nothing is promised of the result: it depends on the environment.
#[verifier::external_body]
pub(crate) fn config_dir() -> Option<String> {
    dirs::config_dir().map(|p| p.to_string_lossy().into_owned())
}

/// `dirs::home_dir`, with the path as text (lossily for non-UTF-8 paths).
/// Nothing is promised of the result: it depends on the environment.
#[verifier::external_body]
pub(crate) fn home_dir() -> Option<String> {
    dirs::home_dir().map(|p| p.to_string_lossy().into_owned())
}

/// `dirs::state_dir`, with the path as text (lossily for non-UTF-8 paths).
/// Nothing is promised of the result: it depends on the environment.
#[verifier::external_body]
pub(crate) fn state_dir() -> Option<String> {
    dirs::state_dir().map(|p| p.to_string_lossy().into_owned())
}

} // verus!
