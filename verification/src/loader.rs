//! Multi-format config loading: the file extension picks `ron` or `json`,
//! the matching parser decodes the bytes, and a validation verdict decides
//! whether the decoded value becomes an asset.

use crate::source::ConfigAsset;
use serde::de::DeserializeOwned;
use std::marker::PhantomData;
use vstd::prelude::*;

verus! {

#[verifier::external_type_specification]
#[verifier::external_body]
pub struct ExSpannedError(ron::error::SpannedError);

#[verifier::external_type_specification]
#[verifier::external_body]
pub struct ExJsonError(serde_json::Error);

#[verifier::external_type_specification]
#[verifier::external_body]
pub struct ExIoError(std::io::Error);

/// What `str::to_lowercase` makes of a text.
pub uninterp spec fn lowercased(text: Seq<char>) -> Seq<char>;

/// The lower-case form of `text`, by `str::to_lowercase`.
#[verifier::external_body]
fn lowercase(text: &str) -> (lower: String)
    ensures
        lower@ == lowercased(text@),
{
    text.to_lowercase()
}

/// Decodes `bytes` as RON with `ron::de::from_bytes`. What comes back rests
/// on the `Deserialize` impl of `T`; nothing is stated of it.
#[verifier::external_body]
fn ron_from_bytes<T: DeserializeOwned>(bytes: &[u8]) -> Result<T, ron::error::SpannedError> {
    ron::de::from_bytes(bytes)
}

/// Decodes `bytes` as JSON with `serde_json::from_slice`. What comes back
/// rests on the `Deserialize` impl of `T`; nothing is stated of it.
#[verifier::external_body]
fn json_from_slice<T: DeserializeOwned>(bytes: &[u8]) -> Result<T, serde_json::Error> {
    serde_json::from_slice(bytes)
}

/// The two file formats a config can be written in.
#[derive(Clone, Copy, Debug, PartialEq, Eq, Structural)]
pub enum ConfigFormat {
    /// Rusty Object Notation (`.ron`).
    Ron,
    /// JSON (`.json`).
    Json,
}

/// Why loading a config failed.
#[derive(Debug)]
pub enum ConfigLoaderError {
    /// Reading the bytes failed.
    Io(std::io::Error),
    /// The bytes are not valid RON for the config type.
    Ron(ron::error::SpannedError),
    /// The bytes are not valid JSON for the config type.
    Json(serde_json::Error),
    /// The (lower-cased) extension names no supported format.
    UnsupportedExtension(String),
    /// The decoded config was refused by the installed validator.
    Validation(String),
}

/// The format that a lower-cased extension names, if any.
pub open spec fn format_named(lower: Seq<char>) -> Option<ConfigFormat> {
    if lower == seq!['r', 'o', 'n'] {
        Some(ConfigFormat::Ron)
    } else if lower == seq!['j', 's', 'o', 'n'] {
        Some(ConfigFormat::Json)
    } else {
        None
    }
}

/// The format named by an already lower-cased extension `lower`; any other
/// extension is refused with that text.
pub fn format_for_lowercase(lower: String) -> (format: Result<ConfigFormat, ConfigLoaderError>)
    ensures
        match format_named(lower@) {
            Some(f) => format matches Ok(g) && g == f,
            None => format matches Err(ConfigLoaderError::UnsupportedExtension(other))
                && other@ == lower@,
        },
{
    let ron_name = "ron".to_string();
    let json_name = "json".to_string();
    proof {
        reveal_strlit("ron");
        reveal_strlit("json");
        assert(ron_name@ =~= seq!['r', 'o', 'n']);
        assert(json_name@ =~= seq!['j', 's', 'o', 'n']);
    }
    if lower == ron_name {
        Ok(ConfigFormat::Ron)
    } else if lower == json_name {
        Ok(ConfigFormat::Json)
    } else {
        Err(ConfigLoaderError::UnsupportedExtension(lower))
    }
}

/// The format of a file with extension `extension`, compared without regard
/// to case; any other extension is refused with its lower-case form.
pub fn format_for_extension(extension: &str) -> (format: Result<ConfigFormat, ConfigLoaderError>)
    ensures
        match format_named(lowercased(extension@)) {
            Some(f) => format matches Ok(g) && g == f,
            None => format matches Err(ConfigLoaderError::UnsupportedExtension(other))
                && other@ == lowercased(extension@),
        },
{
    format_for_lowercase(lowercase(extension))
}

/// Loads config assets of type `T` from `.ron` and `.json` files.
pub struct ConfigLoader<T> {
    /// Ties the loader to one config type.
    pub marker: PhantomData<T>,
}

impl<T> ConfigLoader<T> {
    /// A loader for `T`.
    pub fn new() -> (loader: Self) {
        ConfigLoader { marker: PhantomData }
    }

    /// Decode `bytes` read from a file with extension `extension`. An
    /// unsupported extension is refused before any parsing; otherwise the
    /// parser of the named format decides, and its error is kept under that
    /// format's variant.
    pub fn parse(&self, extension: &str, bytes: &[u8]) -> (parsed: Result<T, ConfigLoaderError>)
        where T: DeserializeOwned,
        ensures
            match format_named(lowercased(extension@)) {
                Some(ConfigFormat::Ron) => parsed is Ok || parsed matches Err(
                    ConfigLoaderError::Ron(_),
                ),
                Some(ConfigFormat::Json) => parsed is Ok || parsed matches Err(
                    ConfigLoaderError::Json(_),
                ),
                None => parsed matches Err(ConfigLoaderError::UnsupportedExtension(other))
                    && other@ == lowercased(extension@),
            },
    {
        match format_for_extension(extension) {
            Err(e) => Err(e),
            Ok(ConfigFormat::Ron) => match ron_from_bytes::<T>(bytes) {
                Ok(raw) => Ok(raw),
                Err(e) => Err(ConfigLoaderError::Ron(e)),
            },
            Ok(ConfigFormat::Json) => match json_from_slice::<T>(bytes) {
                Ok(raw) => Ok(raw),
                Err(e) => Err(ConfigLoaderError::Json(e)),
            },
        }
    }

    /// Turn a decoded config into an asset read from `source_path`, unless
    /// the validator's `verdict` refused it.
    pub fn accept(&self, raw: T, verdict: Result<(), String>, source_path: String) -> (asset: Result<
        ConfigAsset<T>,
        ConfigLoaderError,
    >)
        ensures
            match verdict {
                Ok(()) => asset matches Ok(a) && a.raw == raw && a.source_path == source_path,
                Err(reason) => asset matches Err(ConfigLoaderError::Validation(r)) && r == reason,
            },
    {
        match verdict {
            Ok(()) => Ok(ConfigAsset { raw, source_path }),
            Err(reason) => Err(ConfigLoaderError::Validation(reason)),
        }
    }
}

impl<T> Default for ConfigLoader<T> {
    fn default() -> (loader: Self) {
        Self::new()
    }
}

} // verus!
