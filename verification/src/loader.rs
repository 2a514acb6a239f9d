//! Generic asset loading.
//!
//! A type that can be materialised from a resolved asset path implements
//! [`LoadableAsset`]; the generic entry points here resolve the path and
//! dispatch to it. Reading bytes from disk is inherently an effect of the
//! surrounding program, so the implementations that actually touch the
//! filesystem (whole-file text, whole-file bytes) live with the embedding
//! application, which also owns the process-wide [`AssetBase`].

use vstd::prelude::*;
use crate::path::get_asset_path_local;
use crate::path::joined_path;

verus! {

/// Why an asset could not be read.
#[derive(Debug, PartialEq, Eq, Structural, Clone, Copy)]
pub enum IoError {
    /// No file exists at the resolved path.
    NotFound,
    /// The file exists but may not be read.
    PermissionDenied,
    /// Any other read or decode failure.
    Other,
}

/// The capability of being constructed from a resolved asset path.
///
/// Implementations decide what the bytes at `path` mean; a failed read or a
/// malformed file surfaces as an [`IoError`] for the caller to handle. The
/// loader core states nothing about what an implementation returns — the
/// contract of an asset format belongs to the type that implements it.
pub trait LoadableAsset: Sized {
    /// Reads and parses the asset at `path`.
    fn read(path: &str) -> Result<Self, IoError>;
}

/// Loads an asset of type `T` from `path`, taken as already resolved.
pub fn load_asset<T: LoadableAsset>(path: &str) -> Result<T, IoError> {
    T::read(path)
}

/// Loads an asset of type `T` from `path` resolved against `base_dir`: the
/// read is handed exactly `joined_path(base_dir, path)`.
pub fn load_asset_local<T: LoadableAsset>(base_dir: &str, path: &str) -> Result<T, IoError> {
    let p = get_asset_path_local(base_dir, path);
    T::read(p.as_str())
}

/// The base directory all asset paths resolve against.
///
/// Built once at startup and passed explicitly wherever resolution happens,
/// so the base can never move under a concurrent reader.
pub struct AssetBase {
    base: String,
}

impl AssetBase {
    /// The configured base directory.
    pub closed spec fn base_view(self) -> Seq<char> {
        self.base@
    }

    /// Fixes `base` as the base directory for this configuration.
    pub fn new(base: String) -> (b: Self)
        ensures
            b.base_view() == base@,
    {
        AssetBase { base }
    }

    /// The full path for the asset at `path`: resolved against the base
    /// directory.
    pub fn fs_path(&self, path: &str) -> (r: String)
        ensures
            r@ == joined_path(self.base_view(), path@),
    {
        get_asset_path_local(self.base.as_str(), path)
    }
}

} // verus!
