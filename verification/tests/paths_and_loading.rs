use asset_core::loader::load_asset;
use asset_core::loader::load_asset_local;
use asset_core::loader::AssetBase;
use asset_core::loader::IoError;
use asset_core::loader::LoadableAsset;
use asset_core::path::get_asset_path_local;
use asset_core::path::get_dir;

#[test]
fn dir_of_nested_path_is_first_component() {
    assert_eq!(get_dir("a/b/c"), "a");
}

#[test]
fn dir_of_bare_name_is_empty() {
    assert_eq!(get_dir("abc"), "");
}

#[test]
fn dir_of_empty_path_is_empty() {
    assert_eq!(get_dir(""), "");
}

#[test]
fn dir_of_leading_separator_is_empty() {
    assert_eq!(get_dir("/x"), "");
}

#[test]
fn dir_of_stops_at_first_separator() {
    assert_eq!(get_dir("textures/enemies/boss.png"), "textures");
}

#[test]
fn resolve_against_empty_base_keeps_path() {
    assert_eq!(get_asset_path_local("", "x.png"), "x.png");
}

#[test]
fn resolve_against_base_joins_with_separator() {
    assert_eq!(get_asset_path_local("dir", "x.png"), "dir/x.png");
}

#[test]
fn resolve_nested_base() {
    assert_eq!(get_asset_path_local("assets/sprites", "hero.png"), "assets/sprites/hero.png");
}

#[test]
fn asset_base_resolves_paths() {
    let base = AssetBase::new(String::from("assets"));
    assert_eq!(base.fs_path("sheet.json"), "assets/sheet.json");
    let empty = AssetBase::new(String::new());
    assert_eq!(empty.fs_path("sheet.json"), "sheet.json");
}

/// An asset that records the path it was asked to load from.
struct PathEcho(String);

impl LoadableAsset for PathEcho {
    fn read(path: &str) -> Result<Self, IoError> {
        Ok(PathEcho(path.to_string()))
    }
}

/// An asset whose file never exists.
#[derive(Debug)]
struct NeverThere;

impl LoadableAsset for NeverThere {
    fn read(_path: &str) -> Result<Self, IoError> {
        Err(IoError::NotFound)
    }
}

/// An asset whose file may never be read.
#[derive(Debug)]
struct Guarded;

impl LoadableAsset for Guarded {
    fn read(_path: &str) -> Result<Self, IoError> {
        Err(IoError::PermissionDenied)
    }
}

/// An asset whose bytes never parse.
#[derive(Debug)]
struct Garbled;

impl LoadableAsset for Garbled {
    fn read(_path: &str) -> Result<Self, IoError> {
        Err(IoError::Other)
    }
}

#[test]
fn load_asset_hands_path_through_unchanged() {
    let loaded: PathEcho = load_asset("dir/x.png").unwrap();
    assert_eq!(loaded.0, "dir/x.png");
}

#[test]
fn load_asset_local_hands_resolved_path_to_read() {
    let loaded: PathEcho = load_asset_local("dir", "x.png").unwrap();
    assert_eq!(loaded.0, "dir/x.png");
    let loaded: PathEcho = load_asset_local("", "x.png").unwrap();
    assert_eq!(loaded.0, "x.png");
}

#[test]
fn load_asset_surfaces_missing_file() {
    let loaded: Result<NeverThere, IoError> = load_asset("gone.png");
    assert_eq!(loaded.unwrap_err(), IoError::NotFound);
}

#[test]
fn load_asset_surfaces_permission_failure() {
    let loaded: Result<Guarded, IoError> = load_asset_local("secret", "locked.png");
    assert_eq!(loaded.unwrap_err(), IoError::PermissionDenied);
}

#[test]
fn load_asset_surfaces_other_failures() {
    let loaded: Result<Garbled, IoError> = load_asset("broken.json");
    assert_eq!(loaded.unwrap_err(), IoError::Other);
}
