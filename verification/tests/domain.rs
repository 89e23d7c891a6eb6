use std::path::{Path, PathBuf};

use dxtr_imgs::domain::{
    Asset, AssetId, DomainError, MediaType, StorageMode, Workplace, WorkplaceId,
    DEFAULT_WORKPLACE_NAME,
};

fn linked_asset() -> Asset {
    Asset {
        id: AssetId::new(),
        workplace_id: WorkplaceId::new(),
        storage_mode: StorageMode::Linked,
        source_path: PathBuf::from("/photos/original.jpg"),
        managed_path: None,
        media_type: MediaType::Raster,
        missing: true,
    }
}

#[test]
fn default_workplace_has_expected_name() {
    assert_eq!(Workplace::default_workplace().name, DEFAULT_WORKPLACE_NAME);
}

#[test]
fn linked_asset_uses_source_path() {
    let asset = linked_asset();
    assert_eq!(
        asset.effective_path().unwrap(),
        Path::new("/photos/original.jpg")
    );
}

#[test]
fn relink_preserves_asset_identity() {
    let mut asset = linked_asset();
    let id = asset.id.clone();

    asset.relink(PathBuf::from("/photos/relinked.jpg"));

    assert_eq!(asset.id, id);
    assert_eq!(asset.source_path, PathBuf::from("/photos/relinked.jpg"));
    assert!(!asset.missing);
}

#[test]
fn managed_asset_requires_managed_path() {
    let mut asset = linked_asset();
    asset.storage_mode = StorageMode::Managed;
    assert_eq!(
        asset.effective_path(),
        Err(DomainError::ManagedAssetWithoutManagedPath)
    );
}

#[test]
fn default_workplace_name_is_my_workplace() {
    assert_eq!(DEFAULT_WORKPLACE_NAME, "My workplace");
}

#[test]
fn managed_asset_uses_managed_path() {
    let mut asset = linked_asset();
    asset.storage_mode = StorageMode::Managed;
    asset.managed_path = Some(PathBuf::from("/library/managed.jpg"));
    assert_eq!(
        asset.effective_path().unwrap(),
        Path::new("/library/managed.jpg")
    );
}

#[test]
fn relink_of_managed_asset_keeps_source_path() {
    let mut asset = linked_asset();
    asset.storage_mode = StorageMode::Managed;
    let before = asset.clone();

    asset.relink(PathBuf::from("/library/moved.jpg"));

    assert_eq!(asset.source_path, PathBuf::from("/photos/original.jpg"));
    assert_eq!(asset.managed_path, Some(PathBuf::from("/library/moved.jpg")));
    assert_eq!(asset.id, before.id);
    assert_eq!(asset.workplace_id, before.workplace_id);
    assert_eq!(asset.storage_mode, StorageMode::Managed);
    assert_eq!(asset.media_type, MediaType::Raster);
    assert!(!asset.missing);
    assert_eq!(
        asset.effective_path().unwrap(),
        Path::new("/library/moved.jpg")
    );
}

#[test]
fn relinking_twice_to_one_path_equals_relinking_once() {
    let mut once = linked_asset();
    once.relink(PathBuf::from("/photos/a.jpg"));
    let mut twice = once.clone();
    twice.relink(PathBuf::from("/photos/a.jpg"));
    assert_eq!(once, twice);
}

#[test]
fn fresh_identities_differ() {
    assert_ne!(WorkplaceId::new(), WorkplaceId::new());
    assert_ne!(AssetId::new(), AssetId::default());
    assert_ne!(Workplace::default_workplace().id, WorkplaceId::default());
}
