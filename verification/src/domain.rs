//! Workplace and asset identity, storage modes, effective paths and relinking.

use std::path::PathBuf;
use vstd::prelude::*;

verus! {

/// The name of the workplace that first launch resolves or creates.
pub const DEFAULT_WORKPLACE_NAME: &'static str = "My workplace";

/// A random (version 4) UUID, read as its 128-bit big-endian integer: the
/// version nibble is 4 and the variant bits are `10`.
pub open spec fn is_random_uuid(bits: u128) -> bool {
    &&& (bits >> 76u128) & 0xfu128 == 4u128
    &&& (bits >> 62u128) & 0x3u128 == 2u128
}

/// Draws a fresh identifier with `uuid::Uuid::new_v4` and reads it with
/// `Uuid::as_u128`. The bits are random; what holds of every outcome is that
/// `new_v4` sets the version to 4 and the variant to RFC 4122. Nothing is stated
/// of the other bits, nor that two calls differ.
#[verifier::external_body]
fn fresh_uuid_bits() -> (bits: u128)
    ensures
        is_random_uuid(bits),
{
    uuid::Uuid::new_v4().as_u128()
}

/// The stable identity of a workplace.
#[derive(Clone, Debug, PartialEq, Eq, Hash, Structural)]
pub struct WorkplaceId(u128);

impl WorkplaceId {
    /// The 128 bits of the identifier.
    pub closed spec fn bits(self) -> u128 {
        self.0
    }

    /// A fresh random identity.
    pub fn new() -> (id: Self)
        ensures
            is_random_uuid(id.bits()),
    {
        WorkplaceId(fresh_uuid_bits())
    }
}

impl Default for WorkplaceId {
    fn default() -> (id: Self)
        ensures
            is_random_uuid(id.bits()),
    {
        Self::new()
    }
}

/// The stable identity of an asset.
#[derive(Clone, Debug, PartialEq, Eq, Hash, Structural)]
pub struct AssetId(u128);

impl AssetId {
    /// The 128 bits of the identifier.
    pub closed spec fn bits(self) -> u128 {
        self.0
    }

    /// A fresh random identity.
    pub fn new() -> (id: Self)
        ensures
            is_random_uuid(id.bits()),
    {
        AssetId(fresh_uuid_bits())
    }
}

impl Default for AssetId {
    fn default() -> (id: Self)
        ensures
            is_random_uuid(id.bits()),
    {
        Self::new()
    }
}

/// Where an asset's file lives: `Linked` keeps the original at its source path,
/// `Managed` uses an application-owned copy at the managed path.
#[derive(Clone, Copy, Debug, PartialEq, Eq, Structural)]
pub enum StorageMode {
    Linked,
    Managed,
}

/// Whether an asset is an ordinary raster image or a camera RAW file.
#[derive(Clone, Copy, Debug, PartialEq, Eq, Structural)]
pub enum MediaType {
    Raster,
    Raw,
}

/// A workplace: a named catalog scope.
#[derive(Clone, Debug, PartialEq, Eq)]
pub struct Workplace {
    pub id: WorkplaceId,
    pub name: String,
}

impl Workplace {
    /// The workplace that first launch creates: a fresh identity named
    /// `My workplace`.
    pub fn default_workplace() -> (workplace: Self)
        ensures
            workplace.name@ == DEFAULT_WORKPLACE_NAME@,
            is_random_uuid(workplace.id.bits()),
    {
        Self { id: WorkplaceId::new(), name: DEFAULT_WORKPLACE_NAME.to_owned() }
    }
}

/// Broken invariants of domain values.
#[derive(Debug, PartialEq, Eq, Structural)]
pub enum DomainError {
    /// A managed asset has no managed path.
    ManagedAssetWithoutManagedPath,
}

/// A cataloged photo.
#[derive(Clone, Debug, PartialEq, Eq)]
pub struct Asset {
    pub id: AssetId,
    pub workplace_id: WorkplaceId,
    pub storage_mode: StorageMode,
    pub source_path: PathBuf,
    pub managed_path: Option<PathBuf>,
    pub media_type: MediaType,
    pub missing: bool,
}

impl Asset {
    /// The path of the file the asset is read from: the source path of a linked
    /// asset, the managed path (if any) of a managed one.
    pub open spec fn stored_path(self) -> Option<PathBuf> {
        match self.storage_mode {
            StorageMode::Linked => Some(self.source_path),
            StorageMode::Managed => self.managed_path,
        }
    }

    /// The asset after relinking to `path`: the path of its storage mode is
    /// replaced and it is no longer missing; everything else is kept.
    pub open spec fn relinked(self, path: PathBuf) -> Asset {
        match self.storage_mode {
            StorageMode::Linked => Asset { source_path: path, missing: false, ..self },
            StorageMode::Managed => Asset { managed_path: Some(path), missing: false, ..self },
        }
    }

    /// The path to read the asset from; a managed asset without a managed path is
    /// an error.
    pub fn effective_path(&self) -> (path: Result<&PathBuf, DomainError>)
        ensures
            match path {
                Ok(p) => self.stored_path() == Some(*p),
                Err(e) => self.stored_path() is None && e == DomainError::ManagedAssetWithoutManagedPath,
            },
    {
        match self.storage_mode {
            StorageMode::Linked => Ok(&self.source_path),
            StorageMode::Managed => match &self.managed_path {
                Some(p) => Ok(p),
                None => Err(DomainError::ManagedAssetWithoutManagedPath),
            },
        }
    }

    /// Points the asset at a new file: the source path of a linked asset or the
    /// managed path of a managed one, and clears `missing`.
    pub fn relink(&mut self, path: PathBuf)
        ensures
            *final(self) == old(self).relinked(path),
    {
        match self.storage_mode {
            StorageMode::Linked => self.source_path = path,
            StorageMode::Managed => self.managed_path = Some(path),
        }
        self.missing = false;
    }
}

/// Relinking preserves identity: the asset keeps its id, workplace, storage
/// mode and media type, is no longer missing, and its effective path is the new
/// path.
pub proof fn lemma_relink_preserves_identity(asset: Asset, path: PathBuf)
    ensures
        asset.relinked(path).id == asset.id,
        asset.relinked(path).workplace_id == asset.workplace_id,
        asset.relinked(path).storage_mode == asset.storage_mode,
        asset.relinked(path).media_type == asset.media_type,
        !asset.relinked(path).missing,
        asset.relinked(path).stored_path() == Some(path),
{
}

/// Relinking twice to the same path is the same as relinking once.
pub proof fn lemma_relink_idempotent(asset: Asset, path: PathBuf)
    ensures
        asset.relinked(path).relinked(path) == asset.relinked(path),
{
}

} // verus!
