//! Application-facing contracts: repositories, localization and their errors.

use crate::domain::{Asset, AssetId, Workplace, WorkplaceId};
use vstd::prelude::*;

verus! {

/// Why a repository could not serve a request.
#[derive(Debug)]
pub enum RepositoryError {
    /// The repository is not available.
    Unavailable,
    /// The repository found one of its invariants broken.
    Invariant(&'static str),
}

/// Storage of workplaces and of which one is active.
pub trait WorkplaceRepository: Send + Sync {
    /// Returns the default workplace, creating it if there is none.
    fn ensure_default(&self) -> Result<Workplace, RepositoryError>;

    /// The active workplace, if one is set.
    fn active_workplace(&self) -> Result<Option<Workplace>, RepositoryError>;

    /// Makes the workplace with this identity the active one.
    fn set_active_workplace(&self, id: &WorkplaceId) -> Result<(), RepositoryError>;
}

/// Storage of the catalog's assets.
pub trait CatalogRepository: Send + Sync {
    /// The assets of a workplace.
    fn assets(&self, workplace_id: &WorkplaceId) -> Result<Vec<Asset>, RepositoryError>;

    /// The asset with this identity, if cataloged.
    fn asset(&self, id: &AssetId) -> Result<Option<Asset>, RepositoryError>;

    /// Inserts or replaces an asset.
    fn upsert_asset(&self, asset: &Asset) -> Result<(), RepositoryError>;

    /// Removes an asset from the catalog; the file itself is never deleted.
    fn remove_from_catalog(&self, id: &AssetId) -> Result<(), RepositoryError>;
}

/// Storage of import batches.
pub trait ImportBatchRepository: Send + Sync {}

/// Storage of settings.
pub trait SettingsRepository: Send + Sync {}

/// The user-facing texts of the application.
#[derive(Clone, Copy, Debug, PartialEq, Eq, Hash, Structural)]
pub enum MessageKey {
    AppName,
    Workplace,
    Catalog,
    AllPhotos,
    Missing,
    RecentImports,
    Develop,
}

/// Maps message keys to texts in one language.
pub trait Translator: Send + Sync {
    /// The text of a message.
    fn tr(&self, key: MessageKey) -> &'static str;
}

/// The English text of each message.
pub open spec fn english_text(key: MessageKey) -> Seq<char> {
    match key {
        MessageKey::AppName => "Dextryx Images"@,
        MessageKey::Workplace => "Workplace"@,
        MessageKey::Catalog => "Catalog"@,
        MessageKey::AllPhotos => "All photos"@,
        MessageKey::Missing => "Missing"@,
        MessageKey::RecentImports => "Recent imports"@,
        MessageKey::Develop => "Develop"@,
    }
}

/// The English translation.
#[derive(Clone, Copy, Debug)]
pub struct EnglishTranslator;

impl Default for EnglishTranslator {
    fn default() -> (translator: Self)
        ensures
            translator == EnglishTranslator,
    {
        EnglishTranslator
    }
}

impl Translator for EnglishTranslator {
    fn tr(&self, key: MessageKey) -> (text: &'static str)
        ensures
            text@ == english_text(key),
    {
        match key {
            MessageKey::AppName => "Dextryx Images",
            MessageKey::Workplace => "Workplace",
            MessageKey::Catalog => "Catalog",
            MessageKey::AllPhotos => "All photos",
            MessageKey::Missing => "Missing",
            MessageKey::RecentImports => "Recent imports",
            MessageKey::Develop => "Develop",
        }
    }
}

} // verus!
