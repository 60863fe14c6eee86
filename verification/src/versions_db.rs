//! The version catalog: what each channel currently points at, and where
//! each version can be downloaded.

use crate::error::EngineError;
use crate::string_map::StringMap;
use vstd::prelude::*;

verus! {

/// Where a version can be downloaded.
#[derive(Clone, Debug)]
pub struct JuliaupVersionDBVersion {
    pub url: String,
}

impl View for JuliaupVersionDBVersion {
    type V = Seq<char>;

    /// The download location.
    open spec fn view(&self) -> Seq<char> {
        self.url@
    }
}

/// What a channel of the catalog currently points at.
#[derive(Clone, Debug)]
pub struct JuliaupVersionDBChannel {
    pub version: String,
}

impl View for JuliaupVersionDBChannel {
    type V = Seq<char>;

    /// The version identifier.
    open spec fn view(&self) -> Seq<char> {
        self.version@
    }
}

/// The catalog as two lookup tables.
#[derive(Clone, Debug)]
pub struct JuliaupVersionDB {
    pub available_versions: StringMap<JuliaupVersionDBVersion>,
    pub available_channels: StringMap<JuliaupVersionDBChannel>,
}

/// The mathematical content of a catalog.
pub ghost struct CatalogView {
    /// Version identifier to download location.
    pub available_versions: Map<Seq<char>, Seq<char>>,
    /// Channel name to current version identifier.
    pub available_channels: Map<Seq<char>, Seq<char>>,
}

impl View for JuliaupVersionDB {
    type V = CatalogView;

    open spec fn view(&self) -> CatalogView {
        CatalogView {
            available_versions: self.available_versions@,
            available_channels: self.available_channels@,
        }
    }
}

impl JuliaupVersionDB {
    /// A catalog that lists nothing.
    pub fn new() -> (db: Self)
        ensures
            db@.available_versions == Map::<Seq<char>, Seq<char>>::empty(),
            db@.available_channels == Map::<Seq<char>, Seq<char>>::empty(),
            db.available_versions.key_order() == Seq::<Seq<char>>::empty(),
            db.available_channels.key_order() == Seq::<Seq<char>>::empty(),
    {
        JuliaupVersionDB {
            available_versions: StringMap::new(),
            available_channels: StringMap::new(),
        }
    }
}


/// What fetching the catalog gave.
#[derive(Clone, Debug)]
pub enum CatalogRead {
    /// The catalog could not be fetched.
    Unavailable,
    /// What was fetched is no catalog.
    Malformed,
    /// The catalog.
    Parsed(JuliaupVersionDB),
}

/// Turns what fetching the catalog gave into the catalog to work with.
///
/// There is no fallback: a catalog that could not be fetched or parsed is
/// a `CatalogIO` error.
pub fn load_versions_db(read: CatalogRead) -> (r: Result<JuliaupVersionDB, EngineError>)
    ensures
        match read {
            CatalogRead::Unavailable => r == Err::<JuliaupVersionDB, EngineError>(
                EngineError::CatalogIO,
            ),
            CatalogRead::Malformed => r == Err::<JuliaupVersionDB, EngineError>(
                EngineError::CatalogIO,
            ),
            CatalogRead::Parsed(db) => r == Ok::<JuliaupVersionDB, EngineError>(db),
        },
{
    match read {
        CatalogRead::Unavailable => Err(EngineError::CatalogIO),
        CatalogRead::Malformed => Err(EngineError::CatalogIO),
        CatalogRead::Parsed(db) => Ok(db),
    }
}

} // verus!
