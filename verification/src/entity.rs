//! Entities: the agents and tools that the entries of a manifest point at.
//! An entity is the directory that holds the file an entry names, and it is
//! called by that directory's name.

use crate::paths::{file_name, file_name_of, join, joined, parent, parent_of};
use vstd::prelude::*;

verus! {

/// An entity: its directory, and its name.
#[derive(Debug, PartialEq, Eq)]
pub struct Entity {
    pub dir: String,
    pub name: String,
}

/// An entity as contracts see it.
pub struct EntityView {
    pub dir: Seq<char>,
    pub name: Seq<char>,
}

impl View for Entity {
    type V = EntityView;

    open spec fn view(&self) -> EntityView {
        EntityView { dir: self.dir@, name: self.name@ }
    }
}

/// Why an entry of a manifest names no entity.
#[derive(Clone, Copy, Debug, PartialEq, Eq, Structural)]
pub enum ResolveError {
    /// The path of the manifest has no parent directory.
    NoManifestDir,
    /// The file that the entry names has no parent directory.
    NoEntityDir,
    /// The directory of the entity has no name.
    NoEntityName,
}

/// The entity that the entry `rel` of the manifest at `manifest` points at.
/// The entry is taken relative to the directory of the manifest; the
/// directory of the file so named is the entity's, and the last segment of
/// that directory its name.
pub open spec fn resolve(manifest: Seq<char>, rel: Seq<char>) -> Result<EntityView, ResolveError> {
    match parent_of(manifest) {
        None => Err(ResolveError::NoManifestDir),
        Some(home) => match parent_of(joined(home, rel)) {
            None => Err(ResolveError::NoEntityDir),
            Some(dir) => match file_name_of(dir) {
                None => Err(ResolveError::NoEntityName),
                Some(name) => Ok(EntityView { dir, name }),
            },
        },
    }
}

/// Finds the entity that the entry `rel` of the manifest at `manifest`
/// points at, or says what is missing.
pub fn resolve_entity(manifest: &str, rel: &str) -> (r: Result<Entity, ResolveError>)
    ensures
        match r {
            Ok(entity) => resolve(manifest@, rel@) == Ok::<EntityView, ResolveError>(entity@),
            Err(e) => resolve(manifest@, rel@) == Err::<EntityView, ResolveError>(e),
        },
{
    match parent(manifest) {
        None => Err(ResolveError::NoManifestDir),
        Some(home) => {
            let target = join(home.as_str(), rel);
            match parent(target.as_str()) {
                None => Err(ResolveError::NoEntityDir),
                Some(dir) => match file_name(dir.as_str()) {
                    None => Err(ResolveError::NoEntityName),
                    Some(name) => Ok(Entity { dir, name }),
                },
            }
        },
    }
}

} // verus!
