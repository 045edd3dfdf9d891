//! What is read of a stored file before it is taken in: the schema version
//! that it names, and what follows from it.

use vstd::prelude::*;

verus! {

/// The schema version of a stored file that names none.
pub fn default_version() -> (version: u8)
    ensures
        version == 1,
{
    1
}

/// The schema version that a stored file names.
#[derive(Debug, Clone, Copy)]
pub struct VersionOnly {
    pub version: u8,
}

/// The schemas that can be loaded.
#[derive(Debug, Clone, Copy, PartialEq, Eq, Structural)]
pub enum StoredSchema {
    /// The first schema: the file is migrated and stored again.
    V1,
    /// The second schema: the file is taken as it is.
    V2,
}

/// The schema that stands behind a version number, if it is one that can be
/// loaded.
pub open spec fn schema_of(version: u8) -> Option<StoredSchema> {
    if version == 1 {
        Some(StoredSchema::V1)
    } else if version == 2 {
        Some(StoredSchema::V2)
    } else {
        None
    }
}

/// The schema of a stored configuration; an error where the version is
/// neither 1 nor 2.
pub fn config_schema(stored: &VersionOnly) -> (schema: Result<StoredSchema, String>)
    ensures
        match schema {
            Ok(found) => schema_of(stored.version) == Some(found),
            Err(message) => schema_of(stored.version) is None && message@
                == "Unsupported config version"@,
        },
{
    if stored.version == 1 {
        Ok(StoredSchema::V1)
    } else if stored.version == 2 {
        Ok(StoredSchema::V2)
    } else {
        Err("Unsupported config version".to_string())
    }
}

/// The schema of stored data; an error where the version is neither 1 nor 2.
pub fn data_schema(stored: &VersionOnly) -> (schema: Result<StoredSchema, String>)
    ensures
        match schema {
            Ok(found) => schema_of(stored.version) == Some(found),
            Err(message) => schema_of(stored.version) is None && message@
                == "Unsupported data version"@,
        },
{
    if stored.version == 1 {
        Ok(StoredSchema::V1)
    } else if stored.version == 2 {
        Ok(StoredSchema::V2)
    } else {
        Err("Unsupported data version".to_string())
    }
}

} // verus!
