//! Entities: business objects with an identity, kept apart from their storage.
use vstd::prelude::*;

verus! {

/// A business object with an identity and a table.
pub trait Entity: Clone {
    /// Unique identifier of the entity.
    fn id(&self) -> String;

    /// The table the entity is kept in.
    fn table_name() -> &'static str;

    /// The primary key column (`id` by default).
    fn primary_key() -> &'static str {
        "id"
    }

    /// Checks the entity before it is saved.
    fn validate(&self) -> Result<(), Vec<String>> {
        Ok(())
    }
}

} // verus!
