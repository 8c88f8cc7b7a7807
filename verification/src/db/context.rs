//! The stored form of a knowledge-base resource. Reading and writing the
//! rows is done by the caller; this module converts between a row and the
//! resource the context manager holds.
use vstd::prelude::*;

use crate::context::ContextResource as LoadedResource;
use crate::text::{chars_of, string_of};

verus! {

/// A context resource as stored in the `context_resources` table.
#[derive(Debug)]
pub struct ContextResource {
    pub id: String,
    pub name: String,
    pub file_type: String,
    pub file_path: String,
    pub size_bytes: i64,
    pub token_count: i64,
    pub preview: String,
    pub loaded_at: String,
    pub source_folder: String,
}

fn copy(s: &String) -> (r: String)
    ensures
        r@ == s@,
{
    string_of(&chars_of(s.as_str()))
}

impl ContextResource {
    /// The row that stores a loaded resource; sizes and counts are stored
    /// as signed 64-bit integers.
    pub fn from_loaded(resource: &LoadedResource) -> (r: ContextResource)
        ensures
            r.id@ == resource.id@,
            r.name@ == resource.name@,
            r.file_type@ == resource.file_type@,
            r.file_path@ == resource.file_path@,
            r.size_bytes == resource.size_bytes as i64,
            r.token_count == resource.token_count as i64,
            r.preview@ == resource.preview@,
            r.loaded_at@ == resource.loaded_at@,
            r.source_folder@ == resource.source_folder@,
    {
        ContextResource {
            id: copy(&resource.id),
            name: copy(&resource.name),
            file_type: copy(&resource.file_type),
            file_path: copy(&resource.file_path),
            size_bytes: resource.size_bytes as i64,
            token_count: resource.token_count as i64,
            preview: copy(&resource.preview),
            loaded_at: copy(&resource.loaded_at),
            source_folder: copy(&resource.source_folder),
        }
    }

    /// The resource a stored row describes, for restoring it into the
    /// context manager.
    pub fn to_loaded(&self) -> (r: LoadedResource)
        ensures
            r.id@ == self.id@,
            r.name@ == self.name@,
            r.file_type@ == self.file_type@,
            r.file_path@ == self.file_path@,
            r.size_bytes == self.size_bytes as u64,
            r.token_count == self.token_count as usize,
            r.preview@ == self.preview@,
            r.loaded_at@ == self.loaded_at@,
            r.source_folder@ == self.source_folder@,
    {
        LoadedResource {
            id: copy(&self.id),
            name: copy(&self.name),
            file_type: copy(&self.file_type),
            file_path: copy(&self.file_path),
            size_bytes: self.size_bytes as u64,
            token_count: self.token_count as usize,
            preview: copy(&self.preview),
            loaded_at: copy(&self.loaded_at),
            source_folder: copy(&self.source_folder),
        }
    }
}

/// Converting a loaded resource to its row and back gives the same
/// resource, whenever its size and token count fit in a signed 64-bit
/// integer.
pub proof fn law_row_roundtrip(size_bytes: u64, token_count: usize)
    requires
        size_bytes <= i64::MAX,
        token_count <= i64::MAX,
    ensures
        (size_bytes as i64) as u64 == size_bytes,
        (token_count as i64) as usize == token_count,
{
}

} // verus!
