//! What is read out of PE images: the names of the modules that an image
//! imports, and the redirections of the API Set schema.
//!
//! The images are decoded by `pelite` and `nt_apiset`. What these return for
//! given bytes also depends on where in memory the bytes lie, since `pelite`
//! refuses data that is not aligned. The two functions that call them
//! therefore promise nothing about their results; the library's rules are
//! stated over the results, whatever they are.

use vstd::prelude::*;
use nt_apiset::ApiSetMap;
use pelite::pe64::{Pe, PeFile};

verus! {

/// What decoding the import directory of an image gave.
pub enum PeImports {
    /// The bytes are not a 64-bit PE image.
    NotAnImage,
    /// The image has no import directory that can be decoded.
    NoImports,
    /// The names of the imported modules, in the order of the import
    /// directory; `None` for a name that cannot be decoded.
    Names(Vec<Option<String>>),
}

/// What looking up a name in the API Set schema gave.
pub enum ApiSetLookup {
    /// The bytes are not an image with an API Set schema.
    NoSchema,
    /// The schema has no entry of that name.
    NoEntry,
    /// The entry or its redirection cannot be decoded.
    Corrupt,
    /// The entry has no redirection.
    NoValue,
    /// The module that the entry's first redirection names, and whether the
    /// schema stores that name as an empty one.
    Target(String, bool),
}

/// Whether a name can be looked up in an API Set schema: it is not empty
/// and made of lower-case ASCII letters, digits and hyphens.
pub open spec fn api_set_key(name: Seq<char>) -> bool {
    name.len() > 0 && forall|i: int| 0 <= i < name.len() ==> api_set_key_char(#[trigger] name[i])
}

/// Whether a character may stand in the name of an API Set.
pub open spec fn api_set_key_char(c: char) -> bool {
    ('a' <= c && c <= 'z') || ('0' <= c && c <= '9') || c == '-'
}

/// `PeFile::from_bytes`, `Pe::imports` and `Desc::dll_name` of `pelite`:
/// decodes the import directory of an image. Nothing is promised of the
/// outcome.
#[verifier::external_body]
pub(crate) fn pe_import_names(image: &[u8]) -> (imports: PeImports) {
    let Ok(pe) = PeFile::from_bytes(image) else { return PeImports::NotAnImage };
    let Ok(imports) = pe.imports() else { return PeImports::NoImports };
    PeImports::Names(imports.into_iter().map(|d| d.dll_name().ok().map(|n| n.to_string())).collect())
}

/// The size of the DOS header with which every image begins.
pub const IMAGE_DOS_HEADER_SIZE: usize = 64;

/// `PeFile::from_bytes` of `pelite` and `ApiSetMap::try_from_pe64` of
/// `nt_apiset`: whether the bytes are an image that holds an API Set schema.
/// `PeFile::from_bytes` first of all refuses bytes that are too few to hold
/// the DOS header of an image, wherever in memory they lie. Nothing else is
/// promised of the outcome.
#[verifier::external_body]
pub(crate) fn api_set_schema_loads(schema: &[u8]) -> (loads: bool)
    ensures
        loads ==> schema@.len() >= IMAGE_DOS_HEADER_SIZE,
{
    match PeFile::from_bytes(schema) {
        Ok(pe) => ApiSetMap::try_from_pe64(pe).is_ok(),
        Err(_) => false,
    }
}

/// `ApiSetMap::find_namespace_entry`, `ApiSetNamespaceEntry::value_entries`
/// and `ApiSetValueEntry::value` of `nt_apiset`: looks up a name in the
/// schema and hands out its first redirection. The outside lookup asserts
/// that the name is one that a schema can hold. Nothing is promised of the
/// outcome.
#[verifier::external_body]
pub(crate) fn api_set_lookup(schema: &[u8], name: &str) -> (lookup: ApiSetLookup)
    requires
        api_set_key(name@),
{
    let Ok(pe) = PeFile::from_bytes(schema) else { return ApiSetLookup::NoSchema };
    let Ok(map) = ApiSetMap::try_from_pe64(pe) else { return ApiSetLookup::NoSchema };
    let Some(Ok(entry)) = map.find_namespace_entry(name) else { return ApiSetLookup::NoEntry };
    let Ok(mut values) = entry.value_entries() else { return ApiSetLookup::Corrupt };
    let Some(value) = values.next() else { return ApiSetLookup::NoValue };
    let Ok(target) = value.value() else { return ApiSetLookup::Corrupt };
    ApiSetLookup::Target(target.to_string_lossy(), target.is_empty())
}

} // verus!
