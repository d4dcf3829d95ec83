//! The persistence adapter.  The browser keeps the encoded file list under
//! one fixed storage key; this module models that key as a single optional
//! text value and does all the encoding and decoding.  The application shell
//! reads the real stored value once at startup, hands it over, and writes
//! the value back after every change.

use vstd::prelude::*;
use crate::codec::{decode_files, encode_files, lemma_decode_encode, spec_encode, spec_parse};
use crate::models::{FileV, StoredFile, view_files};

verus! {

/// The single persisted value: nothing, or the text stored under the key.
pub struct StorageService {
    value: Option<String>,
}

impl View for StorageService {
    type V = Option<Seq<char>>;

    closed spec fn view(&self) -> Option<Seq<char>> {
        match self.value {
            None => None,
            Some(s) => Some(s@),
        }
    }
}

/// The list that reading the stored value yields: the decoded list when the
/// value is present and decodes, the empty list when the value is absent or
/// holds anything else.
pub open spec fn load_spec(v: Option<Seq<char>>) -> Seq<FileV> {
    match v {
        None => Seq::empty(),
        Some(s) => match spec_parse(s) {
            None => Seq::empty(),
            Some(fs) => fs,
        },
    }
}

impl StorageService {
    /// An empty store, as when the key was never written.
    pub fn new() -> (r: StorageService)
        ensures
            r@ is None,
    {
        StorageService { value: None }
    }

    /// A store holding the raw value found under the key.
    pub fn from_value(value: Option<String>) -> (r: StorageService)
        ensures
            r@ == (match value {
                None => None::<Seq<char>>,
                Some(s) => Some(s@),
            }),
    {
        StorageService { value }
    }

    /// The raw value as it stands, for writing back under the key.
    pub fn raw_value(&self) -> (r: &Option<String>)
        ensures
            r is Some <==> self@ is Some,
            r matches Some(s) ==> self@ == Some(s@),
    {
        &self.value
    }

    /// The stored list: empty when the value is absent or does not decode.
    pub fn load_files(&self) -> (r: Vec<StoredFile>)
        ensures
            view_files(r@) == load_spec(self@),
    {
        let empty_case: Vec<StoredFile> = Vec::new();
        proof {
            assert(view_files(empty_case@) =~= Seq::<FileV>::empty());
        }
        match &self.value {
            None => empty_case,
            Some(text) => match decode_files(text.as_str()) {
                None => empty_case,
                Some(v) => v,
            },
        }
    }

    /// Overwrites the stored value with the encoding of the whole list.
    pub fn save_files(&mut self, files: &Vec<StoredFile>)
        ensures
            final(self)@ == Some(spec_encode(view_files(files@))),
    {
        self.value = Some(encode_files(files));
    }

    /// Removes the stored value entirely.
    pub fn clear_files(&mut self)
        ensures
            final(self)@ is None,
    {
        self.value = None;
    }
}

/// Saving a list and loading it back yields the same list, field for field,
/// whatever the records hold.
pub proof fn lemma_save_then_load(fs: Seq<FileV>)
    ensures
        load_spec(Some(spec_encode(fs))) == fs,
{
    lemma_decode_encode(fs);
}

} // verus!
