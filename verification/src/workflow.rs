//! The decisions of the upload, download-existence and validation
//! workflows.  The application shell performs the requests; these functions
//! take what came back as plain values, judge it, and drive the state
//! through the reducer.

use vstd::prelude::*;
use crate::codec::spec_encode;
use crate::models::{ApiError, FileV, StoredFile, UploadResponse, spec_message, view_files};
use crate::storage::StorageService;
use crate::store::{FilesStore, FilesStoreAction, StoreV};

verus! {

/// The remote client's decision logic; the requests themselves stay with
/// the application shell.
pub struct ApiClient;

/// The records whose existence check succeeded, in their order: record `i`
/// stays exactly when flag `i` is set.
pub open spec fn spec_validate(fs: Seq<FileV>, present: Seq<bool>) -> Seq<FileV>
    decreases fs.len(),
{
    if fs.len() == 0 {
        Seq::empty()
    } else {
        let rest = spec_validate(fs.drop_last(), present.drop_last());
        if present[fs.len() - 1] {
            rest + seq![fs.last()]
        } else {
            rest
        }
    }
}

impl ApiClient {
    /// Whether a file exists on the server, judged from what its download
    /// request came back with: the reply's status code, or nothing when the
    /// transport failed.  True exactly for a success status.
    pub fn check_file_exists(status: Option<u16>) -> (r: bool)
        ensures
            r == (match status {
                Some(c) => 200 <= c < 300,
                None => false,
            }),
    {
        match status {
            Some(c) => 200 <= c && c < 300,
            None => false,
        }
    }

    /// The records confirmed present, judged record by record from the
    /// existence answers, relative order preserved.
    #[verifier::loop_isolation(false)]
    pub fn validate_files(files: Vec<StoredFile>, present: &Vec<bool>) -> (r: Vec<StoredFile>)
        requires
            files@.len() == present@.len(),
        ensures
            view_files(r@) == spec_validate(view_files(files@), present@),
    {
        let mut kept: Vec<StoredFile> = Vec::new();
        proof {
            assert(view_files(kept@) =~= Seq::<FileV>::empty());
            assert(view_files(files@).take(0) =~= Seq::<FileV>::empty());
        }
        let mut i: usize = 0;
        while i < files.len()
            invariant
                i <= files@.len(),
                view_files(kept@) == spec_validate(
                    view_files(files@).take(i as int),
                    present@.take(i as int),
                ),
            decreases files@.len() - i,
        {
            let ghost seen = view_files(files@).take(i as int);
            let ghost x = files@[i as int]@;
            if present[i] {
                kept.push(files[i].duplicate());
            }
            proof {
                assert(view_files(files@).take(i + 1).drop_last() =~= seen);
                assert(present@.take(i + 1).drop_last() =~= present@.take(i as int));
                assert(view_files(files@).take(i + 1).last() == x);
                if present@[i as int] {
                    assert(view_files(kept@) =~= spec_validate(seen, present@.take(i as int))
                        + seq![x]);
                }
                assert(view_files(kept@) == spec_validate(
                    view_files(files@).take(i + 1),
                    present@.take(i + 1),
                ));
            }
            i = i + 1;
        }
        proof {
            assert(view_files(files@).take(files@.len() as int) =~= view_files(files@));
            assert(present@.take(present@.len() as int) =~= present@);
        }
        kept
    }

    /// The outcome of an upload, judged from the reply: a success status
    /// hands the decoded body on, a body that would not decode becomes a
    /// decoding error with its description, and any other status becomes a
    /// server error carrying that code.
    pub fn classify_upload_response(status: u16, body: Result<UploadResponse, String>) -> (r:
        Result<UploadResponse, ApiError>)
        ensures
            200 <= status < 300 ==> r == (match body {
                Ok(u) => Ok::<UploadResponse, ApiError>(u),
                Err(m) => Err::<UploadResponse, ApiError>(ApiError::JsonParse(m)),
            }),
            !(200 <= status < 300) ==> r == Err::<UploadResponse, ApiError>(
                ApiError::ServerError(status),
            ),
    {
        if 200 <= status && status < 300 {
            match body {
                Ok(u) => Ok(u),
                Err(m) => Err(ApiError::JsonParse(m)),
            }
        } else {
            Err(ApiError::ServerError(status))
        }
    }
}

/// Marks an upload as started: the loading flag set, the error slot
/// cleared, everything else untouched.
pub fn begin_upload(state: FilesStore, storage: &mut StorageService) -> (r: FilesStore)
    ensures
        r@ == (StoreV { loading: true, error: None, ..state@ }),
        final(storage)@ == old(storage)@,
{
    let s1 = state.reduce(FilesStoreAction::SetLoading(true), storage);
    s1.reduce(FilesStoreAction::SetError(None), storage)
}

/// Ends an upload with its outcome.  A success builds the new record from
/// the reply, the client-side file name and the client-assigned upload
/// time, prepends it and persists the new list; a failure stores the
/// error's message and leaves list and persisted value alone.  Either way
/// the loading flag ends cleared.
pub fn finish_upload(
    state: FilesStore,
    storage: &mut StorageService,
    outcome: Result<UploadResponse, ApiError>,
    filename: String,
    uploaded_at: String,
) -> (r: FilesStore)
    ensures
        r@.loading == false,
        r@.downloading == state@.downloading,
        r@.validating == state@.validating,
        match outcome {
            Ok(resp) => {
                &&& r@.files == seq![
                    FileV {
                        file_id: resp@.file_id,
                        filename: filename@,
                        download_url: resp@.download_url,
                        expires_at: resp@.expires_at,
                        uploaded_at: uploaded_at@,
                    },
                ] + state@.files
                &&& final(storage)@ == Some(spec_encode(r@.files))
                &&& r@.error == state@.error
            },
            Err(e) => {
                &&& r@.files == state@.files
                &&& r@.error == Some(spec_message(e@))
                &&& final(storage)@ == old(storage)@
            },
        },
{
    match outcome {
        Ok(resp) => {
            let record = StoredFile::from_upload(resp, filename, uploaded_at);
            let s1 = state.reduce(FilesStoreAction::AddFile(record), storage);
            s1.reduce(FilesStoreAction::SetLoading(false), storage)
        },
        Err(e) => {
            let message = e.message();
            let s1 = state.reduce(FilesStoreAction::SetError(Some(message)), storage);
            s1.reduce(FilesStoreAction::SetLoading(false), storage)
        },
    }
}

/// Whether startup validation has any stored record to check.
pub fn needs_validation(state: &FilesStore) -> (r: bool)
    ensures
        r == (state@.files.len() > 0),
{
    state.files.len() > 0
}

/// Ends startup validation: the list is replaced by the records confirmed
/// present, the new list is persisted, and the validating phase is over.
pub fn finish_validation(state: FilesStore, storage: &mut StorageService, valid: Vec<
    StoredFile,
>) -> (r: FilesStore)
    ensures
        r@.files == view_files(valid@),
        final(storage)@ == Some(spec_encode(view_files(valid@))),
        r@.validating == false,
        r@.loading == state@.loading,
        r@.error == state@.error,
        r@.downloading == state@.downloading,
{
    let s1 = state.reduce(FilesStoreAction::SetValidatedFiles(valid), storage);
    s1.reduce(FilesStoreAction::SetValidating(false), storage)
}

} // verus!
