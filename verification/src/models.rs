//! The data model: stored-file records, the server's upload reply, and the
//! typed error of the remote client.

use vstd::prelude::*;
use crate::digits::{push_dec, spec_dec};

verus! {

/// Mathematical value of a [`StoredFile`]: its five fields as character
/// sequences.
#[verifier::ext_equal]
pub struct FileV {
    pub file_id: Seq<char>,
    pub filename: Seq<char>,
    pub download_url: Seq<char>,
    pub expires_at: Seq<char>,
    pub uploaded_at: Seq<char>,
}

/// A record of a successfully uploaded file.  `file_id` is the opaque
/// server-issued identifier; `uploaded_at` is set client-side when the
/// upload completes.  Within the client list, `file_id` identifies a record
/// and the list is kept newest first.
#[derive(Clone, Debug, PartialEq)]
pub struct StoredFile {
    pub file_id: String,
    pub filename: String,
    pub download_url: String,
    pub expires_at: String,
    pub uploaded_at: String,
}

impl View for StoredFile {
    type V = FileV;

    open spec fn view(&self) -> FileV {
        FileV {
            file_id: self.file_id@,
            filename: self.filename@,
            download_url: self.download_url@,
            expires_at: self.expires_at@,
            uploaded_at: self.uploaded_at@,
        }
    }
}

/// The file list of a [`Vec<StoredFile>`] as a sequence of record values.
pub open spec fn view_files(s: Seq<StoredFile>) -> Seq<FileV> {
    s.map_values(|f: StoredFile| f@)
}

/// Mathematical value of an [`UploadResponse`].
#[verifier::ext_equal]
pub struct UploadResponseV {
    pub file_id: Seq<char>,
    pub download_url: Seq<char>,
    pub expires_at: Seq<char>,
}

/// The server's reply to an upload: consumed once to build a [`StoredFile`].
#[derive(Clone, Debug, PartialEq)]
pub struct UploadResponse {
    pub file_id: String,
    pub download_url: String,
    pub expires_at: String,
}

impl View for UploadResponse {
    type V = UploadResponseV;

    open spec fn view(&self) -> UploadResponseV {
        UploadResponseV {
            file_id: self.file_id@,
            download_url: self.download_url@,
            expires_at: self.expires_at@,
        }
    }
}

impl StoredFile {
    /// The record built from a successful upload: the server's identifiers,
    /// the client-side file name and the client-assigned upload time.
    pub fn from_upload(response: UploadResponse, filename: String, uploaded_at: String) -> (r:
        StoredFile)
        ensures
            r@ == (FileV {
                file_id: response@.file_id,
                filename: filename@,
                download_url: response@.download_url,
                expires_at: response@.expires_at,
                uploaded_at: uploaded_at@,
            }),
    {
        StoredFile {
            file_id: response.file_id,
            filename,
            download_url: response.download_url,
            expires_at: response.expires_at,
            uploaded_at,
        }
    }

    /// A fresh record with the same field values.
    pub fn duplicate(&self) -> (r: StoredFile)
        ensures
            r@ == self@,
    {
        StoredFile {
            file_id: self.file_id.clone(),
            filename: self.filename.clone(),
            download_url: self.download_url.clone(),
            expires_at: self.expires_at.clone(),
            uploaded_at: self.uploaded_at.clone(),
        }
    }
}

/// Mathematical value of an [`ApiError`].
#[verifier::ext_equal]
pub enum ApiErrorV {
    FormDataCreation,
    FormDataAppend,
    RequestBuild(Seq<char>),
    NetworkError(Seq<char>),
    JsonParse(Seq<char>),
    ServerError(u16),
}

/// A failure of the remote client.  Each variant carries enough context to
/// render a human-readable message: the underlying description for build,
/// transport and decoding failures, the numeric status code for a
/// non-success reply.
#[derive(Clone, Debug, PartialEq)]
pub enum ApiError {
    /// The multipart form body could not be constructed.
    FormDataCreation,
    /// The file could not be attached to the form body.
    FormDataAppend,
    /// The request could not be assembled.
    RequestBuild(String),
    /// The transport failed before a reply arrived.
    NetworkError(String),
    /// The success body could not be decoded as an upload response.
    JsonParse(String),
    /// The server replied with the carried non-success status code.
    ServerError(u16),
}

impl View for ApiError {
    type V = ApiErrorV;

    open spec fn view(&self) -> ApiErrorV {
        match self {
            ApiError::FormDataCreation => ApiErrorV::FormDataCreation,
            ApiError::FormDataAppend => ApiErrorV::FormDataAppend,
            ApiError::RequestBuild(m) => ApiErrorV::RequestBuild(m@),
            ApiError::NetworkError(m) => ApiErrorV::NetworkError(m@),
            ApiError::JsonParse(m) => ApiErrorV::JsonParse(m@),
            ApiError::ServerError(c) => ApiErrorV::ServerError(*c),
        }
    }
}

/// The human-readable message of each error value.
pub open spec fn spec_message(e: ApiErrorV) -> Seq<char> {
    match e {
        ApiErrorV::FormDataCreation => "could not create the upload form data"@,
        ApiErrorV::FormDataAppend => "could not attach the file to the upload form"@,
        ApiErrorV::RequestBuild(m) => "could not build the upload request: "@ + m,
        ApiErrorV::NetworkError(m) => "network error: "@ + m,
        ApiErrorV::JsonParse(m) => "could not decode the server response: "@ + m,
        ApiErrorV::ServerError(c) => "server error (status "@ + spec_dec(c as nat) + ")"@,
    }
}

impl ApiError {
    /// The message shown to the user for this error.
    pub fn message(&self) -> (r: String)
        ensures
            r@ == spec_message(self@),
    {
        match self {
            ApiError::FormDataCreation => {
                let mut out = String::new();
                out.append("could not create the upload form data");
                proof {
                    assert(out@ =~= spec_message(self@));
                }
                out
            },
            ApiError::FormDataAppend => {
                let mut out = String::new();
                out.append("could not attach the file to the upload form");
                proof {
                    assert(out@ =~= spec_message(self@));
                }
                out
            },
            ApiError::RequestBuild(m) => {
                let mut out = String::new();
                out.append("could not build the upload request: ");
                out.append(m.as_str());
                proof {
                    assert(out@ =~= spec_message(self@));
                }
                out
            },
            ApiError::NetworkError(m) => {
                let mut out = String::new();
                out.append("network error: ");
                out.append(m.as_str());
                proof {
                    assert(out@ =~= spec_message(self@));
                }
                out
            },
            ApiError::JsonParse(m) => {
                let mut out = String::new();
                out.append("could not decode the server response: ");
                out.append(m.as_str());
                proof {
                    assert(out@ =~= spec_message(self@));
                }
                out
            },
            ApiError::ServerError(c) => {
                let mut out = String::new();
                out.append("server error (status ");
                push_dec(&mut out, *c as u64);
                out.append(")");
                proof {
                    assert(out@ =~= spec_message(self@));
                }
                out
            },
        }
    }
}

} // verus!
