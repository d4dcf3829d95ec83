use quickshare::models::{ApiError, StoredFile, UploadResponse};
use quickshare::storage::StorageService;
use quickshare::store::FilesStore;
use quickshare::workflow::{
    ApiClient, begin_upload, finish_upload, finish_validation, needs_validation,
};

fn record(id: &str, name: &str) -> StoredFile {
    StoredFile {
        file_id: id.to_string(),
        filename: name.to_string(),
        download_url: format!("/download/{}", id),
        expires_at: "2099-01-01T00:00:00Z".to_string(),
        uploaded_at: "2024-05-06T07:08:09Z".to_string(),
    }
}

#[test]
fn upload_success_path() {
    let mut storage = StorageService::new();
    let state = FilesStore::default();
    let state = begin_upload(state, &mut storage);
    assert!(state.loading);
    assert!(state.error.is_none());
    let reply = UploadResponse {
        file_id: "abc".to_string(),
        download_url: "/download/abc".to_string(),
        expires_at: "2099-01-01T00:00:00Z".to_string(),
    };
    let state = finish_upload(
        state,
        &mut storage,
        Ok(reply),
        "report.pdf".to_string(),
        "2024-05-06T07:08:09Z".to_string(),
    );
    assert!(!state.loading);
    assert!(state.error.is_none());
    assert_eq!(state.files[0].file_id, "abc");
    assert_eq!(state.files[0].filename, "report.pdf");
    assert_eq!(state.files[0].download_url, "/download/abc");
    assert_eq!(state.files[0].uploaded_at, "2024-05-06T07:08:09Z");
    assert_eq!(storage.load_files(), state.files);
}

#[test]
fn upload_failure_path() {
    let mut storage = StorageService::new();
    let state = FilesStore::default();
    let state = begin_upload(state, &mut storage);
    let state = finish_upload(
        state,
        &mut storage,
        Err(ApiError::ServerError(500)),
        "report.pdf".to_string(),
        "2024-05-06T07:08:09Z".to_string(),
    );
    assert!(!state.loading);
    let message = state.error.expect("error should be set");
    assert!(message.contains("server error"));
    assert!(message.contains("500"));
    assert!(state.files.is_empty());
    assert!(storage.raw_value().is_none());
}

#[test]
fn classify_upload_response_by_status() {
    let reply = UploadResponse {
        file_id: "abc".to_string(),
        download_url: "/download/abc".to_string(),
        expires_at: "2099-01-01T00:00:00Z".to_string(),
    };
    assert_eq!(
        ApiClient::classify_upload_response(200, Ok(reply.clone())),
        Ok(reply.clone())
    );
    assert_eq!(
        ApiClient::classify_upload_response(204, Err("eof".to_string())),
        Err(ApiError::JsonParse("eof".to_string()))
    );
    assert_eq!(
        ApiClient::classify_upload_response(500, Ok(reply)),
        Err(ApiError::ServerError(500))
    );
    assert_eq!(
        ApiClient::classify_upload_response(404, Err("ignored".to_string())),
        Err(ApiError::ServerError(404))
    );
}

#[test]
fn check_file_exists_only_on_success_statuses() {
    assert!(ApiClient::check_file_exists(Some(200)));
    assert!(ApiClient::check_file_exists(Some(299)));
    assert!(!ApiClient::check_file_exists(Some(199)));
    assert!(!ApiClient::check_file_exists(Some(300)));
    assert!(!ApiClient::check_file_exists(Some(404)));
    assert!(!ApiClient::check_file_exists(None));
}

#[test]
fn validate_files_keeps_confirmed_records_in_order() {
    let x = record("x", "x.txt");
    let y = record("y", "y.txt");
    let kept = ApiClient::validate_files(vec![x.clone(), y], &vec![true, false]);
    assert_eq!(kept, vec![x]);
}

#[test]
fn validate_files_keeps_relative_order_of_survivors() {
    let a = record("a", "a.txt");
    let b = record("b", "b.txt");
    let c = record("c", "c.txt");
    let kept = ApiClient::validate_files(
        vec![a.clone(), b, c.clone()],
        &vec![true, false, true],
    );
    assert_eq!(kept, vec![a, c]);
}

#[test]
fn finish_validation_replaces_list_and_ends_the_phase() {
    let mut storage = StorageService::new();
    let mut state = FilesStore::default();
    state.validating = true;
    state.files = vec![record("a", "a.txt"), record("b", "b.txt")];
    assert!(needs_validation(&state));
    let survivors = vec![record("b", "b.txt")];
    let state = finish_validation(state, &mut storage, survivors.clone());
    assert!(!state.validating);
    assert_eq!(state.files, survivors);
    assert_eq!(storage.load_files(), survivors);
    assert!(!needs_validation(&FilesStore::default()));
}
