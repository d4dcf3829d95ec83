use quickshare::models::StoredFile;
use quickshare::storage::StorageService;
use quickshare::store::{FilesStore, FilesStoreAction};

fn record(id: &str, name: &str) -> StoredFile {
    StoredFile {
        file_id: id.to_string(),
        filename: name.to_string(),
        download_url: format!("/download/{}", id),
        expires_at: "2099-01-01T00:00:00Z".to_string(),
        uploaded_at: "2024-05-06T07:08:09Z".to_string(),
    }
}

#[test]
fn add_files_newest_first_and_persisted() {
    let mut storage = StorageService::new();
    let state = FilesStore::default();
    let a = record("a", "first.txt");
    let b = record("b", "second.txt");
    let state = state.reduce(FilesStoreAction::AddFile(a.clone()), &mut storage);
    assert_eq!(state.files, vec![a.clone()]);
    let state = state.reduce(FilesStoreAction::AddFile(b.clone()), &mut storage);
    assert_eq!(state.files, vec![b.clone(), a.clone()]);
    // each add rewrites the persisted list to the new order
    assert_eq!(storage.load_files(), vec![b, a]);
}

#[test]
fn remove_file_drops_all_matching_records() {
    let mut storage = StorageService::new();
    let state = FilesStore::default();
    let state = state.reduce(FilesStoreAction::AddFile(record("a", "one")), &mut storage);
    let state = state.reduce(FilesStoreAction::AddFile(record("b", "two")), &mut storage);
    let state = state.reduce(FilesStoreAction::AddFile(record("a", "again")), &mut storage);
    let state = state.reduce(FilesStoreAction::RemoveFile("a".to_string()), &mut storage);
    assert_eq!(state.files.len(), 1);
    assert_eq!(state.files[0].file_id, "b");
    // a reload never surfaces a record with the removed id
    let reloaded = storage.load_files();
    assert!(reloaded.iter().all(|f| f.file_id != "a"));
    assert_eq!(reloaded, state.files);
}

#[test]
fn clear_all_then_reload_is_empty() {
    let mut storage = StorageService::new();
    let state = FilesStore::default();
    let state = state.reduce(FilesStoreAction::AddFile(record("a", "one")), &mut storage);
    let state = state.reduce(FilesStoreAction::ClearAll, &mut storage);
    assert!(state.files.is_empty());
    assert!(storage.raw_value().is_none());
    assert!(storage.load_files().is_empty());
}

#[test]
fn start_download_is_idempotent() {
    let mut storage = StorageService::new();
    let state = FilesStore::default();
    let state = state.reduce(FilesStoreAction::StartDownload("x".to_string()), &mut storage);
    let state = state.reduce(FilesStoreAction::StartDownload("x".to_string()), &mut storage);
    let count = state.downloading_files.iter().filter(|id| *id == "x").count();
    assert_eq!(count, 1);
    assert_eq!(state.downloading_files, vec!["x".to_string()]);
}

#[test]
fn end_download_of_absent_id_is_a_no_op() {
    let mut storage = StorageService::new();
    let state = FilesStore::default();
    let state = state.reduce(FilesStoreAction::StartDownload("x".to_string()), &mut storage);
    let before = state.clone();
    let state = state.reduce(FilesStoreAction::EndDownload("y".to_string()), &mut storage);
    assert_eq!(state, before);
    let state = state.reduce(FilesStoreAction::EndDownload("x".to_string()), &mut storage);
    assert!(state.downloading_files.is_empty());
}

#[test]
fn loading_error_and_validating_flags() {
    let mut storage = StorageService::new();
    let state = FilesStore::default();
    assert!(!state.loading);
    assert!(state.error.is_none());
    assert!(!state.validating);
    let state = state.reduce(FilesStoreAction::SetLoading(true), &mut storage);
    assert!(state.loading);
    let state = state.reduce(FilesStoreAction::SetError(Some("boom".to_string())), &mut storage);
    assert_eq!(state.error.as_deref(), Some("boom"));
    let state = state.reduce(FilesStoreAction::SetError(None), &mut storage);
    assert!(state.error.is_none());
    let state = state.reduce(FilesStoreAction::SetValidating(true), &mut storage);
    assert!(state.validating);
}

#[test]
fn set_validated_files_replaces_and_persists() {
    let mut storage = StorageService::new();
    let state = FilesStore::default();
    let state = state.reduce(FilesStoreAction::AddFile(record("a", "one")), &mut storage);
    let state = state.reduce(FilesStoreAction::AddFile(record("b", "two")), &mut storage);
    let survivors = vec![record("b", "two")];
    let state = state.reduce(
        FilesStoreAction::SetValidatedFiles(survivors.clone()),
        &mut storage,
    );
    assert_eq!(state.files, survivors);
    assert_eq!(storage.load_files(), survivors);
}

#[test]
fn load_starts_from_the_persisted_list() {
    let mut storage = StorageService::new();
    let state = FilesStore::default();
    let _ = state.reduce(FilesStoreAction::AddFile(record("a", "one")), &mut storage);
    let fresh = FilesStore::load(&storage);
    assert_eq!(fresh.files.len(), 1);
    assert_eq!(fresh.files[0].file_id, "a");
    assert!(!fresh.loading);
    assert!(fresh.error.is_none());
    assert!(fresh.downloading_files.is_empty());
    assert!(fresh.validating);
}
