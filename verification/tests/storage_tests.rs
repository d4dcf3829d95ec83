use quickshare::models::StoredFile;
use quickshare::storage::StorageService;

fn record(id: &str, name: &str) -> StoredFile {
    StoredFile {
        file_id: id.to_string(),
        filename: name.to_string(),
        download_url: format!("/download/{}", id),
        expires_at: "2099-01-01T00:00:00Z".to_string(),
        uploaded_at: "2024-05-06T07:08:09Z".to_string(),
    }
}

#[test]
fn save_then_load_round_trips_field_for_field() {
    let list = vec![record("abc", "report.pdf"), record("xyz", "notes.txt")];
    let mut storage = StorageService::new();
    storage.save_files(&list);
    assert_eq!(storage.load_files(), list);
}

#[test]
fn round_trip_keeps_awkward_characters() {
    let mut tricky = record("id-1", "");
    tricky.filename = "a \"quoted\" name \\ with back\u{e9}slashes, commas}] and \u{65e5}\u{672c}".to_string();
    tricky.download_url = "/download/id-1?x=\"y\"".to_string();
    let list = vec![tricky, record("id-2", "plain.txt")];
    let mut storage = StorageService::new();
    storage.save_files(&list);
    assert_eq!(storage.load_files(), list);
}

#[test]
fn round_trip_of_the_empty_list() {
    let mut storage = StorageService::new();
    storage.save_files(&Vec::new());
    assert_eq!(storage.raw_value().as_deref(), Some("[]"));
    assert!(storage.load_files().is_empty());
}

#[test]
fn the_persisted_text_is_the_documented_shape() {
    let list = vec![record("abc", "report.pdf")];
    let mut storage = StorageService::new();
    storage.save_files(&list);
    let expected = "[{\"file_id\":\"abc\",\"filename\":\"report.pdf\",\"download_url\":\"/download/abc\",\"expires_at\":\"2099-01-01T00:00:00Z\",\"uploaded_at\":\"2024-05-06T07:08:09Z\"}]";
    assert_eq!(storage.raw_value().as_deref(), Some(expected));
}

#[test]
fn an_absent_value_loads_as_empty() {
    let storage = StorageService::from_value(None);
    assert!(storage.load_files().is_empty());
}

#[test]
fn a_corrupt_value_loads_as_empty() {
    for bad in [
        "",
        "not json at all",
        "{\"file_id\":\"a\"}",
        "[{\"file_id\":\"a\"}]",
        "[{\"filename\":\"a\",\"file_id\":\"b\",\"download_url\":\"c\",\"expires_at\":\"d\",\"uploaded_at\":\"e\"}]",
        "[{\"file_id\":\"a\",\"filename\":\"b\",\"download_url\":\"c\",\"expires_at\":\"d\",\"uploaded_at\":\"e\"}] ",
        "[{\"file_id\":\"a\",\"filename\":\"b\",\"download_url\":\"c\",\"expires_at\":\"d\",\"uploaded_at\":\"e\"}",
    ] {
        let storage = StorageService::from_value(Some(bad.to_string()));
        assert!(storage.load_files().is_empty(), "should reject: {bad}");
    }
}

#[test]
fn clear_files_erases_the_value() {
    let mut storage = StorageService::new();
    storage.save_files(&vec![record("abc", "report.pdf")]);
    assert!(storage.raw_value().is_some());
    storage.clear_files();
    assert!(storage.raw_value().is_none());
    assert!(storage.load_files().is_empty());
}
