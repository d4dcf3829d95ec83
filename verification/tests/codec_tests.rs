use quickshare::codec::{decode_files, encode_files};
use quickshare::models::StoredFile;

fn record(id: &str, name: &str) -> StoredFile {
    StoredFile {
        file_id: id.to_string(),
        filename: name.to_string(),
        download_url: format!("/download/{}", id),
        expires_at: "2099-01-01T00:00:00Z".to_string(),
        uploaded_at: "2024-05-06T07:08:09Z".to_string(),
    }
}

#[test]
fn decode_reads_a_hand_written_value() {
    let text = "[{\"file_id\":\"abc\",\"filename\":\"report.pdf\",\"download_url\":\"/download/abc\",\"expires_at\":\"2099-01-01T00:00:00Z\",\"uploaded_at\":\"2024-05-06T07:08:09Z\"}]";
    let decoded = decode_files(text).expect("should decode");
    assert_eq!(decoded, vec![record("abc", "report.pdf")]);
}

#[test]
fn quotes_and_backslashes_are_escaped_in_the_text() {
    let mut f = record("q", "");
    f.filename = "a\"b\\c".to_string();
    let text = encode_files(&vec![f.clone()]);
    assert!(text.contains("\"filename\":\"a\\\"b\\\\c\""));
    assert_eq!(decode_files(&text).expect("should decode"), vec![f]);
}

#[test]
fn decode_rejects_what_the_encoder_never_writes() {
    assert!(decode_files("").is_none());
    assert!(decode_files("[").is_none());
    assert!(decode_files("{}").is_none());
    assert!(decode_files("[ ]").is_none());
    assert!(decode_files("[{\"file_id\":\"a\"}]").is_none());
    // an unescaped quote cannot end a value early without breaking the shape
    assert!(decode_files("[{\"file_id\":\"a\"b\"}]").is_none());
}

#[test]
fn several_records_come_back_in_order() {
    let list = vec![record("1", "one"), record("2", "two"), record("3", "three")];
    let text = encode_files(&list);
    assert_eq!(decode_files(&text).expect("should decode"), list);
}
