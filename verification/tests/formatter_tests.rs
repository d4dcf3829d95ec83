use quickshare::digits::dec_string;
use quickshare::formatters::{format_bytes, format_datetime, format_expires};
use quickshare::models::ApiError;

#[test]
fn format_bytes_below_one_kibibyte() {
    assert_eq!(format_bytes(0), "0 bytes");
    assert_eq!(format_bytes(1), "1 bytes");
    assert_eq!(format_bytes(1023), "1023 bytes");
}

#[test]
fn format_bytes_with_units_and_two_places() {
    assert_eq!(format_bytes(1024), "1.00 KB");
    assert_eq!(format_bytes(1536), "1.50 KB");
    assert_eq!(format_bytes(10 * 1024 + 256), "10.25 KB");
    assert_eq!(format_bytes(1024 * 1024), "1.00 MB");
    assert_eq!(format_bytes(5 * 1024 * 1024 / 2), "2.50 MB");
    assert_eq!(format_bytes(1024 * 1024 * 1024), "1.00 GB");
    assert_eq!(format_bytes(3 * 1024 * 1024 * 1024 / 2), "1.50 GB");
}

#[test]
fn format_bytes_rounds_to_the_nearest_hundredth() {
    // 1100 / 1024 = 1.0742...
    assert_eq!(format_bytes(1100), "1.07 KB");
    // 2047 / 1024 = 1.9990...
    assert_eq!(format_bytes(2047), "2.00 KB");
}

#[test]
fn format_expires_takes_the_date_part() {
    assert_eq!(format_expires("2099-01-01T00:00:00Z"), "2099-01-01");
    assert_eq!(format_expires("2099-01-01"), "2099-01-01");
    assert_eq!(format_expires(""), "");
}

#[test]
fn format_datetime_shows_date_and_time() {
    assert_eq!(
        format_datetime("2024-05-06T07:08:09.123Z"),
        "2024-05-06 \u{e0}s 07:08:09"
    );
    assert_eq!(
        format_datetime("2024-05-06T07:08:09"),
        "2024-05-06 \u{e0}s 07:08:09"
    );
    assert_eq!(format_datetime("2024-05-06"), "2024-05-06");
}

#[test]
fn dec_string_renders_decimals() {
    assert_eq!(dec_string(0), "0");
    assert_eq!(dec_string(7), "7");
    assert_eq!(dec_string(500), "500");
    assert_eq!(dec_string(18446744073709551615), "18446744073709551615");
}

#[test]
fn each_error_variant_has_its_message() {
    assert_eq!(
        ApiError::FormDataCreation.message(),
        "could not create the upload form data"
    );
    assert_eq!(
        ApiError::FormDataAppend.message(),
        "could not attach the file to the upload form"
    );
    assert_eq!(
        ApiError::RequestBuild("bad".to_string()).message(),
        "could not build the upload request: bad"
    );
    assert_eq!(
        ApiError::NetworkError("down".to_string()).message(),
        "network error: down"
    );
    assert_eq!(
        ApiError::JsonParse("eof".to_string()).message(),
        "could not decode the server response: eof"
    );
    assert_eq!(
        ApiError::ServerError(500).message(),
        "server error (status 500)"
    );
    assert_eq!(
        ApiError::ServerError(404).message(),
        "server error (status 404)"
    );
}
