use infinitystreamer::api_error::ApiError;
use infinitystreamer::models::dimension::Dimension;
use infinitystreamer::text::{fill_template, format_i64, format_i64_padded};

#[test]
fn api_error_keeps_status_and_message() {
    let err = ApiError::new(404, "Track not found");
    assert_eq!(err.status, 404);
    assert_eq!(err.to_string(), "Track not found");
}

#[test]
fn api_error_status_codes() {
    assert_eq!(ApiError::new(404, "x").status_code(), 404);
    assert_eq!(ApiError::new(100, "x").status_code(), 100);
    assert_eq!(ApiError::new(999, "x").status_code(), 999);
    assert_eq!(ApiError::new(99, "x").status_code(), 500);
    assert_eq!(ApiError::new(1000, "x").status_code(), 500);
    assert_eq!(ApiError::new(0, "x").status_code(), 500);
}

#[test]
fn api_error_from_parse_error() {
    let parse_error = chrono::DateTime::parse_from_rfc3339("not a date").unwrap_err();
    let err = ApiError::from_parse_error(parse_error);
    assert_eq!(err.status, 400);
    assert_eq!(err.to_string(), "Invalid time format");
}

#[test]
fn dimension_text() {
    let dimension = Dimension::new(1920, 1080);
    assert_eq!(dimension.width, 1920);
    assert_eq!(dimension.height, 1080);
    assert_eq!(dimension.to_string(), "1920x1080");
    assert_eq!(Dimension::new(0, 7).to_string(), "0x7");
}

#[test]
fn decimal_texts() {
    assert_eq!(format_i64(0), "0");
    assert_eq!(format_i64(-42), "-42");
    assert_eq!(format_i64(1234567890), "1234567890");
    assert_eq!(format_i64(i64::MAX), i64::MAX.to_string());
    assert_eq!(format_i64(i64::MIN), i64::MIN.to_string());
}

#[test]
fn zero_padded_texts() {
    assert_eq!(format_i64_padded(5, 2), format!("{:0>2}", 5));
    assert_eq!(format_i64_padded(123, 2), format!("{:0>2}", 123));
    assert_eq!(format_i64_padded(-5, 3), format!("{:0>3}", -5));
    assert_eq!(format_i64_padded(7, 0), "7");
}

#[test]
fn template_filling() {
    let args = vec!["X".to_string(), "Y".to_string()];
    assert_eq!(fill_template("a{}b{{c}}d{}", &args), "aXb{c}dY");
    assert_eq!(fill_template("{}{}{}", &args), "XY");
    assert_eq!(fill_template("plain text", &args), "plain text");
    assert_eq!(fill_template("ünï{}cödé", &args), "ünïXcödé");
    assert_eq!(fill_template("{ lone } braces", &args), "{ lone } braces");
    assert_eq!(fill_template("", &args), "");
}

#[test]
fn decimal_text_reads_back() {
    for n in [0i64, 7, 10, 99, 100, 65536, 1_000_000_007, i64::MAX] {
        let text = format_i64(n);
        assert!(text.chars().all(|c| c.is_ascii_digit()));
        assert!(n == 0 || !text.starts_with('0'));
        assert_eq!(text.parse::<i64>().unwrap(), n);
    }
}
