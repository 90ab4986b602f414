use texture_manager::data_url::{icon_editor_png_data_url, png_data_url_payload, png_path_to_data_url};
use texture_manager::errors::AppError;

#[test]
fn data_url_carries_standard_base64() {
    assert_eq!(png_path_to_data_url(b"Man"), "data:image/png;base64,TWFu");
    assert_eq!(png_path_to_data_url(b"Ma"), "data:image/png;base64,TWE=");
    assert_eq!(png_path_to_data_url(b"M"), "data:image/png;base64,TQ==");
    assert_eq!(png_path_to_data_url(b""), "data:image/png;base64,");
    assert_eq!(icon_editor_png_data_url(&[0xff, 0xfe, 0x3e]), "data:image/png;base64,//4+");
}

#[test]
fn data_url_reads_back_its_bytes() {
    let bytes: Vec<u8> = (0u8..=255).collect();
    let url = png_path_to_data_url(&bytes);
    assert_eq!(png_data_url_payload(&url), Ok(bytes));
}

#[test]
fn malformed_data_urls_are_parse_errors() {
    assert_eq!(
        png_data_url_payload("no comma here"),
        Err(AppError::ParseError("invalid png data url".to_string()))
    );
    match png_data_url_payload("data:image/png;base64,QR==") {
        Err(AppError::ParseError(m)) => assert!(m.starts_with("failed to decode png data: ")),
        other => panic!("unexpected {other:?}"),
    }
    match png_data_url_payload("data:image/png;base64,TQ") {
        Err(AppError::ParseError(m)) => assert!(m.starts_with("failed to decode png data: ")),
        other => panic!("unexpected {other:?}"),
    }
}
