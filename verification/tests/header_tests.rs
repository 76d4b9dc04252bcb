use lsp_core::cursor::ByteCursor;
use lsp_core::header::{read_header, HeaderError};

#[test]
fn test_read_header() {
    let input = b"content-length: 208\r\n\r\n";
    let mut reader = ByteCursor::new(input.to_vec());
    let header = read_header(&mut reader).unwrap();
    assert_eq!(208, header);
}

#[test]
fn header_name_casing_is_ignored() {
    let mut reader = ByteCursor::new(b"Content-Length: 42\r\n\r\n".to_vec());
    assert_eq!(42, read_header(&mut reader).unwrap());
    let mut reader = ByteCursor::new(b"CONTENT-LENGTH: 7\r\n\r\n".to_vec());
    assert_eq!(7, read_header(&mut reader).unwrap());
    let mut reader = ByteCursor::new(b"cOnTeNt-LeNgTh: 123\r\n\r\n".to_vec());
    assert_eq!(123, read_header(&mut reader).unwrap());
}

#[test]
fn unknown_header_lines_are_ignored() {
    let input = b"Content-Type: application/json\r\nContent-Length: 9\r\n\r\n";
    let mut reader = ByteCursor::new(input.to_vec());
    assert_eq!(9, read_header(&mut reader).unwrap());
}

#[test]
fn header_line_without_separator_is_invalid() {
    let mut reader = ByteCursor::new(b"Content-Length 5\r\n\r\n".to_vec());
    assert_eq!(HeaderError::InvalidInput, read_header(&mut reader).unwrap_err());
}

#[test]
fn header_line_with_two_separators_is_invalid() {
    let mut reader = ByteCursor::new(b"Content-Length: 5: 6\r\n\r\n".to_vec());
    assert_eq!(HeaderError::InvalidInput, read_header(&mut reader).unwrap_err());
}

#[test]
fn missing_content_length_is_invalid() {
    let mut reader = ByteCursor::new(b"\r\n".to_vec());
    assert_eq!(HeaderError::InvalidInput, read_header(&mut reader).unwrap_err());
    let mut reader = ByteCursor::new(b"Content-Type: text\r\n\r\n".to_vec());
    assert_eq!(HeaderError::InvalidInput, read_header(&mut reader).unwrap_err());
}

#[test]
fn non_numeric_length_is_invalid() {
    let mut reader = ByteCursor::new(b"Content-Length: five\r\n\r\n".to_vec());
    assert_eq!(HeaderError::InvalidInput, read_header(&mut reader).unwrap_err());
}

#[test]
fn overflowing_length_is_invalid() {
    let mut reader = ByteCursor::new(b"Content-Length: 99999999999999999999999999\r\n\r\n".to_vec());
    assert_eq!(HeaderError::InvalidInput, read_header(&mut reader).unwrap_err());
}

#[test]
fn truncated_header_is_unexpected_eof() {
    let mut reader = ByteCursor::new(b"Content-Length: 10\r\n".to_vec());
    assert_eq!(HeaderError::UnexpectedEof, read_header(&mut reader).unwrap_err());
    let mut reader = ByteCursor::new(Vec::new());
    assert_eq!(HeaderError::UnexpectedEof, read_header(&mut reader).unwrap_err());
}
