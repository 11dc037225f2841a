use pdf2md::{error_to_exit_code, MarkdownError, Pdf2MdError, PdfError};

#[test]
fn error_test_error_display_invalid_input() {
    let error = Pdf2MdError::InvalidInput("test error".to_string());
    assert_eq!(error.message(), "Invalid input: test error");
}

#[test]
fn error_test_error_display_pdf_processing() {
    let error = Pdf2MdError::PdfProcessing("parse failed".to_string());
    assert_eq!(error.message(), "PDF processing error: parse failed");
}

#[test]
fn error_test_error_display_markdown_generation() {
    let error = Pdf2MdError::MarkdownGeneration("format failed".to_string());
    assert_eq!(error.message(), "Markdown generation error: format failed");
}

#[test]
fn error_test_error_from_io_error() {
    let io_err = std::io::Error::new(std::io::ErrorKind::NotFound, "file not found");
    let error = Pdf2MdError::from(io_err);
    match error {
        Pdf2MdError::IoError(_) => (),
        _ => panic!("Expected IoError variant"),
    }
}

#[test]
fn error_test_exit_codes() {
    assert_eq!(error_to_exit_code(&Pdf2MdError::InvalidInput("test".to_string())), 1);
    assert_eq!(error_to_exit_code(&Pdf2MdError::PdfProcessing("test".to_string())), 4);
    assert_eq!(error_to_exit_code(&Pdf2MdError::MarkdownGeneration("test".to_string())), 3);
    let io_err = std::io::Error::new(std::io::ErrorKind::NotFound, "test");
    assert_eq!(error_to_exit_code(&Pdf2MdError::IoError(io_err)), 2);
}

#[test]
fn exit_codes_test_exit_codes() {
    assert_eq!(error_to_exit_code(&Pdf2MdError::InvalidInput("test".to_string())), 1);
    assert_eq!(error_to_exit_code(&Pdf2MdError::PdfProcessing("test".to_string())), 4);
    assert_eq!(error_to_exit_code(&Pdf2MdError::MarkdownGeneration("test".to_string())), 3);
    let io_err = std::io::Error::new(std::io::ErrorKind::NotFound, "test");
    assert_eq!(error_to_exit_code(&Pdf2MdError::IoError(io_err)), 2);
}

#[test]
fn types_test_error_display_invalid_input() {
    let error = Pdf2MdError::InvalidInput("test error".to_string());
    assert_eq!(error.message(), "Invalid input: test error");
}

#[test]
fn types_test_error_display_pdf_processing() {
    let error = Pdf2MdError::PdfProcessing("parse failed".to_string());
    assert_eq!(error.message(), "PDF processing error: parse failed");
}

#[test]
fn types_test_error_display_markdown_generation() {
    let error = Pdf2MdError::MarkdownGeneration("format failed".to_string());
    assert_eq!(error.message(), "Markdown generation error: format failed");
}

#[test]
fn types_test_error_from_io_error() {
    let io_err = std::io::Error::new(std::io::ErrorKind::NotFound, "file not found");
    let error = Pdf2MdError::from(io_err);
    match error {
        Pdf2MdError::IoError(_) => (),
        _ => panic!("Expected IoError variant"),
    }
}

#[test]
fn io_error_message_carries_its_description() {
    let io_err = std::io::Error::new(std::io::ErrorKind::NotFound, "file not found");
    assert_eq!(Pdf2MdError::IoError(io_err).message(), "I/O error: file not found");
}

#[test]
fn pdf_error_messages() {
    assert_eq!(PdfError::InvalidInput("bad".to_string()).message(), "Invalid input: bad");
    assert_eq!(PdfError::Processing("broken".to_string()).message(), "PDF processing error: broken");
    let io_err = std::io::Error::new(std::io::ErrorKind::NotFound, "gone");
    assert_eq!(PdfError::from(io_err).message(), "I/O error: gone");
}

#[test]
fn markdown_error_messages() {
    let io_err = std::io::Error::new(std::io::ErrorKind::PermissionDenied, "denied");
    let error = MarkdownError::from(io_err);
    assert!(matches!(error, MarkdownError::Io(_)));
    assert_eq!(error.message(), "I/O error: denied");
}
