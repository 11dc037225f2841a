use pdf2md::{check_pdf_header, PdfDocument, Pdf2MdError};

#[test]
fn header_checks() {
    assert!(check_pdf_header(b"%PDF-1.4\nrest of pdf content").is_ok());
    match check_pdf_header(b"PDF") {
        Err(Pdf2MdError::PdfProcessing(msg)) => assert!(msg.contains("too small")),
        _ => panic!("Expected PdfProcessing error"),
    }
    match check_pdf_header(b"Not a PDF file") {
        Err(Pdf2MdError::PdfProcessing(msg)) => assert!(msg.contains("not a valid PDF")),
        _ => panic!("Expected PdfProcessing error"),
    }
}

#[test]
fn open_requires_pdf_extension() {
    match PdfDocument::open("test.txt", b"content") {
        Err(Pdf2MdError::InvalidInput(msg)) => assert!(msg.contains(".pdf extension")),
        _ => panic!("Expected InvalidInput error"),
    }
    assert!(PdfDocument::open("test", b"content").is_err());
}

#[test]
fn open_reports_unparsable_data() {
    match PdfDocument::open("dir/test.pdf", b"content") {
        Err(Pdf2MdError::PdfProcessing(msg)) => assert!(msg.starts_with("Failed to load PDF: ")),
        _ => panic!("Expected PdfProcessing error"),
    }
}

#[test]
fn info_strings_are_decoded_leniently() {
    assert_eq!(pdf2md::info_text(Some(b"Annual Report")), Some("Annual Report".to_string()));
    assert_eq!(pdf2md::info_text(Some(&[0x41, 0xff])), Some("A\u{FFFD}".to_string()));
    assert_eq!(pdf2md::info_text(None), None);
}

#[test]
fn first_page_text_decides_has_text() {
    assert!(pdf2md::has_text_of(&Ok("x".to_string())));
    assert!(!pdf2md::has_text_of(&Ok(String::new())));
    assert!(!pdf2md::has_text_of(&Err(lopdf::Error::PageNumberNotFound(1))));
}

#[test]
fn failed_page_counts_as_empty() {
    assert_eq!(pdf2md::text_or_empty(Ok("page".to_string())), "page");
    assert_eq!(pdf2md::text_or_empty(Err(lopdf::Error::PageNumberNotFound(2))), "");
}

#[test]
fn page_numbers_to_read() {
    assert_eq!(pdf2md::pages_to_read(0), Vec::<u32>::new());
    assert_eq!(pdf2md::pages_to_read(4), vec![1, 2, 3, 4]);
}

#[test]
fn scanner_page_plan() {
    assert_eq!(pdf2md::next_scan_page(0, 10, 0), Some(1));
    assert_eq!(pdf2md::next_scan_page(2, 10, 4), Some(3));
    assert_eq!(pdf2md::next_scan_page(3, 10, 0), None);
    assert_eq!(pdf2md::next_scan_page(1, 1, 0), None);
    assert_eq!(pdf2md::next_scan_page(1, 5, 5), None);
}
