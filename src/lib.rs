//! Turns the flat text that a PDF extractor hands back into readable,
//! Markdown-flavoured prose: whitespace normalisation, paragraph
//! reconstruction, heading inference and a short section preview.

pub mod chars;
pub mod config;
pub mod error;
pub mod format;
pub mod normalize;
pub mod pdf;
pub mod reconstruct;
pub mod sections;

pub use config::{validate_input_path, Args, Config};
pub use error::{error_to_exit_code, MarkdownError, Pdf2MdError, PdfError};
pub use format::{format_content, format_paragraph, is_potential_header, split_concatenated_header};
pub use normalize::normalize_whitespace;
pub use pdf::{
    has_text_of, info_text, next_scan_page, pages_to_read, text_or_empty,
    check_pdf_header, content_from_pages, extract_metadata, extract_text,
    join_pages, ExtractedContent, PdfDocument, PdfMetadata,
};
pub use reconstruct::{add_paragraph_breaks, clean_extracted_text};
pub use sections::sections_in_pages;
