use pdf2md::{
    format_content, format_paragraph, is_potential_header, split_concatenated_header,
    ExtractedContent,
};

#[test]
fn format_test_format_content_with_simple_text() {
    let text = "Hello, world!";
    let markdown = format_content(text);
    assert_eq!(markdown, "Hello, world!");
}

#[test]
fn format_test_format_content_with_empty_text() {
    let markdown = format_content("");
    assert_eq!(markdown, "");
}

#[test]
fn test_format_content_with_paragraphs() {
    let text = "First paragraph.\n\nSecond paragraph.";
    let markdown = format_content(text);
    assert_eq!(markdown, "First paragraph.\n\nSecond paragraph.");
}

#[test]
fn test_format_content_joins_broken_lines() {
    let text = "This is a sentence\nthat was broken\nacross lines.";
    let markdown = format_content(text);
    assert_eq!(markdown, "This is a sentence that was broken across lines.");
}

#[test]
fn test_format_content_detects_headers() {
    let text = "INTRODUCTION\n\nThis is the content.";
    let markdown = format_content(text);
    assert_eq!(markdown, "## INTRODUCTION\n\nThis is the content.");
}

#[test]
fn test_is_potential_header() {
    assert!(is_potential_header("INTRODUCTION"));
    assert!(is_potential_header("CHAPTER 1"));
    assert!(!is_potential_header("This is a regular sentence."));
    assert!(!is_potential_header(
        "This is a very long line that should not be considered a header even if it has some CAPS"
    ));
}

#[test]
fn markdown_test_format_content_with_simple_text() {
    let content = ExtractedContent {
        text: "Hello, world!".to_string(),
        page_count: 1,
    };
    let markdown = format_content(&content.text);
    assert_eq!(markdown, "Hello, world!");
}

#[test]
fn markdown_test_format_content_with_empty_text() {
    let content = ExtractedContent {
        text: String::new(),
        page_count: 0,
    };
    let markdown = format_content(&content.text);
    assert_eq!(markdown, "");
}

#[test]
fn glued_heading_is_split_off() {
    let split = split_concatenated_header("IntroductionThis is content.");
    assert_eq!(
        split,
        Some(("Introduction".to_string(), "This is content.".to_string()))
    );
}

#[test]
fn heading_followed_by_space_is_not_split() {
    assert_eq!(split_concatenated_header("Introduction This is content."), None);
}

#[test]
fn heading_split_is_case_sensitive() {
    assert_eq!(split_concatenated_header("introductionThis is content."), None);
    assert_eq!(split_concatenated_header("Introductionthis is content."), None);
    assert_eq!(split_concatenated_header("Introduction"), None);
}

#[test]
fn later_heading_words_are_tried() {
    assert_eq!(
        split_concatenated_header("AppendixSee the tables."),
        Some(("Appendix".to_string(), "See the tables.".to_string()))
    );
}

#[test]
fn glued_heading_paragraph_is_rendered_as_heading_and_body() {
    assert_eq!(
        format_paragraph("IntroductionThis is content."),
        "## Introduction\n\nThis is content."
    );
    assert_eq!(
        format_content("IntroductionThis is content."),
        "## Introduction\n\nThis is content."
    );
}

#[test]
fn all_caps_heading_limits() {
    let sixty_one = "A".repeat(61);
    assert_eq!(sixty_one.chars().count(), 61);
    assert!(!is_potential_header(&sixty_one));
    let fifty_nine = "A".repeat(59);
    assert!(is_potential_header(&fifty_nine));
    assert!(!is_potential_header("123 456"));
    assert!(!is_potential_header(""));
    assert!(!is_potential_header("ABC def"));
}

#[test]
fn format_paragraph_collapses_whitespace() {
    assert_eq!(format_paragraph("  some   text\n here\t now "), "some text here now");
    assert_eq!(format_paragraph("SHORT\nTITLE"), "## SHORT TITLE");
}

#[test]
fn format_content_drops_blank_paragraphs() {
    assert_eq!(format_content("\n\n  \n\nOne\n\n\n\nTwo\n\n"), "One\n\nTwo");
    assert_eq!(format_content("a\n\n\nb"), "a\n\nb");
}
