use pdf2md::{add_paragraph_breaks, clean_extracted_text, format_content, normalize_whitespace};

#[test]
fn text_test_clean_extracted_text() {
    let input = "  Line 1  with   spaces  \n\n\n\nLine 2\r\n  Line 3  ";
    let result = clean_extracted_text(input);
    assert!(!result.contains("  "));
    assert!(!result.contains('\r'));
}

#[test]
fn pdf_test_clean_extracted_text() {
    let input = "  Line 1  with   spaces  \n\n\n\nLine 2\r\n  Line 3  ";
    let result = clean_extracted_text(input);
    assert!(!result.contains("  "));
    assert!(!result.contains('\r'));
}

#[test]
fn normalizer_exact_output() {
    let input = "  Line 1  with   spaces  \n\n\n\nLine 2\r\n  Line 3  ";
    assert_eq!(normalize_whitespace(input), "Line 1 with spaces\n\n\nLine 2\nLine 3");
    assert_eq!(clean_extracted_text(input), "Line 1 with spaces\n\n\nLine 2\nLine 3");
}

#[test]
fn normalizer_caps_blank_lines() {
    assert_eq!(normalize_whitespace("a\n\n\n\n\n\nb"), "a\n\n\nb");
    assert!(!normalize_whitespace("a\n\n\n\n\n\nb").contains("\n\n\n\n"));
    assert_eq!(normalize_whitespace("a\n\nb"), "a\n\nb");
    assert_eq!(normalize_whitespace("a\n\n\nb"), "a\n\n\nb");
    assert_eq!(normalize_whitespace("\n\n\nx\n\n\n"), "x");
    assert_eq!(normalize_whitespace(""), "");
    assert_eq!(normalize_whitespace(" \t \r\n  "), "");
}

#[test]
fn normalizer_is_idempotent_without_blank_lines() {
    let once = normalize_whitespace("  one   two \r\n three\tfour  \n five ");
    assert_eq!(once, "one two\nthree four\nfive");
    assert_eq!(normalize_whitespace(&once), once);
}

#[test]
fn normalizer_keeps_blank_lines_on_second_pass() {
    let once = normalize_whitespace("a\n\n\n\n\nb\n \nc");
    assert_eq!(once, "a\n\n\nb\n\nc");
    assert_eq!(normalize_whitespace(&once), once);
}

#[test]
fn paragraphs_survive_the_whole_pipeline() {
    let text = "First paragraph.\n\nSecond paragraph.";
    assert_eq!(format_content(&clean_extracted_text(text)), text);
    let text = "INTRODUCTION\n\nThis is the content.";
    assert_eq!(
        format_content(&clean_extracted_text(text)),
        "## INTRODUCTION\n\nThis is the content."
    );
}

#[test]
fn reconstructor_breaks_after_long_sentence() {
    assert_eq!(
        add_paragraph_breaks(
            "This is a fairly long first sentence of text. Another sentence follows it."
        ),
        "This is a fairly long first sentence of text.\n\nAnother sentence follows it."
    );
    assert_eq!(
        add_paragraph_breaks("This is a fairly long first sentence of text.Another"),
        "This is a fairly long first sentence of text.\n\nAnother"
    );
}

#[test]
fn reconstructor_keeps_one_space_before_lower_case() {
    assert_eq!(
        add_paragraph_breaks("This is a fairly long first sentence of text.   another one"),
        "This is a fairly long first sentence of text. another one"
    );
}

#[test]
fn reconstructor_ignores_short_runs() {
    assert_eq!(add_paragraph_breaks("short. Next"), "short. Next");
    assert_eq!(add_paragraph_breaks("fooBar"), "fooBar");
}

#[test]
fn reconstructor_splits_glued_words() {
    assert_eq!(
        add_paragraph_breaks("the quick brown fox jumpedOver the lazy dog"),
        "the quick brown fox jumped\n\nOver the lazy dog"
    );
}

#[test]
fn clean_reconstructs_only_unstructured_text() {
    assert_eq!(
        clean_extracted_text("This is a fairly long first sentence of text. Another sentence follows it."),
        "This is a fairly long first sentence of text.\n\nAnother sentence follows it."
    );
    let structured = "This is a fairly long first sentence of text. Another\nx\ny\nz";
    assert_eq!(clean_extracted_text(structured), structured);
}

#[test]
fn line_feed_restarts_the_break_count() {
    assert_eq!(
        add_paragraph_breaks("the first line is quite long\nshortWord"),
        "the first line is quite long\nshortWord"
    );
    assert_eq!(
        add_paragraph_breaks("the first line is quite long shortWord"),
        "the first line is quite long short\n\nWord"
    );
}
