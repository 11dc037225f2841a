use pdf2md::{content_from_pages, join_pages, sections_in_pages};

#[test]
fn scanner_keeps_short_lines_in_page_order() {
    let long = "x".repeat(60);
    let pages = vec![
        format!("Section AA\n{}", long),
        format!("Section BB\n{}", long),
        format!("Section CC\n{}", long),
    ];
    assert_eq!(
        sections_in_pages(&pages),
        vec!["Section AA".to_string(), "Section BB".to_string(), "Section CC".to_string()]
    );
}

#[test]
fn scanner_trims_and_filters_lines() {
    let pages = vec!["  Methods used  \r\nshort\nA sentence that ends.\nA list item,\n\n".to_string()];
    assert_eq!(sections_in_pages(&pages), vec!["Methods used".to_string()]);
}

#[test]
fn scanner_stops_at_five_and_three_pages() {
    let page = "Heading one\nHeading two\nHeading six".to_string();
    let found = sections_in_pages(&vec![page.clone(), page.clone()]);
    assert_eq!(found.len(), 5);
    assert_eq!(found[3], "Heading one");
    let pages = vec![
        String::new(),
        String::new(),
        String::new(),
        "Fourth page title".to_string(),
    ];
    assert!(sections_in_pages(&pages).is_empty());
}

#[test]
fn pages_are_joined_with_blank_lines() {
    let pages = vec![String::new(), "two".to_string(), String::new(), "four".to_string()];
    assert_eq!(join_pages(&pages), "\n\ntwo\n\nfour");
    let content = content_from_pages(&pages);
    assert_eq!(content.text, "two\n\nfour");
    assert_eq!(content.page_count, 4);
}
