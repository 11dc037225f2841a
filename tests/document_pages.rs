use lopdf::{Dictionary, Document, Object, Stream, StringFormat};
use pdf2md::{
    format_content, next_scan_page, pages_to_read, sections_in_pages, text_or_empty,
    ExtractedContent, PdfDocument, PdfMetadata,
};

fn read_text(doc: &PdfDocument) -> ExtractedContent {
    let pages: Vec<String> = pages_to_read(doc.page_count())
        .iter()
        .map(|page| text_or_empty(doc.document().extract_text(&[*page])))
        .collect();
    doc.extract_text(&pages).unwrap()
}

fn read_preview(doc: &PdfDocument) -> PdfMetadata {
    let count = doc.page_count();
    let mut texts: Vec<String> = Vec::new();
    let mut found: Vec<String> = Vec::new();
    while let Some(page) = next_scan_page(texts.len(), count, found.len()) {
        texts.push(text_or_empty(doc.document().extract_text(&[page])));
        found = sections_in_pages(&texts);
    }
    let first_page = doc.document().extract_text(&[1]);
    doc.extract_metadata(&first_page, found).unwrap()
}

fn name(s: &str) -> Object {
    Object::Name(s.as_bytes().to_vec())
}

fn text_string(s: &str) -> Object {
    Object::String(s.as_bytes().to_vec(), StringFormat::Literal)
}

/// A PDF whose pages each show the given lines, one text object per line,
/// with a title and an author in a direct info dictionary.
fn sample_pdf(pages: &[Vec<&str>]) -> Vec<u8> {
    let mut doc = Document::with_version("1.5");
    let pages_id = doc.new_object_id();

    let mut font = Dictionary::new();
    font.set("Type", name("Font"));
    font.set("Subtype", name("Type1"));
    font.set("BaseFont", name("Helvetica"));
    let font_id = doc.add_object(Object::Dictionary(font));

    let mut kids = Vec::new();
    for lines in pages {
        let mut content = String::new();
        let mut y = 700;
        for line in lines {
            content.push_str(&format!("BT\n/F1 12 Tf\n50 {} Td\n({}) Tj\nET\n", y, line));
            y -= 20;
        }
        let stream = Stream::new(Dictionary::new(), content.into_bytes());
        let content_id = doc.add_object(Object::Stream(stream));

        let mut fonts = Dictionary::new();
        fonts.set("F1", Object::Reference(font_id));
        let mut resources = Dictionary::new();
        resources.set("Font", Object::Dictionary(fonts));

        let mut page = Dictionary::new();
        page.set("Type", name("Page"));
        page.set("Parent", Object::Reference(pages_id));
        page.set("Contents", Object::Reference(content_id));
        page.set("Resources", Object::Dictionary(resources));
        page.set(
            "MediaBox",
            Object::Array(vec![
                Object::Integer(0),
                Object::Integer(0),
                Object::Integer(612),
                Object::Integer(792),
            ]),
        );
        kids.push(Object::Reference(doc.add_object(Object::Dictionary(page))));
    }

    let mut page_tree = Dictionary::new();
    page_tree.set("Type", name("Pages"));
    page_tree.set("Count", Object::Integer(pages.len() as i64));
    page_tree.set("Kids", Object::Array(kids));
    doc.objects.insert(pages_id, Object::Dictionary(page_tree));

    let mut catalog = Dictionary::new();
    catalog.set("Type", name("Catalog"));
    catalog.set("Pages", Object::Reference(pages_id));
    let catalog_id = doc.add_object(Object::Dictionary(catalog));
    doc.trailer.set("Root", Object::Reference(catalog_id));

    let mut info = Dictionary::new();
    info.set("Title", text_string("Sample Report"));
    info.set("Author", text_string("A. Writer"));
    doc.trailer.set("Info", Object::Dictionary(info));

    let mut bytes = Vec::new();
    doc.save_to(&mut bytes).unwrap();
    bytes
}

fn three_pages() -> Vec<Vec<&'static str>> {
    let long = "This line is far too long to be taken for a section title ok";
    vec![
        vec!["Section AA", long],
        vec!["Section BB", long],
        vec!["Section CC", long],
    ]
}

#[test]
fn extracted_text_is_joined_and_cleaned() {
    let data = sample_pdf(&three_pages());
    let doc = PdfDocument::open("sample.pdf", &data).unwrap();
    let content = read_text(&doc);
    let long = "This line is far too long to be taken for a section title ok";
    assert_eq!(content.page_count, 3);
    assert_eq!(
        content.text,
        format!("Section AA\n{long}\n\n\nSection BB\n{long}\n\n\nSection CC\n{long}")
    );
    assert_eq!(
        format_content(&content.text),
        format!("Section AA {long}\n\nSection BB {long}\n\nSection CC {long}")
    );
}

#[test]
fn preview_reports_info_and_sections() {
    let data = sample_pdf(&three_pages());
    let doc = PdfDocument::open("sample.pdf", &data).unwrap();
    let metadata = read_preview(&doc);
    assert_eq!(metadata.page_count, 3);
    assert_eq!(metadata.title.as_deref(), Some("Sample Report"));
    assert_eq!(metadata.author.as_deref(), Some("A. Writer"));
    assert!(metadata.has_text);
    assert_eq!(
        metadata.sections,
        vec!["Section AA".to_string(), "Section BB".to_string(), "Section CC".to_string()]
    );
}

#[test]
fn unstructured_page_gets_paragraph_breaks() {
    let data = sample_pdf(&[vec![
        "This is a fairly long first sentence of text. Another sentence follows it.",
    ]]);
    let doc = PdfDocument::open("one.pdf", &data).unwrap();
    let content = read_text(&doc);
    assert_eq!(
        content.text,
        "This is a fairly long first sentence of text.\n\nAnother sentence follows it."
    );
}
