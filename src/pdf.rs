//! The document side: a loaded PDF, the pages to read from it, and what is
//! made of their text. Parsing is lopdf's. Extracting a page's text is left
//! to the caller: lopdf's text decoder can overflow an integer on some
//! fonts, which this library does not let its functions do. What is done
//! with the pages' text is verified here.

use vstd::prelude::*;
use vstd::string::*;
use crate::chars::joined;
use crate::error::Pdf2MdError;
use crate::reconstruct::{cleaned, clean_extracted_text};
use crate::sections::{SECTION_LIMIT, SECTION_PAGE_LIMIT};

verus! {

/// lopdf's parsed document, carried through opaquely.
#[verifier::external_type_specification]
#[verifier::external_body]
pub struct ExDocument(lopdf::Document);

/// lopdf's dictionary object, carried through opaquely.
#[verifier::external_type_specification]
#[verifier::external_body]
pub struct ExDictionary(lopdf::Dictionary);

/// lopdf's object, carried through opaquely.
#[verifier::external_type_specification]
#[verifier::external_body]
pub struct ExObject(lopdf::Object);

/// lopdf's error, carried through opaquely.
#[verifier::external_type_specification]
#[verifier::external_body]
pub struct ExLopdfError(lopdf::Error);

/// What `std::path::Path::extension` gives for the path `p`, as text.
pub uninterp spec fn extension_of(p: Seq<char>) -> Option<Seq<char>>;

/// What `String::from_utf8_lossy` makes of the bytes `b`.
pub uninterp spec fn utf8_lossy(b: Seq<u8>) -> Seq<char>;

/// Relies on `std::path::Path::extension`: the extension of the path's
/// final component, if it has one.
#[verifier::external_body]
fn path_extension(path: &str) -> (r: Option<String>)
    ensures
        match r {
            Some(e) => extension_of(path@) == Some(e@),
            None => extension_of(path@) is None,
        },
{
    std::path::Path::new(path).extension().and_then(|e| e.to_str()).map(|e| e.to_string())
}

/// Relies on `String::from_utf8_lossy`: the bytes decoded as UTF-8, with
/// invalid sequences replaced.
#[verifier::external_body]
fn decode_lossy(b: &[u8]) -> (r: String)
    ensures
        r@ == utf8_lossy(b@),
{
    String::from_utf8_lossy(b).to_string()
}

/// Whether `lopdf::Document::load_mem` parses the bytes `data`.
pub uninterp spec fn parses_as_pdf(data: Seq<u8>) -> bool;

/// Relies on `lopdf::Document::load_mem`: parses a PDF held in memory;
/// whether it succeeds depends on the bytes alone.
#[verifier::external_body]
fn load_document(data: &[u8]) -> (r: Result<lopdf::Document, lopdf::Error>)
    ensures
        r is Ok <==> parses_as_pdf(data@),
{
    lopdf::Document::load_mem(data)
}

/// Relies on `lopdf::Error`'s `Display`: the error's description.
#[verifier::external_body]
fn lopdf_error_text(e: &lopdf::Error) -> String {
    e.to_string()
}

/// Relies on `lopdf::Document::get_pages`: the number of pages.
#[verifier::external_body]
fn page_count(document: &lopdf::Document) -> usize {
    document.get_pages().len()
}

/// Relies on the `trailer` field of `lopdf::Document`: the trailer
/// dictionary.
#[verifier::external_body]
fn trailer(document: &lopdf::Document) -> &lopdf::Dictionary {
    &document.trailer
}

/// Relies on `lopdf::Dictionary::get`: the entry under a key.
#[verifier::external_body]
fn dictionary_entry<'a>(d: &'a lopdf::Dictionary, key: &str) -> Result<&'a lopdf::Object, lopdf::Error> {
    d.get(key.as_bytes())
}

/// Relies on `lopdf::Object::as_dict`: the object as a dictionary.
#[verifier::external_body]
fn object_dictionary(o: &lopdf::Object) -> Result<&lopdf::Dictionary, lopdf::Error> {
    o.as_dict()
}

/// Relies on `lopdf::Object::as_str`: the bytes of a string object.
#[verifier::external_body]
fn object_string(o: &lopdf::Object) -> Result<&[u8], lopdf::Error> {
    o.as_str()
}

/// The text extracted from a document, and its number of pages.
#[derive(Debug, Clone)]
pub struct ExtractedContent {
    /// The cleaned text of all pages.
    pub text: String,
    /// The number of pages of the document.
    pub page_count: usize,
}

/// A read-only snapshot of a document for the structural preview.
#[derive(Debug, Clone)]
pub struct PdfMetadata {
    /// The number of pages.
    pub page_count: usize,
    /// The title of the info dictionary, if it has one.
    pub title: Option<String>,
    /// The author of the info dictionary, if it has one.
    pub author: Option<String>,
    /// Whether the first page has extractable text.
    pub has_text: bool,
    /// The section titles of the first pages, at most five.
    pub sections: Vec<String>,
}

/// A loaded PDF document.
#[derive(Debug)]
pub struct PdfDocument {
    document: lopdf::Document,
}

/// The texts of pages joined as the extractor joins them: an empty page is
/// skipped, and every other page but the first is preceded by a blank line
/// (also when the pages before it were empty).
pub open spec fn joined_pages(ps: Seq<Seq<char>>) -> Seq<char>
    decreases ps.len(),
{
    if ps.len() == 0 {
        Seq::<char>::empty()
    } else if ps.last().len() == 0 {
        joined_pages(ps.drop_last())
    } else if ps.len() > 1 {
        joined_pages(ps.drop_last()) + seq!['\n', '\n'] + ps.last()
    } else {
        ps.last()
    }
}

/// The bytes that every PDF file starts with: `%PDF-`.
pub open spec fn pdf_magic() -> Seq<u8> {
    seq![0x25u8, 0x50u8, 0x44u8, 0x46u8, 0x2du8]
}

/// Checks the first bytes of a file for the PDF header.
pub fn check_pdf_header(header: &[u8]) -> (r: Result<(), Pdf2MdError>)
    ensures
        header@.len() < 5 ==> (r matches Err(Pdf2MdError::PdfProcessing(m))
            && m@ == "Failed to read PDF header (file too small)"@),
        header@.len() >= 5 && header@.take(5) != pdf_magic() ==> (r matches Err(
            Pdf2MdError::PdfProcessing(m),
        ) && m@ == "File is not a valid PDF (missing PDF header)"@),
        header@.len() >= 5 && header@.take(5) == pdf_magic() ==> r is Ok,
{
    if header.len() < 5 {
        return Err(
            Pdf2MdError::PdfProcessing(
                String::from_str("Failed to read PDF header (file too small)"),
            ),
        );
    }
    if header[0] != 0x25 || header[1] != 0x50 || header[2] != 0x44 || header[3] != 0x46 || header[4]
        != 0x2d {
        proof {
            assert(header@.take(5) != pdf_magic()) by {
                if header@.take(5) == pdf_magic() {
                    assert(header@.take(5)[0] == header@[0]);
                    assert(header@.take(5)[1] == header@[1]);
                    assert(header@.take(5)[2] == header@[2]);
                    assert(header@.take(5)[3] == header@[3]);
                    assert(header@.take(5)[4] == header@[4]);
                }
            }
        }
        return Err(
            Pdf2MdError::PdfProcessing(
                String::from_str("File is not a valid PDF (missing PDF header)"),
            ),
        );
    }
    proof {
        assert(header@.take(5) =~= pdf_magic());
    }
    Ok(())
}

/// Joins the texts of pages as the extractor does: empty pages skipped,
/// a blank line before every other page but the first.
pub fn join_pages(pages: &Vec<String>) -> (r: String)
    ensures
        r@ == joined_pages(pages@.map_values(|p: String| p@)),
{
    let ghost all = pages@.map_values(|p: String| p@);
    let mut out = String::new();
    let mut k: usize = 0;
    proof {
        assert(all.take(0) =~= Seq::<Seq<char>>::empty());
    }
    while k < pages.len()
        invariant
            k <= pages@.len(),
            all == pages@.map_values(|p: String| p@),
            out@ == joined_pages(all.take(k as int)),
        decreases pages@.len() - k,
    {
        proof {
            assert(all.take(k as int + 1).drop_last() =~= all.take(k as int));
            assert(all.take(k as int + 1).last() == pages@[k as int]@);
        }
        let text = pages[k].as_str();
        if text.unicode_len() > 0 {
            if k > 0 {
                out.append("\n\n");
                proof {
                    reveal_strlit("\n\n");
                }
            }
            out.append(text);
        }
        k += 1;
    }
    proof {
        assert(all.take(pages@.len() as int) =~= all);
    }
    out
}

/// The extracted content of a document whose pages have the texts `pages`:
/// the pages joined and cleaned, and their number.
pub fn content_from_pages(pages: &Vec<String>) -> (r: ExtractedContent)
    ensures
        r.text@ == cleaned(joined_pages(pages@.map_values(|p: String| p@))),
        r.page_count == pages@.len(),
{
    let all = join_pages(pages);
    ExtractedContent { text: clean_extracted_text(all.as_str()), page_count: pages.len() }
}

/// How many pages of a document of `n` pages are extracted: all of them,
/// as far as page numbers (`u32`) reach.
/// How many pages of a document of `n` pages are read: all of them, as
/// far as page numbers (`u32`) reach.
pub open spec fn numbered_pages(n: usize) -> nat {
    if n > u32::MAX {
        u32::MAX as nat
    } else {
        n as nat
    }
}

/// How many pages of a document of `n` pages the section scanner reads at
/// most.
pub open spec fn scanned_page_limit(n: usize) -> nat {
    if numbered_pages(n) > SECTION_PAGE_LIMIT {
        SECTION_PAGE_LIMIT as nat
    } else {
        numbered_pages(n)
    }
}

/// The page numbers to read from a document of `count` pages, in order:
/// `1 ..= count`, as far as page numbers reach.
pub fn pages_to_read(count: usize) -> (r: Vec<u32>)
    ensures
        r@ == Seq::new(numbered_pages(count), |k: int| (k + 1) as u32),
{
    let last: usize = if count > u32::MAX as usize {
        u32::MAX as usize
    } else {
        count
    };
    let mut pages: Vec<u32> = Vec::new();
    let mut k: usize = 0;
    while k < last
        invariant
            k <= last,
            last == numbered_pages(count),
            last <= u32::MAX,
            pages@ == Seq::new(k as nat, |j: int| (j + 1) as u32),
        decreases last - k,
    {
        pages.push((k + 1) as u32);
        k += 1;
        proof {
            assert(pages@ =~= Seq::new(k as nat, |j: int| (j + 1) as u32));
        }
    }
    pages
}

/// The next page the section scanner reads, given that `page` pages were
/// read and `found` titles were found so far in a document of `count`
/// pages: none once the page limit or the title limit is reached.
pub fn next_scan_page(page: usize, count: usize, found: usize) -> (r: Option<u32>)
    ensures
        r == if page < scanned_page_limit(count) && found < SECTION_LIMIT {
            Some((page + 1) as u32)
        } else {
            None::<u32>
        },
{
    let limit: usize = if count > SECTION_PAGE_LIMIT {
        SECTION_PAGE_LIMIT
    } else {
        count
    };
    if page < limit && found < SECTION_LIMIT {
        Some((page + 1) as u32)
    } else {
        None
    }
}

/// The text of a page, or an empty text when its extraction failed.
pub fn text_or_empty(page: Result<String, lopdf::Error>) -> (r: String)
    ensures
        page matches Ok(t) ==> r == t,
        page is Err ==> r@.len() == 0,
{
    match page {
        Ok(t) => t,
        Err(_) => String::new(),
    }
}

/// The content of `document`, whose pages `pages_to_read` lists have the
/// texts `pages` (an empty text where extraction failed): the texts joined
/// and cleaned, and the document's number of pages.
pub fn extract_text(document: &lopdf::Document, pages: &Vec<String>) -> (r: Result<
    ExtractedContent,
    Pdf2MdError,
>)
    ensures
        r matches Ok(c) && c.text@ == cleaned(joined_pages(pages@.map_values(|p: String| p@))),
{
    let content = content_from_pages(pages);
    Ok(ExtractedContent { text: content.text, page_count: page_count(document) })
}

/// An info-dictionary string, decoded leniently; `None` when there is none.
pub fn info_text(bytes: Option<&[u8]>) -> (r: Option<String>)
    ensures
        bytes is None ==> r is None,
        bytes matches Some(b) ==> (r matches Some(s) && s@ == utf8_lossy(b@)),
{
    match bytes {
        Some(b) => Some(decode_lossy(b)),
        None => None,
    }
}

/// Whether the extraction of a page gave a non-empty text.
pub fn has_text_of(page: &Result<String, lopdf::Error>) -> (r: bool)
    ensures
        r == (page matches Ok(t) && t@.len() > 0),
{
    match page {
        Ok(t) => t.as_str().unicode_len() > 0,
        Err(_) => false,
    }
}

/// The bytes of the text string stored under `key` in the info dictionary
/// `info`.
fn info_bytes<'a>(info: &'a lopdf::Dictionary, key: &str) -> Option<&'a [u8]> {
    match dictionary_entry(info, key) {
        Ok(o) => match object_string(o) {
            Ok(b) => Some(b),
            Err(_) => None,
        },
        Err(_) => None,
    }
}

/// A text that is the lenient decoding of some bytes.
pub open spec fn decoded_text(t: Option<String>) -> bool {
    t matches Some(s) ==> exists|b: Seq<u8>| #![trigger utf8_lossy(b)] s@ == utf8_lossy(b)
}

/// The preview of `document`: its number of pages, the title and author
/// of its info dictionary (decoded leniently), whether its first page has
/// text (`first_page` being the extraction of page 1), and the section
/// titles found on its first pages.
pub fn extract_metadata(
    document: &lopdf::Document,
    first_page: &Result<String, lopdf::Error>,
    sections: Vec<String>,
) -> (r: Result<PdfMetadata, Pdf2MdError>)
    ensures
        r matches Ok(m) && decoded_text(m.title) && decoded_text(m.author) && m.has_text == (
        first_page matches Ok(t) && t@.len() > 0) && m.sections@ == sections@,
{
    let count = page_count(document);
    let mut title: Option<String> = None;
    let mut author: Option<String> = None;
    match dictionary_entry(trailer(document), "Info") {
        Ok(info) => match object_dictionary(info) {
            Ok(d) => {
                title = info_text(info_bytes(d, "Title"));
                author = info_text(info_bytes(d, "Author"));
            },
            Err(_) => {},
        },
        Err(_) => {},
    }
    let has_text = has_text_of(first_page);
    Ok(PdfMetadata { page_count: count, title, author, has_text, sections })
}

impl PdfDocument {
    /// Opens a PDF document whose file is at `path` and holds `data`. The
    /// path must have the extension `pdf`, and the data must parse.
    pub fn open(path: &str, data: &[u8]) -> (r: Result<PdfDocument, Pdf2MdError>)
        ensures
            extension_of(path@) != Some("pdf"@) ==> (r matches Err(Pdf2MdError::InvalidInput(m))
                && m@ == "File must have .pdf extension"@),
            extension_of(path@) == Some("pdf"@) ==> (r is Ok <==> parses_as_pdf(data@)),
            extension_of(path@) == Some("pdf"@) && !parses_as_pdf(data@) ==> (r matches Err(
                Pdf2MdError::PdfProcessing(m),
            ) && "Failed to load PDF: "@.is_prefix_of(m@)),
    {
        let is_pdf = match path_extension(path) {
            Some(e) => e.eq(&String::from_str("pdf")),
            None => false,
        };
        if !is_pdf {
            return Err(
                Pdf2MdError::InvalidInput(String::from_str("File must have .pdf extension")),
            );
        }
        match load_document(data) {
            Ok(document) => Ok(PdfDocument { document }),
            Err(e) => {
                let m = joined("Failed to load PDF: ", lopdf_error_text(&e).as_str());
                proof {
                    assert(m@.take("Failed to load PDF: "@.len() as int) =~= "Failed to load PDF: "@);
                }
                Err(Pdf2MdError::PdfProcessing(m))
            },
        }
    }

    /// The parsed document, for reading its pages' text.
    pub fn document(&self) -> &lopdf::Document {
        &self.document
    }

    /// The number of pages of the document.
    pub fn page_count(&self) -> usize {
        page_count(&self.document)
    }

    /// The document's content, given the texts of the pages that
    /// `pages_to_read` lists; see `extract_text`.
    pub fn extract_text(&self, pages: &Vec<String>) -> (r: Result<ExtractedContent, Pdf2MdError>)
        ensures
            r matches Ok(c) && c.text@ == cleaned(joined_pages(pages@.map_values(|p: String| p@))),
    {
        extract_text(&self.document, pages)
    }

    /// The document's preview, given the extraction of its first page and
    /// the section titles of its first pages; see `extract_metadata`.
    pub fn extract_metadata(
        &self,
        first_page: &Result<String, lopdf::Error>,
        sections: Vec<String>,
    ) -> (r: Result<PdfMetadata, Pdf2MdError>)
        ensures
            r matches Ok(m) && decoded_text(m.title) && decoded_text(m.author) && m.has_text == (
            first_page matches Ok(t) && t@.len() > 0) && m.sections@ == sections@,
    {
        extract_metadata(&self.document, first_page, sections)
    }
}

} // verus!
