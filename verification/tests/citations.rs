use vsm_generator::content::markdown::{
    generate_cite_note_link, generate_cite_notes, get_description_of_cite_note, resolve_citations,
};
use vsm_generator::content::{ContentResult, ErrorKind};

fn cite(html: &str) -> (String, Result<String, ErrorKind>, ContentResult) {
    let mut result = ContentResult::new();
    let mut page = html.as_bytes().to_vec();
    let notes = generate_cite_notes(&mut page, &mut result);
    (
        String::from_utf8(page).unwrap(),
        notes.map(|n| String::from_utf8(n).unwrap()).map_err(|e| e.kind),
        result,
    )
}

fn reference(id: usize) -> String {
    format!("<a href=\"#cite-note-{id}\" class=\"cite-note\"><sup>[{id}]</sup></a>")
}

#[test]
fn citation_numbering() {
    let html = "<p>One [_cn Zebra](https://z.example/page https://web.archive.org/z) and \
two [_cn Aardvark](https://a.example/ https://web.archive.org/a).</p>";
    let (page, notes, result) = cite(html);
    assert_eq!(page, format!("<p>One {} and two {}.</p>", reference(1), reference(2)));
    let notes = notes.unwrap();
    assert_eq!(
        notes,
        "<li id=\"cite-note-1\">Zebra - <a href=\"https://z.example/page\">z.example</a> - \
<a href=\"https://web.archive.org/z\">archive</a></li>\
<li id=\"cite-note-2\">Aardvark - <a href=\"https://a.example/\">a.example</a> - \
<a href=\"https://web.archive.org/a\">archive</a></li>"
    );
    assert!(notes.find("cite-note-1").unwrap() < notes.find("cite-note-2").unwrap());
    assert!(result.warnings().is_empty());
    assert!(result.errors().is_empty());
}

#[test]
fn citation_numbers_go_on_past_nine() {
    let mut html = String::new();
    for _ in 0..12 {
        html.push_str("[_cn ](https://e.example https://web.archive.org/e) ");
    }
    let (page, notes, _) = cite(&html);
    assert!(page.contains("<sup>[10]</sup>"));
    assert!(page.ends_with(&format!("{} ", reference(12))));
    assert!(notes.unwrap().contains("<li id=\"cite-note-12\">"));
}

#[test]
fn page_without_citations_gets_a_sentence() {
    let (page, notes, result) = cite("<p>plain [text](x)</p>");
    assert_eq!(page, "<p>plain [text](x)</p>");
    assert_eq!(notes.unwrap(), "Unfortunatelly, there are no references in this article :(");
    assert!(result.warnings().is_empty());
}

#[test]
fn host_label_drops_www() {
    let (_, notes, _) = cite("[_cn ](https://www.rust-lang.org/learn https://web.archive.org/r)");
    assert_eq!(
        notes.unwrap(),
        "<li id=\"cite-note-1\"><a href=\"https://www.rust-lang.org/learn\">rust-lang.org</a> - \
<a href=\"https://web.archive.org/r\">archive</a></li>"
    );
    let (_, notes, _) = cite("[_cn ](http://www.www.deep.example:8080/x http://10.0.0.1/ https://web.archive.org/r)");
    let notes = notes.unwrap();
    assert!(notes.contains(">deep.example</a>"));
    assert!(notes.contains("<a href=\"http://10.0.0.1/\">10.0.0.1</a>"));
}

#[test]
fn citation_without_separator_is_an_error() {
    let (page, notes, result) = cite("a [_cn no links here) b");
    assert_eq!(notes, Err(ErrorKind::MalformedCitation));
    assert_eq!(page, "a [_cn no links here) b");
    assert!(result.errors().is_empty());
}

#[test]
fn citation_error_carries_the_position_of_the_marker() {
    let mut result = ContentResult::new();
    let mut page = b"ab [_cn x) ".to_vec();
    let error = generate_cite_notes(&mut page, &mut result).unwrap_err();
    assert_eq!(error.kind, ErrorKind::MalformedCitation);
    assert_eq!(error.position, 3);
}

#[test]
fn citation_with_a_link_without_host_is_passed_over() {
    for html in [
        "[_cn d](not-a-url https://web.archive.org/x)",
        "[_cn d](mailto:someone@example.com https://web.archive.org/x)",
        "[_cn d](https://a.example/  https://web.archive.org/x)",
        "[_cn d](https://a.example/ nowhere)",
    ] {
        let (page, notes, result) = cite(html);
        assert_eq!(page, html);
        assert_eq!(notes.unwrap(), "Unfortunatelly, there are no references in this article :(");
        assert_eq!(result.errors().len(), 1, "{html}");
        assert_eq!(result.errors()[0].kind, ErrorKind::InvalidUrl);
        assert!(result.warnings().is_empty());
    }
}

#[test]
fn citation_that_is_passed_over_takes_no_number() {
    let (page, notes, result) = cite(
        "[_cn a](https://web.archive.org/a) [_cn b](:: https://web.archive.org/b) [_cn c](https://web.archive.org/c)",
    );
    assert_eq!(
        page,
        format!("{} [_cn b](:: https://web.archive.org/b) {}", reference(1), reference(2))
    );
    let notes = notes.unwrap();
    assert!(notes.contains("<li id=\"cite-note-2\">c - "));
    assert!(!notes.contains("cite-note-3"));
    assert_eq!(result.errors().len(), 1);
    assert_eq!(result.errors()[0].detail, b"::".to_vec());
    assert_eq!(result.errors()[0].position, reference(1).len() + 1);
}

#[test]
fn citation_without_archive_warns_and_renders() {
    let (page, notes, result) = cite("[_cn D](https://x.org/1 https://y.org/2)");
    assert_eq!(page, reference(1));
    let notes = notes.unwrap();
    assert_eq!(
        notes,
        "<li id=\"cite-note-1\">D - <a href=\"https://x.org/1\">x.org</a><a href=\"https://y.org/2\">y.org</a></li>"
    );
    assert!(!notes.contains("archive"));
    assert_eq!(result.warnings().len(), 1);
    assert_eq!(result.warnings()[0].kind, ErrorKind::CitationWithoutArchive);
    assert!(result.errors().is_empty());
}

#[test]
fn citation_without_links_warns_and_renders() {
    let (page, notes, result) = cite("x[_cn only words]()y");
    assert_eq!(page, format!("x{}y", reference(1)));
    assert_eq!(notes.unwrap(), "<li id=\"cite-note-1\">only words - </li>");
    assert_eq!(result.warnings().len(), 1);
    assert_eq!(result.warnings()[0].kind, ErrorKind::CitationWithoutLink);
}

#[test]
fn marker_that_is_never_closed_is_passed_over() {
    let (page, notes, result) = cite("x [_cn never closed");
    assert_eq!(page, "x [_cn never closed");
    assert_eq!(notes.unwrap(), "Unfortunatelly, there are no references in this article :(");
    assert!(result.errors().is_empty());
}

#[test]
fn note_link_appends_to_the_notes() {
    let mut notes = b"<li>before</li>".to_vec();
    let mut result = ContentResult::new();
    generate_cite_note_link(&mut notes, b"  Book  ](https://web.archive.org/b", 7, 0, &mut result)
        .unwrap();
    assert_eq!(
        String::from_utf8(notes).unwrap(),
        "<li>before</li><li id=\"cite-note-7\">Book -  - <a href=\"https://web.archive.org/b\">archive</a></li>"
    );
    assert!(result.warnings().is_empty());
    let mut notes = b"keep".to_vec();
    let error = generate_cite_note_link(&mut notes, b"d](:: https://web.archive.org/b", 1, 9, &mut result)
        .unwrap_err();
    assert_eq!(error.kind, ErrorKind::InvalidUrl);
    assert_eq!(error.detail, b"::".to_vec());
    assert_eq!(error.position, 9);
    assert_eq!(notes, b"keep".to_vec());
}

#[test]
fn description_is_trimmed_or_none() {
    assert_eq!(get_description_of_cite_note(b" a b ](x", 5), Some(&b"a b"[..]));
    assert_eq!(get_description_of_cite_note(b"   ](x", 3), None);
    assert_eq!(get_description_of_cite_note(b"](x", 0), None);
}

#[test]
fn notes_are_empty_where_there_is_no_citation() {
    let mut result = ContentResult::new();
    let mut page = b"<p>no citation</p>".to_vec();
    assert!(resolve_citations(&mut page, &mut result).unwrap().is_empty());
    let mut page = b"[_cn ](https://web.archive.org/a)".to_vec();
    let notes = resolve_citations(&mut page, &mut result).unwrap();
    assert_eq!(
        String::from_utf8(notes).unwrap(),
        "<li id=\"cite-note-1\"> - <a href=\"https://web.archive.org/a\">archive</a></li>"
    );
}
