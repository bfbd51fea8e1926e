use vsm_generator::content::{ContentError, ContentResult, ErrorKind};

#[test]
fn new_result_is_empty() {
    let result = ContentResult::new();
    assert!(result.errors().is_empty());
    assert!(result.warnings().is_empty());
}

#[test]
fn errors_and_warnings_are_kept_apart_and_in_order() {
    let mut result = ContentResult::new();
    result.push_error(ContentError::new(ErrorKind::UnknownVariable, 4, b"key"));
    result.push_warning(ContentError::at(ErrorKind::CitationWithoutLink, 9));
    result.push_error(ContentError::at(ErrorKind::Markup, 7));
    assert_eq!(result.errors().len(), 2);
    assert_eq!(result.warnings().len(), 1);
    assert_eq!(result.errors()[0].kind, ErrorKind::UnknownVariable);
    assert_eq!(result.errors()[0].position, 4);
    assert_eq!(result.errors()[0].detail, b"key".to_vec());
    assert_eq!(result.errors()[1].kind, ErrorKind::Markup);
    assert!(result.errors()[1].detail.is_empty());
    assert_eq!(result.warnings()[0].position, 9);
}

#[test]
fn merge_appends_the_other_result() {
    let mut first = ContentResult::new();
    first.push_error(ContentError::at(ErrorKind::Markup, 1));
    let mut second = ContentResult::new();
    second.push_error(ContentError::at(ErrorKind::InvalidText, 2));
    second.push_warning(ContentError::at(ErrorKind::UnterminatedArray, 3));
    first.merge(second);
    assert_eq!(first.errors().len(), 2);
    assert_eq!(first.errors()[1].kind, ErrorKind::InvalidText);
    assert_eq!(first.warnings().len(), 1);
}

#[test]
fn errors_in_words() {
    let error = ContentError::new(ErrorKind::UnknownVariable, 12, b"title");
    assert_eq!(
        String::from_utf8(error.message()).unwrap(),
        "Unable to find variable with key 'title'. In position 12."
    );
    let error = ContentError::at(ErrorKind::UnterminatedVariable, 0);
    assert_eq!(String::from_utf8(error.message()).unwrap(), "Unable to find end of variable. In position 0.");
    let error = ContentError::new(ErrorKind::TemplateNotFound, 0, b"site/content/x.md");
    assert_eq!(
        String::from_utf8(error.message()).unwrap(),
        "Template not found for file 'site/content/x.md'. In position 0."
    );
}
