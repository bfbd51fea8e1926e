use vsm_generator::content::content_variables::ContentVariables;
use vsm_generator::content::{ContentResult, ErrorKind};
use vsm_generator::context::{Args, Context};
use vsm_generator::template_repository::TemplateRepository;

fn context(post_list: &str) -> Context {
    let args = Args { project: b"site".to_vec(), output: b"out".to_vec() };
    let mut context = Context::new(TemplateRepository::load(Vec::new()), args);
    context.md_post_list.set(post_list.as_bytes().to_vec());
    context
}

fn run(text: &str, variables: &mut ContentVariables, result: &mut ContentResult) -> String {
    let mut data = text.as_bytes().to_vec();
    let len = data.len();
    variables.apply(&mut data, 0..len, &context("<posts>"), result);
    String::from_utf8(data).unwrap()
}

#[test]
fn buffer_without_markers_is_unchanged() {
    let mut variables = ContentVariables::new();
    let mut result = ContentResult::new();
    let text = "<p>no { markers } here, not even }} or { {</p>";
    assert_eq!(run(text, &mut variables, &mut result), text);
    assert!(result.errors().is_empty());
    assert!(result.warnings().is_empty());
}

#[test]
fn assignment_before_use() {
    let mut variables = ContentVariables::new();
    let mut result = ContentResult::new();
    assert_eq!(run("{{x:hello}}{{x}}", &mut variables, &mut result), "hello");
    assert!(result.errors().is_empty());
    assert_eq!(variables.get(b"x").unwrap(), &b"hello".to_vec());
}

#[test]
fn unknown_key_fails() {
    let mut variables = ContentVariables::new();
    let mut result = ContentResult::new();
    let out = run("a {{does_not_exist}} b", &mut variables, &mut result);
    assert_eq!(out, "a {{does_not_exist}} b");
    assert_eq!(result.errors().len(), 1);
    let error = &result.errors()[0];
    assert_eq!(error.kind, ErrorKind::UnknownVariable);
    assert_eq!(error.detail, b"does_not_exist".to_vec());
    assert_eq!(error.position, 2);
}

#[test]
fn new_store_is_empty() {
    let mut variables = ContentVariables::new();
    assert!(variables.get(b"warning").is_none());
    assert!(variables.get(b"").is_none());
    let mut result = ContentResult::new();
    assert_eq!(run("[{{warning}}]", &mut variables, &mut result), "[{{warning}}]");
    assert_eq!(result.errors().len(), 1);
    assert_eq!(result.errors()[0].detail, b"warning".to_vec());
}

#[test]
fn pass_hands_back_the_error_that_stopped_it() {
    let mut variables = ContentVariables::new();
    variables.insert(b"a".to_vec(), b"A".to_vec());
    let mut data = b"{{a}}{{b}}{{a}}".to_vec();
    let len = data.len();
    let error = variables.substitute_in(&mut data, 0..len, &context("")).unwrap();
    assert_eq!(error.kind, ErrorKind::UnknownVariable);
    assert_eq!(error.detail, b"b".to_vec());
    assert_eq!(error.position, 1);
    assert_eq!(data, b"A{{b}}{{a}}".to_vec());
    let mut data = b"{{a}}".to_vec();
    assert!(variables.substitute_in(&mut data, 0..5, &context("")).is_none());
    assert_eq!(data, b"A".to_vec());
}

#[test]
fn later_insert_overwrites() {
    let mut variables = ContentVariables::new();
    variables.insert(b"k".to_vec(), b"one".to_vec());
    variables.insert(b"k".to_vec(), b"two".to_vec());
    assert_eq!(variables.get(b"k").unwrap(), &b"two".to_vec());
    assert!(variables.get(b"other").is_none());
    let copy = variables.copy();
    assert_eq!(copy.get(b"k").unwrap(), &b"two".to_vec());
}

#[test]
fn lookup_is_not_read_again() {
    let mut variables = ContentVariables::new();
    variables.insert(b"a".to_vec(), b"{{b}}".to_vec());
    variables.insert(b"b".to_vec(), b"deep".to_vec());
    let mut result = ContentResult::new();
    assert_eq!(run("{{a}}-{{b}}", &mut variables, &mut result), "{{b}}-deep");
}

#[test]
fn post_list_key_is_reserved() {
    let mut variables = ContentVariables::new();
    variables.insert(b"md_post_list".to_vec(), b"shadow".to_vec());
    let mut result = ContentResult::new();
    assert_eq!(run("{{md_post_list}}", &mut variables, &mut result), "<posts>");
}

#[test]
fn unterminated_marker_is_an_error() {
    let mut variables = ContentVariables::new();
    let mut result = ContentResult::new();
    assert_eq!(run("ab{{oops", &mut variables, &mut result), "ab{{oops");
    assert_eq!(result.errors().len(), 1);
    assert_eq!(result.errors()[0].kind, ErrorKind::UnterminatedVariable);
    assert_eq!(result.errors()[0].position, 2);
}

#[test]
fn assignment_keeps_nested_markers_in_its_value() {
    let mut variables = ContentVariables::new();
    variables.insert(b"name".to_vec(), b"N".to_vec());
    let mut result = ContentResult::new();
    let out = run("{{title:Dear {{name}}!}}[{{title}}]", &mut variables, &mut result);
    assert_eq!(out, "[Dear {{name}}!]");
    assert_eq!(variables.get(b"title").unwrap(), &b"Dear {{name}}!".to_vec());
    assert!(result.errors().is_empty());
}

#[test]
fn range_limits_the_pass() {
    let mut variables = ContentVariables::new();
    variables.insert(b"v".to_vec(), b"long value".to_vec());
    let mut result = ContentResult::new();
    let mut data = b"{{v}} {{v}} {{v}}".to_vec();
    variables.apply(&mut data, 6..11, &context(""), &mut result);
    assert_eq!(data, b"{{v}} long value {{v}}".to_vec());
}
