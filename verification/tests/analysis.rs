use vsm_generator::content::content_variables::ContentVariables;
use vsm_generator::content::markdown::{get_draft_info, process_variables, set_variables, BlogContent};
use vsm_generator::content::preliminary_analysis::{
    analyze_file, collect_files_for_processing, get_template, is_file_for_processing, Content,
};
use vsm_generator::content::front_matter::extract_variables;
use vsm_generator::content::{ContentResult, ErrorKind};
use vsm_generator::context::{Args, Context};
use vsm_generator::template_repository::TemplateRepository;

fn context() -> Context {
    let args = Args { project: b"site".to_vec(), output: b"out".to_vec() };
    Context::new(TemplateRepository::load(Vec::new()), args)
}

fn value(variables: &ContentVariables, key: &str) -> String {
    String::from_utf8(variables.get(key.as_bytes()).unwrap().clone()).unwrap()
}

const POST: &str = "---
title: \"A post\"
description: \"What it is about\"
tags: [\"one\", \"two\"]
date: 2024-03-01T12:30:00Z
draft: true
technical: false
difficulty: 1.5
---
# A post

## First part

Some words here [_cn The source](https://www.example.org/a https://web.archive.org/a).

## Second part

More words.
";

#[test]
fn markdown_file_is_analysed() {
    let context = context();
    let mut variables = ContentVariables::new();
    let mut result = ContentResult::new();
    let content = set_variables(
        &context,
        b"site/content/blog/a post.md",
        POST.as_bytes().to_vec(),
        &mut variables,
        &mut result,
    )
    .unwrap();
    let Content::Blog(blog) = content else { panic!("not a blog post") };
    assert_eq!(blog.link, b"blog/a post".to_vec());
    assert_eq!(blog.title, b"A post".to_vec());
    assert_eq!(blog.description, b"What it is about".to_vec());
    assert_eq!(blog.tags, vec![b"one".to_vec(), b"two".to_vec()]);
    assert_eq!(blog.date, 1_709_296_200_000_000_000);
    assert!(blog.draft);
    assert!(!blog.technical);
    assert_eq!(blog.difficulty, b"1.5".to_vec());
    assert_eq!(value(&variables, "md_title"), "A post");
    assert_eq!(value(&variables, "md_description"), "What it is about");
    assert_eq!(
        value(&variables, "md_date"),
        " 1 March 2024<div class=\"tooltip\">Friday,  1 March 2024 12:30:00 UTC</div>"
    );
    assert!(variables.get(b"md_background_url").is_none());
    assert_eq!(
        value(&variables, "md_content"),
        "<h1>A post</h1>\n<h2>First part</h2>\n<p>Some words here <a href=\"#cite-note-1\" class=\"cite-note\"><sup>[1]</sup></a>.</p>\n<h2>Second part</h2>\n<p>More words.</p>\n"
    );
    assert_eq!(
        value(&variables, "md_cite_notes"),
        "<li id=\"cite-note-1\">The source - <a href=\"https://www.example.org/a\">example.org</a> - <a href=\"https://web.archive.org/a\">archive</a></li>"
    );
    let mobile = "<li><a href=\"#first-part\">First part</a></li><li><a href=\"#second-part\">Second part</a></li><li><a href=\"#references\">References</a></li>";
    assert_eq!(value(&variables, "md_table_of_contents_mobile"), mobile);
    assert_eq!(
        value(&variables, "md_table_of_contents_desktop"),
        format!("<li><a class=\"top\" href=\"#\">(Top)</a></li>{mobile}")
    );
    assert_eq!(value(&variables, "md_tags"), "<a>#<strong>one</strong></a><a>#<strong>two</strong></a>");
    assert!(value(&variables, "warning").starts_with("<p class=\"warning\">This article is still a draft"));
    let words = words_count::count("\n# A post\n\n## First part\n\nSome words here [_cn The source](https://www.example.org/a https://web.archive.org/a).\n\n## Second part\n\nMore words.\n").words;
    assert_eq!(value(&variables, "md_word_count"), words.to_string());
    assert!(words > 5);
    assert!(result.errors().is_empty());
    assert!(result.warnings().is_empty());
}

#[test]
fn experiment_needs_no_fields() {
    let context = context();
    let mut variables = ContentVariables::new();
    let mut result = ContentResult::new();
    let content = set_variables(
        &context,
        b"site/content/exp/demo.md",
        b"---\ntitle: 2024\ndate: true\n---\ntext".to_vec(),
        &mut variables,
        &mut result,
    )
    .unwrap();
    assert!(matches!(content, Content::Exp(_)));
    assert_eq!(value(&variables, "md_title"), "2024");
    assert_eq!(value(&variables, "md_date"), "true");
    assert_eq!(value(&variables, "md_content"), "<p>text</p>\n");
    assert_eq!(
        value(&variables, "md_cite_notes"),
        "Unfortunatelly, there are no references in this article :("
    );
    assert!(variables.get(b"md_word_count").is_none());
    assert!(variables.get(b"md_tags").is_none());
    assert!(variables.get(b"warning").is_none());
}

fn failure(path: &str, file: &str) -> (ErrorKind, Vec<u8>) {
    let context = context();
    let mut variables = ContentVariables::new();
    let mut result = ContentResult::new();
    let error = set_variables(&context, path.as_bytes(), file.as_bytes().to_vec(), &mut variables, &mut result)
        .unwrap_err();
    (error.kind, error.detail)
}

#[test]
fn missing_or_mistyped_field_fails_the_file() {
    let file = POST.replace("draft: true\n", "");
    assert_eq!(failure("site/content/blog/p.md", &file), (ErrorKind::MissingField, b"draft".to_vec()));
    let file = POST.replace("difficulty: 1.5", "difficulty: \"hard\"");
    assert_eq!(
        failure("site/content/blog/p.md", &file),
        (ErrorKind::WrongFieldType, b"difficulty".to_vec())
    );
    let file = POST.replace("[\"one\", \"two\"]", "[\"one\", 2]");
    assert_eq!(failure("site/content/blog/p.md", &file), (ErrorKind::WrongFieldType, b"tags".to_vec()));
}

#[test]
fn unknown_section_fails_the_file() {
    assert_eq!(
        failure("site/content/notes/p.md", POST),
        (ErrorKind::UnknownSection, b"site/content/notes/p.md".to_vec())
    );
}

#[test]
fn bad_front_matter_or_citation_fails_the_file() {
    assert_eq!(
        failure("site/content/exp/p.md", "---\nwhen: never\n---\n").0,
        ErrorKind::InvalidTimestamp
    );
    assert_eq!(failure("site/content/exp/p.md", "see [_cn nothing) here").0, ErrorKind::MalformedCitation);
    let context = context();
    let mut variables = ContentVariables::new();
    let mut result = ContentResult::new();
    let error = set_variables(&context, b"site/content/exp/p.md", vec![0x66, 0xff, 0x66], &mut variables, &mut result)
        .unwrap_err();
    assert_eq!(error.kind, ErrorKind::InvalidText);
}

#[test]
fn fields_of_the_front_matter_become_variables() {
    let context = context();
    let mut variables = ContentVariables::new();
    let mut file = b"---\ntitle: \"T\"\ndescription: false\ndate: 3e2\nbackground_url: [\"a\"]\nother: \"x\"\n---\n".to_vec();
    let entries = extract_variables(&mut file, &mut ContentResult::new()).unwrap();
    let content = process_variables(&context, b"site/content/exp/x.md", &mut variables, entries).unwrap();
    assert!(matches!(content, Content::Exp(_)));
    assert_eq!(value(&variables, "md_title"), "T");
    assert_eq!(value(&variables, "md_description"), "false");
    assert_eq!(value(&variables, "md_date"), "3e2");
    assert!(variables.get(b"md_background_url").is_none());
    assert!(variables.get(b"md_other").is_none());
}

#[test]
fn draft_note() {
    let mut blog = BlogContent {
        link: Vec::new(),
        title: Vec::new(),
        description: Vec::new(),
        tags: Vec::new(),
        date: 0,
        draft: true,
        technical: false,
        difficulty: b"0".to_vec(),
    };
    assert_eq!(
        get_draft_info(&blog),
        b"<p class=\"warning\">This article is still a draft, changes may occur and should not be taken seriously</p>".to_vec()
    );
    blog.draft = false;
    assert!(get_draft_info(&blog).is_empty());
}

fn names(files: &[&str]) -> Vec<Vec<u8>> {
    files.iter().map(|f| f.as_bytes().to_vec()).collect()
}

#[test]
fn nearest_template_is_found() {
    let context = context();
    let templates = names(&["site/content/_template.html", "site/content/blog/_template.html"]);
    let found = |path: &str| get_template(&context, path.as_bytes(), &templates).map(|t| String::from_utf8(t).unwrap()).map_err(|e| e.kind);
    assert_eq!(found("site/content/blog/2024/post.md").unwrap(), "site/content/blog/_template.html");
    assert_eq!(found("site/content/blog/post.md").unwrap(), "site/content/blog/_template.html");
    assert_eq!(found("site/content/exp/deep/er/x.md").unwrap(), "site/content/_template.html");
    assert_eq!(found("site/content/x.md").unwrap(), "site/content/_template.html");
}

#[test]
fn template_above_the_project_does_not_count() {
    let context = context();
    let templates = names(&["_template.html", "elsewhere/_template.html"]);
    let error = get_template(&context, b"site/content/blog/post.md", &templates).unwrap_err();
    assert_eq!(error.kind, ErrorKind::TemplateNotFound);
    assert_eq!(error.detail, b"site/content/blog/post.md".to_vec());
    let templates = names(&["site/_template.html"]);
    assert_eq!(
        get_template(&context, b"site/content/post.md", &templates).unwrap(),
        b"site/_template.html".to_vec()
    );
}

#[test]
fn content_files_are_pages_and_markdown() {
    assert!(is_file_for_processing(b"site/content/index.html"));
    assert!(is_file_for_processing(b"site/content/blog/post.md"));
    assert!(!is_file_for_processing(b"site/content/_template.html"));
    assert!(!is_file_for_processing(b"site/content/blog/_template.html"));
    assert!(!is_file_for_processing(b"site/content/image.png"));
    assert!(!is_file_for_processing(b"site/content/README"));
    assert!(!is_file_for_processing(b"site/content/.md"));
    assert!(is_file_for_processing(b"site/content/my_template.html"));
    let files = names(&["c/a.md", "c/_template.html", "c/b.txt", "c/d/e.html", "c/f"]);
    assert_eq!(collect_files_for_processing(&files), names(&["c/a.md", "c/d/e.html"]));
}

#[test]
fn page_is_its_own_template() {
    let context = context();
    let mut result = ContentResult::new();
    let output = analyze_file(
        &context,
        b"site/content/about/index.html".to_vec(),
        b"<html></html>".to_vec(),
        &Vec::new(),
        &mut result,
    )
    .unwrap();
    assert_eq!(output.path, b"site/content/about/index.html".to_vec());
    assert_eq!(output.template_path, output.path);
    assert!(output.content.is_none());
    assert_eq!(value(&output.variables, "link"), "about/index");
    assert_eq!(value(&output.variables, "warning"), "");
    assert!(output.variables.get(b"md_content").is_none());
}

#[test]
fn markdown_file_needs_a_template() {
    let context = context();
    let mut result = ContentResult::new();
    let error = analyze_file(&context, b"site/content/exp/x.md".to_vec(), b"text".to_vec(), &Vec::new(), &mut result)
        .unwrap_err();
    assert_eq!(error.kind, ErrorKind::TemplateNotFound);
    let templates = names(&["site/content/_template.html"]);
    let output = analyze_file(&context, b"site/content/exp/x.md".to_vec(), b"text".to_vec(), &templates, &mut result)
        .unwrap();
    assert_eq!(output.template_path, b"site/content/_template.html".to_vec());
    assert!(matches!(output.content, Some(Content::Exp(_))));
    assert_eq!(value(&output.variables, "link"), "exp/x");
    assert_eq!(value(&output.variables, "md_content"), "<p>text</p>\n");
}

#[test]
fn references_are_linked_where_the_page_has_citations() {
    let context = context();
    let mut result = ContentResult::new();
    let mut variables = ContentVariables::new();
    set_variables(
        &context,
        b"site/content/exp/plain.md",
        b"## A\n\ntext\n".to_vec(),
        &mut variables,
        &mut result,
    )
    .unwrap();
    assert_eq!(value(&variables, "md_table_of_contents_mobile"), "<li><a href=\"#a\">A</a></li>");
    assert_eq!(
        value(&variables, "md_table_of_contents_desktop"),
        "<li><a class=\"top\" href=\"#\">(Top)</a></li><li><a href=\"#a\">A</a></li>"
    );
    let mut variables = ContentVariables::new();
    set_variables(
        &context,
        b"site/content/exp/cited.md",
        b"## A\n\ntext [_cn s](https://s.example/ https://web.archive.org/s)\n".to_vec(),
        &mut variables,
        &mut result,
    )
    .unwrap();
    assert_eq!(
        value(&variables, "md_table_of_contents_mobile"),
        "<li><a href=\"#a\">A</a></li><li><a href=\"#references\">References</a></li>"
    );
}

#[test]
fn project_with_a_separator_at_its_end() {
    let args = Args { project: b"site/".to_vec(), output: b"out".to_vec() };
    let context = Context::new(TemplateRepository::load(Vec::new()), args);
    let templates = names(&["_template.html", "site/_template.html"]);
    assert_eq!(
        get_template(&context, b"site/content/post.md", &templates).unwrap(),
        b"site/_template.html".to_vec()
    );
    let templates = names(&["_template.html"]);
    let error = get_template(&context, b"site/content/post.md", &templates).unwrap_err();
    assert_eq!(error.kind, ErrorKind::TemplateNotFound);
}
