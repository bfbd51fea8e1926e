use vsm_generator::content::pipeline::{
    analyse_all, process_content, process_file, render_all, Page, SourceFile,
};
use vsm_generator::content::{ContentResult, ErrorKind};
use vsm_generator::context::{Args, Context};
use vsm_generator::template::Template;
use std::io::Read;
use vsm_generator::template_repository::TemplateRepository;

fn file(path: &str, data: &str) -> SourceFile {
    SourceFile { path: path.as_bytes().to_vec(), data: data.as_bytes().to_vec() }
}

fn context() -> Context {
    let templates = vec![
        Template::load(b"site-head.html", b"<head><title>{{md_title}}</title></head>".to_vec()),
        Template::load(b"post-list.html", b"<section>{{md_post_list}}</section>".to_vec()),
    ];
    let args = Args { project: b"site".to_vec(), output: b"public".to_vec() };
    Context::new(TemplateRepository::load(templates), args)
}

fn post(title: &str, date: &str, draft: bool) -> String {
    format!(
        "---\ntitle: \"{title}\"\ndescription: \"d\"\ntags: [\"t\"]\ndate: {date}\ndraft: {draft}\ntechnical: false\ndifficulty: 1\n---\nBody of {title}.\n"
    )
}

fn html(page: &Page) -> String {
    String::from_utf8(page.html.clone()).unwrap()
}

fn page<'a>(pages: &'a [Page], path: &str) -> &'a Page {
    pages.iter().find(|p| p.path == path.as_bytes()).unwrap()
}

fn site() -> (Vec<SourceFile>, Vec<SourceFile>) {
    let files = vec![
        file("site/content/index.html", "<html><site-head><body>{{md_title:Home}}<post-list></body></html>"),
        file("site/content/blog/old.md", &post("Old", "2023-01-01T00:00:00Z", false)),
        file("site/content/blog/new.md", &post("New", "2024-01-01T00:00:00Z", false)),
        file("site/content/blog/wip.md", &post("Wip", "2024-06-01T00:00:00Z", true)),
        file("site/content/blog/broken.md", "---\ntitle: \"Broken\"\n---\n"),
    ];
    let layouts = vec![file(
        "site/content/blog/_template.html",
        "<html><site-head><body>{{warning}}<article>{{md_content}}</article><post-list></body></html>",
    )];
    (files, layouts)
}

#[test]
fn run_renders_every_file_that_does_not_fail() {
    let mut context = context();
    let (files, layouts) = site();
    let (result, pages) = process_content(&mut context, &files, &layouts, false, 100);
    assert_eq!(pages.len(), 4);
    assert_eq!(result.errors().len(), 1);
    assert_eq!(result.errors()[0].kind, ErrorKind::MissingField);
    assert_eq!(result.errors()[0].detail, b"description".to_vec());
    let index = html(page(&pages, "public/content/index.html"));
    assert!(index.starts_with("<html><head><title>Home</title></head><body><section><div class=\"post-list\">"));
    let new = html(page(&pages, "public/content/blog/new.html"));
    assert!(new.contains("<title>New</title>"));
    assert!(new.contains("<article><p>Body of New.</p>\n</article>"));
    let wip = html(page(&pages, "public/content/blog/wip.html"));
    assert!(wip.contains("<p class=\"warning\">This article is still a draft"));
}

#[test]
fn every_page_sees_the_list_of_all_posts() {
    let mut context = context();
    let (files, layouts) = site();
    assert!(!context.md_post_list.is_set());
    let (_, pages) = process_content(&mut context, &files, &layouts, false, 100);
    assert!(context.md_post_list.is_set());
    let list = String::from_utf8(context.md_post_list.get().to_vec()).unwrap();
    assert!(list.find(">New</a>").unwrap() < list.find(">Old</a>").unwrap());
    assert!(!list.contains("Wip"));
    for page in &pages {
        let text = html(page);
        assert!(text.contains(&format!("<section>{list}</section>")), "{:?}", page.path);
    }
}

#[test]
fn barrier_ordering() {
    let mut context = context();
    let (files, layouts) = site();
    let templates: Vec<Vec<u8>> = layouts.iter().map(|l| l.path.clone()).collect();
    let mut result = ContentResult::new();
    let outputs = analyse_all(&context, &files, &templates, &mut result);
    assert_eq!(outputs.len(), 4);
    assert!(!context.md_post_list.is_set(), "the first wave does not assign the list");
    let list = vsm_generator::content::post_list::create_md_post_list(&outputs);
    context.md_post_list.set(list.clone());
    assert!(context.md_post_list.is_set(), "the second wave starts with the list assigned");
    let pages = render_all(&context, &outputs, &layouts, &files, false, 100, &mut result);
    assert_eq!(pages.len(), 4);
    assert_eq!(context.md_post_list.get(), list.as_slice());
}

#[test]
fn file_outside_the_content_directory_is_an_error() {
    let mut context = context();
    let files = vec![file("elsewhere/page.html", "<p></p>"), file("site/content/ok.html", "<p></p>")];
    let (result, pages) = process_content(&mut context, &files, &Vec::new(), false, 10);
    assert_eq!(pages.len(), 1);
    assert_eq!(pages[0].path, b"public/content/ok.html".to_vec());
    assert_eq!(result.errors().len(), 1);
    assert_eq!(result.errors()[0].kind, ErrorKind::OutsideProject);
    assert_eq!(result.errors()[0].detail, b"elsewhere/page.html".to_vec());
}

#[test]
fn rendering_errors_are_collected() {
    let mut context = context();
    let files = vec![
        file("site/content/a.html", "<p>{{nope}}</p>"),
        file("site/content/b.html", "<p>fine</p>"),
        file("site/content/c.html", "<p>text<!broken"),
    ];
    let (result, pages) = process_content(&mut context, &files, &Vec::new(), false, 10);
    assert_eq!(pages.len(), 1);
    assert_eq!(pages[0].path, b"public/content/b.html".to_vec());
    let kinds: Vec<ErrorKind> = result.errors().iter().map(|e| e.kind).collect();
    assert_eq!(kinds, vec![ErrorKind::UnknownVariable, ErrorKind::Markup]);
    assert_eq!(result.errors()[0].detail, b"nope".to_vec());
    assert!(result.warnings().is_empty());
}

#[test]
fn warnings_of_the_analysis_are_collected() {
    let mut context = context();
    let files = vec![file(
        "site/content/exp/x.md",
        "---\ntitle: \"open\n---\n[_cn d](https://a.example https://b.example)",
    )];
    let layouts = vec![file("site/content/_template.html", "{{md_content}}|{{md_title}}")];
    let (result, pages) = process_content(&mut context, &files, &layouts, false, 10);
    assert!(result.errors().is_empty());
    let kinds: Vec<ErrorKind> = result.warnings().iter().map(|e| e.kind).collect();
    assert_eq!(kinds, vec![ErrorKind::UnterminatedString, ErrorKind::CitationWithoutArchive]);
    assert_eq!(pages.len(), 1);
    assert!(html(&pages[0]).ends_with("|ope"));
}

#[test]
fn one_file_is_rendered_from_its_output() {
    let mut context = context();
    let (files, layouts) = site();
    let templates: Vec<Vec<u8>> = layouts.iter().map(|l| l.path.clone()).collect();
    let mut result = ContentResult::new();
    let outputs = analyse_all(&context, &files, &templates, &mut result);
    context.md_post_list.set(b"LIST".to_vec());
    let (rendering, page) =
        process_file(&context, &outputs[0], files[0].data.clone(), false, 10).unwrap();
    assert_eq!(page.path, b"public/content/index.html".to_vec());
    assert_eq!(html(&page), "<html><head><title>Home</title></head><body><section>LIST</section></body></html>");
    assert!(rendering.errors().is_empty());
    assert!(outputs[0].variables.get(b"md_title").is_none());
}

#[test]
fn page_is_compressed_beside_its_markup() {
    let mut context = context();
    let files = vec![file("site/content/long.html", &"<p>again and again</p>".repeat(50))];
    let (_, pages) = process_content(&mut context, &files, &Vec::new(), false, 10);
    let page = &pages[0];
    assert_ne!(page.deflated, page.html);
    assert!(page.deflated.len() < page.html.len());
    let mut inflated = Vec::new();
    flate2::read::ZlibDecoder::new(page.deflated.as_slice()).read_to_end(&mut inflated).unwrap();
    assert_eq!(inflated, page.html);
}

#[test]
fn citation_with_a_bad_link_is_recorded_and_passed_over() {
    let mut context = context();
    let files = vec![file(
        "site/content/exp/x.md",
        "a [_cn bad](nowhere https://web.archive.org/a) b [_cn good](https://b.example/ https://web.archive.org/b)",
    )];
    let layouts = vec![file("site/content/_template.html", "{{md_content}}|{{md_cite_notes}}")];
    let (result, pages) = process_content(&mut context, &files, &layouts, false, 10);
    assert_eq!(result.errors().len(), 1);
    assert_eq!(result.errors()[0].kind, ErrorKind::InvalidUrl);
    assert_eq!(result.errors()[0].detail, b"nowhere".to_vec());
    assert_eq!(pages.len(), 1);
    let text = html(&pages[0]);
    assert!(text.contains("[_cn bad](nowhere https://web.archive.org/a)"));
    assert!(text.contains("<sup>[1]</sup>"));
    assert!(text.contains("<li id=\"cite-note-1\">good - "));
}
