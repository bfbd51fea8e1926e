use std::path::Path;
use vsm_generator::context::{Args, Context, PostListCell};
use vsm_generator::path::{
    extension_of, file_name_of, file_stem_of, join_path, parent_of, remove_extension,
    replace_extension, strip_path_prefix,
};
use vsm_generator::template::Template;
use vsm_generator::template_repository::TemplateRepository;

fn text(bytes: Vec<u8>) -> String {
    String::from_utf8(bytes).unwrap()
}

fn context(project: &str) -> Context {
    let args = Args { project: project.as_bytes().to_vec(), output: b"out".to_vec() };
    Context::new(TemplateRepository::load(Vec::new()), args)
}

#[test]
fn content_directory_lies_below_the_project() {
    assert_eq!(text(context("../site").args.project_content()), "../site/content");
    assert_eq!(text(context("/srv/site/").args.project_content()), "/srv/site/content");
    assert_eq!(text(context("").args.project_content()), "content");
}

#[test]
fn link_is_the_path_below_the_content_directory() {
    let context = context("site");
    assert_eq!(text(context.get_file_link(b"site/content/blog/first post.md")), "blog/first post");
    assert_eq!(text(context.get_file_link(b"site/content/index.html")), "index");
    assert_eq!(text(context.get_file_link(b"site/content/a.b/c.tar.gz")), "a.b/c.tar");
    assert_eq!(text(context.get_file_link(b"site/content/.hidden")), ".hidden");
    assert_eq!(text(context.get_file_link(b"site/content")), "");
}

#[test]
fn file_stem_and_extension() {
    assert_eq!(file_stem_of(b"header.html"), b"header");
    assert_eq!(file_stem_of(b"a.b.html"), b"a.b");
    assert_eq!(file_stem_of(b".hidden"), b".hidden");
    assert_eq!(file_stem_of(b"plain"), b"plain");
    assert_eq!(file_stem_of(b"dot."), b"dot");
    assert_eq!(file_stem_of(b".."), b"..");
    assert_eq!(extension_of(b"a/b.c/file.md"), Some(&b"md"[..]));
    assert_eq!(extension_of(b"a/b.c/file"), None);
    assert_eq!(extension_of(b"a/.profile"), None);
    assert_eq!(extension_of(b"a/x."), Some(&b""[..]));
    assert_eq!(file_name_of(b"a/b/c.d"), b"c.d");
    assert_eq!(file_name_of(b"c.d"), b"c.d");
    assert_eq!(file_name_of(b"a/"), b"");
}

#[test]
fn paths_agree_with_the_standard_library() {
    for sample in ["a/", "a/b/", "a//", "/a/", "/"] {
        assert_eq!(
            parent_of(sample.as_bytes()).map(|p| p.to_vec()),
            Path::new(sample).parent().map(|p| p.to_str().unwrap().as_bytes().to_vec()),
            "{sample}"
        );
    }
    for sample in ["a/b/c.md", "c.md", "a.b/c", "x/.hidden", "a/b.tar.gz", "/root/x.y", "x."] {
        let path = Path::new(sample);
        assert_eq!(
            text(remove_extension(sample.as_bytes())),
            path.with_extension("").to_str().unwrap(),
            "{sample}"
        );
        assert_eq!(
            text(replace_extension(sample.as_bytes(), b"html")),
            path.with_extension("html").to_str().unwrap(),
            "{sample}"
        );
        assert_eq!(
            extension_of(sample.as_bytes()).map(|e| e.to_vec()),
            path.extension().map(|e| e.to_str().unwrap().as_bytes().to_vec()),
            "{sample}"
        );
        assert_eq!(
            parent_of(sample.as_bytes()).map(|p| p.to_vec()),
            path.parent().map(|p| p.to_str().unwrap().as_bytes().to_vec()),
            "{sample}"
        );
        assert_eq!(
            text(join_path(b"base/dir", sample.as_bytes())),
            Path::new("base/dir").join(sample).to_str().unwrap(),
            "{sample}"
        );
    }
    assert_eq!(parent_of(b""), None);
    assert_eq!(parent_of(b"/"), None);
    assert_eq!(parent_of(b"/a"), Some(&b"/"[..]));
    assert_eq!(parent_of(b"a"), Some(&b""[..]));
}

#[test]
fn prefix_is_stripped_by_components() {
    assert_eq!(strip_path_prefix(b"site/content/a.md", b"site/content"), Some(&b"a.md"[..]));
    assert_eq!(strip_path_prefix(b"site/content/a.md", b"site/content/"), Some(&b"a.md"[..]));
    assert_eq!(strip_path_prefix(b"site/content", b"site/content"), Some(&b""[..]));
    assert_eq!(strip_path_prefix(b"site/contents/a.md", b"site/content"), None);
    assert_eq!(strip_path_prefix(b"other/a.md", b"site"), None);
    assert_eq!(strip_path_prefix(b"a/b", b""), Some(&b"a/b"[..]));
    assert_eq!(strip_path_prefix(b"/a/b", b""), None);
}

#[test]
fn template_is_named_after_its_file() {
    let template = Template::load(b"nav-bar.html", b"<nav></nav>".to_vec());
    assert_eq!(template.name, b"nav-bar".to_vec());
    assert_eq!(template.data, b"<nav></nav>".to_vec());
    assert_eq!(Template::load(b"footer", Vec::new()).name, b"footer".to_vec());
}

#[test]
fn last_loaded_template_wins() {
    let repository = TemplateRepository::load(vec![
        Template::load(b"card.html", b"first".to_vec()),
        Template::load(b"other.html", b"other".to_vec()),
        Template::load(b"card.htm", b"second".to_vec()),
    ]);
    assert_eq!(repository.get(b"card").unwrap().data, b"second".to_vec());
    assert_eq!(repository.get(b"other").unwrap().data, b"other".to_vec());
    assert!(repository.get(b"missing").is_none());
    assert!(repository.get(b"card.html").is_none());
}

#[test]
fn post_list_cell_is_assigned_once() {
    let mut cell = PostListCell::new();
    assert!(!cell.is_set());
    cell.set(b"<ul></ul>".to_vec());
    assert!(cell.is_set());
    assert_eq!(cell.get(), b"<ul></ul>");
}
