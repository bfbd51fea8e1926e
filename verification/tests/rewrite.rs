use vsm_generator::content::content_variables::ContentVariables;
use vsm_generator::content::rewrite::create_html_file;
use vsm_generator::content::{ContentResult, ErrorKind};
use vsm_generator::context::{Args, Context};
use vsm_generator::template::Template;
use vsm_generator::template_repository::TemplateRepository;

fn context(fragments: &[(&str, &str)]) -> Context {
    let mut templates = Vec::new();
    for (file, data) in fragments {
        templates.push(Template::load(file.as_bytes(), data.as_bytes().to_vec()));
    }
    let args = Args { project: b"site".to_vec(), output: b"out".to_vec() };
    let mut context = Context::new(TemplateRepository::load(templates), args);
    context.md_post_list.set(b"<ul>posts</ul>".to_vec());
    context
}

fn render(context: &Context, page: &str, variables: &mut ContentVariables) -> (String, ContentResult) {
    let mut result = ContentResult::new();
    let html = create_html_file(context, page.as_bytes().to_vec(), variables, &mut result, false, 100)
        .unwrap();
    (String::from_utf8(html).unwrap(), result)
}

#[test]
fn page_without_fragments_is_kept() {
    let context = context(&[]);
    let mut variables = ContentVariables::new();
    let page = "<html><body><p>plain &amp; simple</p><br/><!-- note --></body></html>";
    let (html, result) = render(&context, page, &mut variables);
    assert_eq!(html, page);
    assert!(result.errors().is_empty());
}

#[test]
fn fragment_takes_the_place_of_its_opening_tag() {
    let context = context(&[("footer.html", "<footer>bye</footer>")]);
    let mut variables = ContentVariables::new();
    let (html, result) = render(&context, "<body><site-end></body>", &mut variables);
    assert_eq!(html, "<body><site-end></body>");
    assert!(result.errors().is_empty());
    let context = self::context(&[("site-end.html", "<footer>bye</footer>")]);
    let (html, _) = render(&context, "<body><site-end></body>", &mut variables);
    assert_eq!(html, "<body><footer>bye</footer></body>");
}

#[test]
fn template_fixed_point() {
    let context = context(&[
        ("layout.html", "<div class=\"page\"><banner><main>{{body}}</main></div>"),
        ("banner.html", "<nav>{{site}}</nav>"),
    ]);
    let mut variables = ContentVariables::new();
    variables.insert(b"body".to_vec(), b"text".to_vec());
    variables.insert(b"site".to_vec(), b"Home".to_vec());
    let (html, result) = render(&context, "<html><layout></html>", &mut variables);
    assert_eq!(html, "<html><div class=\"page\"><nav>Home</nav><main>text</main></div></html>");
    assert!(!html.contains("<layout"));
    assert!(!html.contains("<banner"));
    assert!(!html.contains("{{"));
    assert!(result.errors().is_empty());
}

#[test]
fn fragment_with_attributes_is_replaced_whole() {
    let context = context(&[("card.html", "<section>card</section>")]);
    let mut variables = ContentVariables::new();
    let (html, _) = render(&context, "a<card kind=\"x\" >b", &mut variables);
    assert_eq!(html, "a<section>card</section>b");
}

#[test]
fn fragments_that_include_each_other_run_out_of_rewrites() {
    let context = context(&[("a.html", "<b>"), ("b.html", "<a>")]);
    let mut variables = ContentVariables::new();
    let mut result = ContentResult::new();
    let error = create_html_file(&context, b"<a>".to_vec(), &mut variables, &mut result, false, 25)
        .unwrap_err();
    assert_eq!(error.kind, ErrorKind::RewriteLimit);
}

#[test]
fn heading_gets_an_anchor() {
    let context = context(&[]);
    let mut variables = ContentVariables::new();
    let (html, result) = render(&context, "<h1>Title</h1><h2>First Part</h2><p>x</p>", &mut variables);
    assert_eq!(
        html,
        "<h1>Title</h1><h2 class=\"header-text\" id=\"first-part\"><a href=\"#first-part\"><span>#</span> First Part</a></h2><p>x</p>"
    );
    assert!(result.errors().is_empty());
}

#[test]
fn every_heading_is_upgraded_once() {
    let context = context(&[]);
    let mut variables = ContentVariables::new();
    let (html, _) = render(&context, "<h2>A</h2><h3>B b</h3><h2>C</h2>", &mut variables);
    assert_eq!(
        html,
        concat_all(&[
            "<h2 class=\"header-text\" id=\"a\"><a href=\"#a\"><span>#</span> A</a></h2>",
            "<h3 class=\"header-text\" id=\"b-b\"><a href=\"#b-b\"><span>#</span> B b</a></h3>",
            "<h2 class=\"header-text\" id=\"c\"><a href=\"#c\"><span>#</span> C</a></h2>",
        ])
    );
}

fn concat_all(parts: &[&str]) -> String {
    let mut out = String::new();
    for part in parts {
        out.push_str(part);
    }
    out
}

#[test]
fn variables_of_the_page_are_filled_in() {
    let context = context(&[("post.html", "<article>{{md_content}}</article>{{md_post_list}}")]);
    let mut variables = ContentVariables::new();
    variables.insert(b"md_content".to_vec(), b"<p>hi</p>".to_vec());
    let (html, result) = render(&context, "{{lang:en}}<html lang=\"{{lang}}\"><post></html>", &mut variables);
    assert_eq!(html, "<html lang=\"en\"><article><p>hi</p></article><ul>posts</ul></html>");
    assert!(result.errors().is_empty());
}

#[test]
fn unknown_variable_fails_the_page() {
    let context = context(&[]);
    let mut variables = ContentVariables::new();
    let mut result = ContentResult::new();
    let error = create_html_file(&context, b"<p>{{nope}}</p>".to_vec(), &mut variables, &mut result, false, 10)
        .unwrap_err();
    assert_eq!(error.kind, ErrorKind::UnknownVariable);
    assert_eq!(error.detail, b"nope".to_vec());
    assert_eq!(error.position, 3);
    assert_eq!(result.errors().len(), 1);
    assert_eq!(result.errors()[0].detail, b"nope".to_vec());
}

#[test]
fn unknown_variable_in_a_fragment_fails_the_page() {
    let context = context(&[("card.html", "<b>{{missing}}</b>")]);
    let mut variables = ContentVariables::new();
    let mut result = ContentResult::new();
    let error = create_html_file(&context, b"<p><card></p>".to_vec(), &mut variables, &mut result, false, 10)
        .unwrap_err();
    assert_eq!(error.kind, ErrorKind::UnknownVariable);
    assert_eq!(error.detail, b"missing".to_vec());
}

#[test]
fn marker_that_is_not_closed_fails_the_page() {
    let context = context(&[]);
    let mut variables = ContentVariables::new();
    let mut result = ContentResult::new();
    let error = create_html_file(&context, b"<p>{{open</p>".to_vec(), &mut variables, &mut result, false, 10)
        .unwrap_err();
    assert_eq!(error.kind, ErrorKind::UnterminatedVariable);
    assert_eq!(error.position, 3);
}

#[test]
fn broken_markup_fails_the_page() {
    let context = context(&[]);
    let mut variables = ContentVariables::new();
    let mut result = ContentResult::new();
    let page = create_html_file(&context, b"<p>text<".to_vec(), &mut variables, &mut result, false, 10);
    assert_eq!(page.unwrap(), b"<p>text<".to_vec());
    let error = create_html_file(&context, b"<p>text<!x".to_vec(), &mut variables, &mut result, false, 10)
        .unwrap_err();
    assert_eq!(error.kind, ErrorKind::Markup);
    assert_eq!(error.position, 7);
}

#[test]
fn production_pages_are_minified() {
    let context = context(&[]);
    let mut variables = ContentVariables::new();
    let mut result = ContentResult::new();
    let page = "<html>\n    <body>\n        <p>x</p>\n    </body>\n</html>\n";
    let html = create_html_file(&context, page.as_bytes().to_vec(), &mut variables, &mut result, true, 10)
        .unwrap();
    let html = String::from_utf8(html).unwrap();
    assert_ne!(html, page);
    assert_eq!(html, minify::html::minify(page));
    assert!(html.len() < page.len());
}

#[test]
fn byte_order_mark_in_the_text_is_text() {
    let context = context(&[("card.html", "<section>card</section>")]);
    let mut variables = ContentVariables::new();
    let (html, result) = render(&context, "<p>a</p>\u{feff}<card>\u{feff}b<card>", &mut variables);
    assert_eq!(html, "<p>a</p>\u{feff}<section>card</section>\u{feff}b<section>card</section>");
    assert!(result.errors().is_empty());
}

#[test]
fn text_runs_to_the_next_tag_or_to_the_end() {
    let context = context(&[("x.html", "[x]")]);
    let mut variables = ContentVariables::new();
    let (html, _) = render(&context, "lead > text <x> mid <x/> <!-- <x> --> tail", &mut variables);
    assert_eq!(html, "lead > text [x] mid <x/> <!-- <x> --> tail");
    let (html, _) = render(&context, "", &mut variables);
    assert_eq!(html, "");
    let (html, _) = render(&context, "t", &mut variables);
    assert_eq!(html, "t");
}

#[test]
fn element_name_that_is_no_text_fails_the_page() {
    let context = context(&[]);
    let mut variables = ContentVariables::new();
    let mut result = ContentResult::new();
    let error = create_html_file(&context, b"ab<p\xff>x</p>".to_vec(), &mut variables, &mut result, false, 10)
        .unwrap_err();
    assert_eq!(error.kind, ErrorKind::InvalidEncoding);
    assert_eq!(error.position, 6);
}

#[test]
fn page_that_is_no_text_cannot_be_minified() {
    let context = context(&[]);
    let mut variables = ContentVariables::new();
    let mut result = ContentResult::new();
    let page = b"<p>\xff</p>".to_vec();
    let kept = create_html_file(&context, page.clone(), &mut variables, &mut result, false, 10).unwrap();
    assert_eq!(kept, page);
    let error = create_html_file(&context, page, &mut variables, &mut result, true, 10).unwrap_err();
    assert_eq!(error.kind, ErrorKind::InvalidText);
}

#[test]
fn heading_that_does_not_fit_its_tags_is_left() {
    let context = context(&[]);
    let mut variables = ContentVariables::new();
    let (html, _) = render(&context, "<h1>Title</h1><h2 id=\"x\">Given</h2><b></h2>", &mut variables);
    assert_eq!(html, "<h1>Title</h1><h2 id=\"x\">Given</h2><b></h2>");
}
