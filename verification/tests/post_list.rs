use vsm_generator::content::content_variables::ContentVariables;
use vsm_generator::content::markdown::{BlogContent, ExpContent};
use vsm_generator::content::post_list::create_md_post_list;
use vsm_generator::content::preliminary_analysis::{Content, PreliminaryAnalysisOutput};

const DAY: i64 = 86_400_000_000_000;

fn post(title: &str, date: i64, draft: bool) -> PreliminaryAnalysisOutput {
    let blog = BlogContent {
        link: format!("blog/{title}").into_bytes(),
        title: title.as_bytes().to_vec(),
        description: format!("about {title}").into_bytes(),
        tags: vec![b"rust".to_vec(), b"web".to_vec()],
        date,
        draft,
        technical: true,
        difficulty: b"2".to_vec(),
    };
    output(Some(Content::Blog(blog)))
}

fn output(content: Option<Content>) -> PreliminaryAnalysisOutput {
    PreliminaryAnalysisOutput {
        path: b"site/content/x.md".to_vec(),
        template_path: b"site/content/_template.html".to_vec(),
        variables: ContentVariables::new(),
        content,
    }
}

fn list(outputs: &Vec<PreliminaryAnalysisOutput>) -> String {
    String::from_utf8(create_md_post_list(outputs)).unwrap()
}

#[test]
fn post_list_ordering() {
    let d3 = 19_000 * DAY;
    let d2 = d3 + DAY;
    let d1 = d2 + DAY;
    let outputs = vec![post("oldest", d3, false), post("newest", d1, false), post("middle", d2, true)];
    let html = list(&outputs);
    let newest = html.find(">newest</a>").unwrap();
    let oldest = html.find(">oldest</a>").unwrap();
    assert!(newest < oldest);
    assert!(!html.contains("middle"));
    assert_eq!(html.matches("<div class=\"post-list\">").count(), 2);
    let outputs = vec![post("a", d1, true), post("b", d2, false), post("c", d3, false)];
    let html = list(&outputs);
    assert!(!html.contains(">a</a>"));
    assert!(html.find(">b</a>").unwrap() < html.find(">c</a>").unwrap());
}

#[test]
fn posts_of_one_date_keep_their_order() {
    let day = 19_500 * DAY;
    let outputs = vec![
        post("first", day, false),
        post("newer", day + 1, false),
        post("second", day, false),
        post("third", day, false),
        post("older", day - 1, false),
    ];
    let html = list(&outputs);
    let at = |title: &str| html.find(&format!(">{title}</a>")).unwrap();
    assert!(at("newer") < at("first"));
    assert!(at("first") < at("second"));
    assert!(at("second") < at("third"));
    assert!(at("third") < at("older"));
}

#[test]
fn card_of_a_post() {
    let outputs = vec![post("Hello", 1_709_296_200_000_000_000, false)];
    let expected = "<div class=\"post-list\">
                    <div class=\"post-list-top\">
                        <a href=\"blog/Hello\">Hello</a>
                        <div class=\"tooltip-wrapper\">
                             1&nbsp;March&nbsp;2024
                            <div class=\"tooltip\">Friday,  1 March 2024 12:30:00 UTC</div>
                        </div>
                    </div>
                    <p>about Hello</p>
                    <div class=\"post-list-tags\"><a>#rust</a><a>#web</a></div></div>";
    assert_eq!(list(&outputs), expected);
}

#[test]
fn list_without_posts_is_a_sentence() {
    let sentence = "<p>Unfortunately, page still don't have any posts :(</p>";
    assert_eq!(list(&Vec::new()), sentence);
    let outputs = vec![output(None), output(Some(Content::Exp(ExpContent {}))), post("draft", 5, true)];
    assert_eq!(list(&outputs), sentence);
}

#[test]
fn dates_before_the_epoch_are_older() {
    let outputs = vec![post("before", -DAY, false), post("after", DAY, false)];
    let html = list(&outputs);
    assert!(html.find(">after</a>").unwrap() < html.find(">before</a>").unwrap());
    assert!(html.contains("31&nbsp;December&nbsp;1969"));
}
