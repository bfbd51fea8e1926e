//! The first pass over a content file: what it yields, the template it is
//! rendered with, and the table of contents of its headings.

use crate::content::content_variables::ContentVariables;
use crate::content::front_matter::about;
use crate::content::markdown::{analyze_markdown, set_variables, BlogContent, BlogView,
    ExpContent};
use crate::content::{get_id_from_name, id_from_name, is_ascii_digit, ContentError,
    ContentResult, ErrorKind, ErrorView};
use crate::context::Context;
use crate::path::{extension, extension_of, file_name, file_name_of, is_same_path, join,
    join_path, lemma_parent_shorter, parent, parent_of, same_path, strip_prefix};
use crate::text::{append, bytes_eq, find, find_in, lemma_find_bounds, to_vec};
use vstd::prelude::*;
use vstd::string::StringSliceAdditionalSpecFns;

verus! {

/// What the front matter says of a file: that depends on the section of the
/// site the file belongs to.
#[derive(Debug)]
pub enum Content {
    Blog(BlogContent),
    Exp(ExpContent),
}

/// The value of a `Content`.
pub enum ContentView {
    Blog(BlogView),
    Exp,
}

impl View for Content {
    type V = ContentView;

    open spec fn view(&self) -> ContentView {
        match self {
            Content::Blog(blog) => ContentView::Blog(blog@),
            Content::Exp(_) => ContentView::Exp,
        }
    }
}

/// What the first pass over a content file yields.
#[derive(Debug)]
pub struct PreliminaryAnalysisOutput {
    /// The path of the content file.
    pub path: Vec<u8>,
    /// The path of the template the file is rendered with.
    pub template_path: Vec<u8>,
    pub variables: ContentVariables,
    pub content: Option<Content>,
}

/// The value of a `PreliminaryAnalysisOutput`.
pub struct OutputView {
    pub path: Seq<u8>,
    pub template_path: Seq<u8>,
    pub variables: Map<Seq<u8>, Seq<u8>>,
    pub content: Option<ContentView>,
}

impl View for PreliminaryAnalysisOutput {
    type V = OutputView;

    open spec fn view(&self) -> OutputView {
        OutputView {
            path: self.path@,
            template_path: self.template_path@,
            variables: self.variables@,
            content: match self.content {
                Some(content) => Some(content@),
                None => None,
            },
        }
    }
}

/// The name of the file that holds the template of a directory.
pub open spec fn template_name() -> Seq<u8> {
    "_template.html".spec_bytes()
}

/// The paths of a sequence of files.
pub open spec fn paths(files: Seq<Vec<u8>>) -> Seq<Seq<u8>> {
    files.map_values(|file: Vec<u8>| file@)
}

/// The template of the nearest directory that holds one, from the directory
/// of `current` up to the project; `existing` are the templates there are.
pub open spec fn nearest_template(
    project: Seq<u8>,
    current: Seq<u8>,
    existing: Seq<Seq<u8>>,
) -> Option<Seq<u8>>
    decreases current.len(),
    via nearest_template_decreases
{
    match parent(current) {
        None => None,
        Some(directory) => if same_path(current, project) {
            None
        } else if existing.contains(join(directory, template_name())) {
            Some(join(directory, template_name()))
        } else {
            nearest_template(project, directory, existing)
        },
    }
}

#[via_fn]
proof fn nearest_template_decreases(project: Seq<u8>, current: Seq<u8>, existing: Seq<Seq<u8>>) {
    lemma_parent_shorter(current);
}

/// Whether `candidate` is among `files`.
pub fn is_among(files: &Vec<Vec<u8>>, candidate: &[u8]) -> (r: bool)
    ensures
        r == paths(files@).contains(candidate@),
{
    let mut i: usize = 0;
    while i < files.len()
        invariant
            i <= files.len(),
            forall|j: int| 0 <= j < i ==> paths(files@)[j] != candidate@,
        decreases files.len() - i,
    {
        if bytes_eq(files[i].as_slice(), candidate) {
            assert(paths(files@)[i as int] == candidate@);
            return true;
        }
        i += 1;
    }
    false
}

/// Finds the template of a markdown file: that of the nearest directory
/// above it, up to the project, which holds one.
pub fn get_template(context: &Context, path: &[u8], templates: &Vec<Vec<u8>>) -> (r: Result<
    Vec<u8>,
    ContentError,
>)
    ensures
        match nearest_template(context.args.project@, path@, paths(templates@)) {
            Some(template) => r matches Ok(found) && found@ == template,
            None => r matches Err(e) && e@ == about(ErrorKind::TemplateNotFound, path@),
        },
{
    let mut current: &[u8] = path;
    loop
        invariant
            nearest_template(context.args.project@, current@, paths(templates@))
                == nearest_template(context.args.project@, path@, paths(templates@)),
        decreases current@.len(),
    {
        proof {
            lemma_parent_shorter(current@);
        }
        let directory = match parent_of(current) {
            None => {
                return Err(ContentError::new(ErrorKind::TemplateNotFound, 0, path));
            },
            Some(directory) => directory,
        };
        if is_same_path(current, context.args.project.as_slice()) {
            return Err(ContentError::new(ErrorKind::TemplateNotFound, 0, path));
        }
        let template = join_path(directory, "_template.html".as_bytes());
        if is_among(templates, template.as_slice()) {
            return Ok(template);
        }
        current = directory;
    }
}

/// `md`, the extension of a markdown file.
pub open spec fn markdown_extension() -> Seq<u8> {
    seq![0x6du8, 0x64u8]
}

/// `html`, the extension of a page.
pub open spec fn html_extension() -> Seq<u8> {
    seq![0x68u8, 0x74u8, 0x6du8, 0x6cu8]
}

/// Whether the file at `path` is a content file: a page or a markdown file
/// that is no template.
pub open spec fn is_content_file(path: Seq<u8>) -> bool {
    (extension(path) == Some(html_extension()) || extension(path) == Some(markdown_extension()))
        && file_name(path) != template_name()
}

/// The content files among `files`, in order.
pub open spec fn content_files(files: Seq<Seq<u8>>) -> Seq<Seq<u8>>
    decreases files.len(),
{
    if files.len() == 0 {
        Seq::empty()
    } else if is_content_file(files.last()) {
        content_files(files.drop_last()).push(files.last())
    } else {
        content_files(files.drop_last())
    }
}

/// Whether the file at `path` is to be processed.
pub fn is_file_for_processing(path: &[u8]) -> (r: bool)
    ensures
        r == is_content_file(path@),
{
    let html: [u8; 4] = [0x68, 0x74, 0x6d, 0x6c];
    let md: [u8; 2] = [0x6d, 0x64];
    assert(html@ =~= html_extension());
    assert(md@ =~= markdown_extension());
    match extension_of(path) {
        None => false,
        Some(found) => {
            (bytes_eq(found, html.as_slice()) || bytes_eq(found, md.as_slice())) && !bytes_eq(
                file_name_of(path),
                "_template.html".as_bytes(),
            )
        },
    }
}

/// Picks the files to process from the files of the content directory.
pub fn collect_files_for_processing(files: &Vec<Vec<u8>>) -> (r: Vec<Vec<u8>>)
    ensures
        paths(r@) == content_files(paths(files@)),
{
    let mut picked: Vec<Vec<u8>> = Vec::new();
    let ghost all = paths(files@);
    let mut i: usize = 0;
    assert(all.take(0) =~= Seq::<Seq<u8>>::empty());
    assert(paths(picked@) =~= Seq::<Seq<u8>>::empty());
    while i < files.len()
        invariant
            i <= files.len(),
            all == paths(files@),
            paths(picked@) == content_files(all.take(i as int)),
        decreases files.len() - i,
    {
        assert(all.take(i + 1).drop_last() =~= all.take(i as int));
        assert(all.take(i + 1).last() == files[i as int]@);
        if is_file_for_processing(files[i].as_slice()) {
            let ghost before = paths(picked@);
            picked.push(to_vec(files[i].as_slice()));
            assert(paths(picked@) =~= before.push(files[i as int]@));
        }
        i += 1;
    }
    assert(all.take(i as int) =~= all);
    picked
}

/// What the first pass over a file comes to: the warnings, the errors that
/// did not fail the file, and what the pass yields, or the error that
/// failed the file.
pub struct FirstPass {
    pub warnings: Seq<ErrorView>,
    pub errors: Seq<ErrorView>,
    pub output: Result<OutputView, ErrorView>,
}

/// What the first pass over the file at `path` comes to.
///
/// Every file gets its link as a variable, and `warning` bound to nothing
/// until there is something to warn of. A markdown file is analysed and
/// rendered with the nearest template; any other file is its own template
/// and says nothing more of itself.
#[verifier::opaque]
pub open spec fn analyze(
    project: Seq<u8>,
    link: Seq<u8>,
    path: Seq<u8>,
    file: Seq<u8>,
    existing: Seq<Seq<u8>>,
) -> FirstPass {
    let variables = Map::<Seq<u8>, Seq<u8>>::empty().insert(
        "warning".spec_bytes(),
        Seq::empty(),
    ).insert("link".spec_bytes(), link);
    if extension(path) == Some(markdown_extension()) {
        let analysis = analyze_markdown(path, link, file, variables);
        FirstPass {
            warnings: analysis.warnings,
            errors: analysis.errors,
            output: match analysis.content {
                Err(error) => Err(error),
                Ok(content) => match nearest_template(project, path, existing) {
                    None => Err(about(ErrorKind::TemplateNotFound, path)),
                    Some(template_path) => Ok(
                        OutputView {
                            path,
                            template_path,
                            variables: analysis.variables,
                            content: Some(content),
                        },
                    ),
                },
            },
        }
    } else {
        FirstPass {
            warnings: Seq::empty(),
            errors: Seq::empty(),
            output: Ok(OutputView { path, template_path: path, variables, content: None }),
        }
    }
}

/// Runs the first pass over a content file. The warnings are recorded, and
/// so are the errors that do not fail the file.
pub fn analyze_file(
    context: &Context,
    path: Vec<u8>,
    file_content: Vec<u8>,
    templates: &Vec<Vec<u8>>,
    result: &mut ContentResult,
) -> (r: Result<PreliminaryAnalysisOutput, ContentError>)
    requires
        strip_prefix(path@, context.args.content_directory()) is Some,
    ensures
        ({
            let analysis = analyze(
                context.args.project@,
                context.link(path@),
                path@,
                file_content@,
                paths(templates@),
            );
            &&& final(result)@.warnings == old(result)@.warnings + analysis.warnings
            &&& final(result)@.errors == old(result)@.errors + analysis.errors
            &&& match analysis.output {
                Ok(output) => r matches Ok(o) && o@ == output,
                Err(error) => r matches Err(e) && e@ == error,
            }
        }),
{
    proof {
        reveal(analyze);
    }
    let mut variables = ContentVariables::new();
    variables.insert(to_vec("warning".as_bytes()), Vec::new());
    variables.insert(to_vec("link".as_bytes()), context.get_file_link(path.as_slice()));
    let md: [u8; 2] = [0x6d, 0x64];
    assert(md@ =~= markdown_extension());
    let markdown = match extension_of(path.as_slice()) {
        Some(found) => bytes_eq(found, md.as_slice()),
        None => false,
    };
    if !markdown {
        assert(old(result)@.warnings + Seq::<ErrorView>::empty() =~= old(result)@.warnings);
        assert(old(result)@.errors + Seq::<ErrorView>::empty() =~= old(result)@.errors);
        let template_path = to_vec(path.as_slice());
        return Ok(PreliminaryAnalysisOutput { path, template_path, variables, content: None });
    }
    let content = match set_variables(
        context,
        path.as_slice(),
        file_content,
        &mut variables,
        result,
    ) {
        Err(error) => {
            return Err(error);
        },
        Ok(content) => content,
    };
    let template_path = match get_template(context, path.as_slice(), templates) {
        Err(error) => {
            return Err(error);
        },
        Ok(template_path) => template_path,
    };
    Ok(PreliminaryAnalysisOutput { path, template_path, variables, content: Some(content) })
}

/// A heading of a rendered page: its level, from 2 to 9, and its text.
pub struct Heading {
    pub level: int,
    pub text: Seq<u8>,
}

/// `<h`, which opens a heading.
pub open spec fn heading_start() -> Seq<u8> {
    seq![0x3cu8, 0x68u8]
}

/// `</h`, which closes a heading.
pub open spec fn heading_end() -> Seq<u8> {
    seq![0x3cu8, 0x2fu8, 0x68u8]
}

/// The headings of `html` from `index` on, in order.
///
/// A heading opens with `<hN>`, where N is a digit from 2 to 9, and its text
/// runs up to the next `</h`. A title `<h1>` is passed over, and so is a
/// `<h` that no digit follows, or a heading that is never closed.
pub open spec fn headings_from(html: Seq<u8>, index: int) -> Seq<Heading>
    decreases html.len() - index + 1,
    via headings_from_decreases
{
    match find(html, heading_start(), index, html.len() as int) {
        None => Seq::empty(),
        Some(open) => if open + 4 > html.len() {
            Seq::empty()
        } else if !is_ascii_digit(html[open + 2]) {
            headings_from(html, open + 2)
        } else if html[open + 2] < 0x32 {
            headings_from(html, open + 4)
        } else {
            match find(html, heading_end(), open + 4, html.len() as int) {
                None => headings_from(html, open + 5),
                Some(close) => seq![
                    Heading {
                        level: html[open + 2] - 0x30,
                        text: html.subrange(open + 4, close),
                    },
                ] + headings_from(html, close),
            }
        },
    }
}

#[via_fn]
proof fn headings_from_decreases(html: Seq<u8>, index: int) {
    lemma_find_bounds(html, heading_start(), index, html.len() as int);
    match find(html, heading_start(), index, html.len() as int) {
        None => {},
        Some(open) => {
            lemma_find_bounds(html, heading_end(), open + 4, html.len() as int);
        },
    }
}

/// `n` times the markup that closes a nested list.
pub open spec fn closings(n: int) -> Seq<u8>
    decreases n,
{
    if n <= 0 {
        Seq::empty()
    } else {
        closings(n - 1) + "</li></ul></details>".spec_bytes()
    }
}

/// The list item of a heading with text `header` at level `last_level`,
/// where the heading that follows is at `level`: a deeper one opens a nested
/// list below the item, a higher one closes a nested list for each level it
/// rises.
pub open spec fn element(header: Seq<u8>, level: int, last_level: int) -> Seq<u8> {
    let link = "<a href=\"#".spec_bytes() + id_from_name(header) + "\">".spec_bytes() + header
        + "</a>".spec_bytes();
    if last_level < level {
        "<li>".spec_bytes() + "<details open><summary>".spec_bytes() + link
            + "</summary><ul>".spec_bytes()
    } else {
        "<li>".spec_bytes() + link + closings(last_level - level) + "</li>".spec_bytes()
    }
}

/// The list items of a sequence of headings. Behind the last one the list
/// returns to level 2.
pub open spec fn elements(headings: Seq<Heading>) -> Seq<u8>
    decreases headings.len(),
{
    if headings.len() == 0 {
        Seq::empty()
    } else {
        element(headings[0].text, next_level(headings), headings[0].level) + elements(
            headings.skip(1),
        )
    }
}

/// The level that follows the first of `headings`: that of the second, or 2
/// behind the last.
pub open spec fn next_level(headings: Seq<Heading>) -> int {
    if headings.len() > 1 {
        headings[1].level
    } else {
        2
    }
}

/// How many more nested lists the items of `headings` open than they close.
pub open spec fn lists_left_open(headings: Seq<Heading>) -> int
    decreases headings.len(),
{
    if headings.len() == 0 {
        0
    } else if headings[0].level < next_level(headings) {
        1 + lists_left_open(headings.skip(1))
    } else {
        lists_left_open(headings.skip(1)) - (headings[0].level - next_level(headings))
    }
}

/// Whether no heading is followed by one that lies more than one level
/// deeper.
pub open spec fn descends_by_steps(headings: Seq<Heading>) -> bool {
    forall|i: int|
        0 <= i < headings.len() - 1 ==> (#[trigger] headings[i + 1]).level <= headings[i].level + 1
}

/// Where the headings descend level by level, the items close as many
/// nested lists as they open, but for those that the first heading lies
/// below level 2: a table that starts at level 2 is balanced.
pub proof fn lemma_lists_balance(headings: Seq<Heading>)
    requires
        headings.len() > 0,
        descends_by_steps(headings),
        forall|i: int| 0 <= i < headings.len() ==> (#[trigger] headings[i]).level >= 2,
    ensures
        lists_left_open(headings) == 2 - headings[0].level,
    decreases headings.len(),
{
    let rest = headings.skip(1);
    if headings.len() > 1 {
        assert(headings[0int + 1].level <= headings[0].level + 1);
        assert forall|i: int| 0 <= i < rest.len() - 1 implies (#[trigger] rest[i + 1]).level
            <= rest[i].level + 1 by {
            assert(rest[i + 1] == headings[(i + 1) + 1]);
            assert(rest[i] == headings[i + 1]);
        }
        assert forall|i: int| 0 <= i < rest.len() implies (#[trigger] rest[i]).level >= 2 by {
            assert(rest[i] == headings[i + 1]);
        }
        lemma_lists_balance(rest);
        assert(rest[0] == headings[1]);
    } else {
        assert(headings[0].level >= 2);
        assert(lists_left_open(rest) == 0);
    }
}

/// What stands in place of a table of contents without headings.
pub open spec fn no_headings() -> Seq<u8> {
    "Unfortunatelly, there are no headers in this article :(".spec_bytes()
}

/// The table of contents as shown beside the text on small screens: the
/// items of the headings, then a link to the references where the page has
/// citations and the link is asked for.
pub open spec fn mobile_contents(html: Seq<u8>, link_references: bool, citations: bool) -> Seq<u8> {
    let items = elements(headings_from(html, 0));
    if items.len() == 0 {
        no_headings()
    } else if link_references && citations {
        items + "<li><a href=\"#references\">References</a></li>".spec_bytes()
    } else {
        items
    }
}

/// The table of contents on large screens: a link to the top, then what
/// small screens show.
pub open spec fn desktop_contents(html: Seq<u8>, link_references: bool, citations: bool) -> Seq<
    u8,
> {
    if elements(headings_from(html, 0)).len() == 0 {
        no_headings()
    } else {
        "<li><a class=\"top\" href=\"#\">(Top)</a></li>".spec_bytes() + mobile_contents(
            html,
            link_references,
            citations,
        )
    }
}

/// Appends the list item of a heading to a table of contents.
pub fn generate_element_for_table_of_contents(
    table_of_contents: &mut Vec<u8>,
    header: Option<&[u8]>,
    level: usize,
    last_level: usize,
)
    ensures
        header matches Some(text) ==> final(table_of_contents)@ == old(table_of_contents)@
            + element(text@, level as int, last_level as int),
        header is None ==> final(table_of_contents)@ == old(table_of_contents)@,
{
    let header = match header {
        None => {
            return ;
        },
        Some(header) => header,
    };
    let id = get_id_from_name(header);
    let mut item = to_vec("<li>".as_bytes());
    if last_level < level {
        append(&mut item, "<details open><summary>".as_bytes());
    }
    append(&mut item, "<a href=\"#".as_bytes());
    append(&mut item, id.as_slice());
    append(&mut item, "\">".as_bytes());
    append(&mut item, header);
    append(&mut item, "</a>".as_bytes());
    if last_level < level {
        append(&mut item, "</summary><ul>".as_bytes());
    } else {
        let ghost base = item@;
        let mut i: usize = level;
        while i < last_level
            invariant
                level <= i <= last_level,
                item@ == base + closings(i - level),
            decreases last_level - i,
        {
            append(&mut item, "</li></ul></details>".as_bytes());
            i += 1;
        }
        append(&mut item, "</li>".as_bytes());
    }
    assert(item@ =~= element(header@, level as int, last_level as int));
    append(table_of_contents, item.as_slice());
}

/// The heading that an entry of the scan stands for: its level, and the
/// offsets between which its text lies.
pub open spec fn heading_at(html: Seq<u8>, entry: (u8, usize, usize)) -> Heading {
    Heading { level: entry.0 as int, text: html.subrange(entry.1 as int, entry.2 as int) }
}

/// The headings that the entries of a scan stand for.
pub open spec fn headings_at(html: Seq<u8>, entries: Seq<(u8, usize, usize)>) -> Seq<Heading> {
    entries.map_values(|entry: (u8, usize, usize)| heading_at(html, entry))
}

/// Finds the headings of a rendered page.
pub fn scan_headings(html: &[u8]) -> (found: Vec<(u8, usize, usize)>)
    ensures
        headings_at(html@, found@) == headings_from(html@, 0),
        forall|i: int|
            0 <= i < found@.len() ==> (#[trigger] found@[i]).1 <= found@[i].2 <= html@.len(),
{
    let start: [u8; 2] = [0x3c, 0x68];
    let end: [u8; 3] = [0x3c, 0x2f, 0x68];
    assert(start@ =~= heading_start());
    assert(end@ =~= heading_end());
    let mut found: Vec<(u8, usize, usize)> = Vec::new();
    let mut index: usize = 0;
    assert(headings_at(html@, found@) =~= Seq::<Heading>::empty());
    loop
        invariant
            start@ == heading_start(),
            end@ == heading_end(),
            index <= html.len() + 1,
            headings_at(html@, found@) + headings_from(html@, index as int) == headings_from(
                html@,
                0,
            ),
            forall|i: int|
                0 <= i < found@.len() ==> (#[trigger] found@[i]).1 <= found@[i].2 <= html@.len(),
        ensures
            headings_at(html@, found@) == headings_from(html@, 0),
            forall|i: int|
                0 <= i < found@.len() ==> (#[trigger] found@[i]).1 <= found@[i].2 <= html@.len(),
        decreases html.len() + 1 - index,
    {
        let open = match find_in(html, start.as_slice(), index, html.len()) {
            None => {
                assert(headings_at(html@, found@) + Seq::<Heading>::empty() =~= headings_at(
                    html@,
                    found@,
                ));
                break ;
            },
            Some(open) => open,
        };
        proof {
            lemma_find_bounds(html@, heading_start(), index as int, html.len() as int);
        }
        if html.len() < 4 || open > html.len() - 4 {
            assert(headings_at(html@, found@) + Seq::<Heading>::empty() =~= headings_at(
                html@,
                found@,
            ));
            break ;
        }
        let digit = html[open + 2];
        if !(0x30 <= digit && digit <= 0x39) {
            index = open + 2;
        } else if digit < 0x32 {
            index = open + 4;
        } else {
            match find_in(html, end.as_slice(), open + 4, html.len()) {
                None => {
                    if open + 4 == html.len() {
                        assert(headings_from(html@, open + 5) =~= Seq::<Heading>::empty());
                        assert(headings_at(html@, found@) + Seq::<Heading>::empty()
                            =~= headings_at(html@, found@));
                        break ;
                    }
                    index = open + 5;
                },
                Some(close) => {
                    proof {
                        lemma_find_bounds(
                            html@,
                            heading_end(),
                            open + 4,
                            html.len() as int,
                        );
                    }
                    let ghost before = found@;
                    found.push((digit - 0x30, open + 4, close));
                    assert(headings_at(html@, found@) =~= headings_at(html@, before) + seq![
                        Heading {
                            level: html@[open + 2] - 0x30,
                            text: html@.subrange(open + 4, close as int),
                        },
                    ]);
                    assert(headings_at(html@, found@) + headings_from(html@, close as int)
                        =~= headings_at(html@, before) + (seq![
                        Heading {
                            level: html@[open + 2] - 0x30,
                            text: html@.subrange(open + 4, close as int),
                        },
                    ] + headings_from(html@, close as int)));
                    index = close;
                },
            }
        }
    }
    found
}

/// Builds the table of contents of a rendered page from its headings, once
/// for large screens and once for small ones. The references are linked
/// where `citations` says that the page has any and `link_references` asks
/// for the link.
pub fn generate_table_of_contents(html: &[u8], link_references: bool, citations: bool) -> (r: (
    Vec<u8>,
    Vec<u8>,
))
    ensures
        r.0@ == desktop_contents(html@, link_references, citations),
        r.1@ == mobile_contents(html@, link_references, citations),
{
    let found = scan_headings(html);
    let ghost headings = headings_at(html@, found@);
    let mut table_of_contents: Vec<u8> = Vec::new();
    let mut i: usize = 0;
    assert(headings.skip(0) =~= headings);
    while i < found.len()
        invariant
            i <= found.len(),
            headings == headings_at(html@, found@),
            table_of_contents@ + elements(headings.skip(i as int)) == elements(headings),
            forall|i: int|
                0 <= i < found@.len() ==> (#[trigger] found@[i]).1 <= found@[i].2 <= html@.len(),
        decreases found.len() - i,
    {
        let (level, from, to) = found[i];
        let next: u8 = if i + 1 < found.len() {
            found[i + 1].0
        } else {
            2
        };
        let ghost before = table_of_contents@;
        let ghost rest = headings.skip(i as int);
        assert(rest[0] == heading_at(html@, found@[i as int]));
        assert(rest.len() > 1 ==> rest[1] == heading_at(html@, found@[i + 1]));
        assert(rest.skip(1) =~= headings.skip(i + 1));
        generate_element_for_table_of_contents(
            &mut table_of_contents,
            Some(vstd::slice::slice_subrange(html, from, to)),
            next as usize,
            level as usize,
        );
        assert(table_of_contents@ + elements(headings.skip(i + 1)) =~= before + elements(rest));
        i += 1;
    }
    assert(table_of_contents@ =~= elements(headings)) by {
        assert(elements(headings.skip(i as int)) =~= Seq::<u8>::empty());
    }
    let is_empty = table_of_contents.len() == 0;
    if is_empty {
        append(
            &mut table_of_contents,
            "Unfortunatelly, there are no headers in this article :(".as_bytes(),
        );
        let desktop = to_vec(table_of_contents.as_slice());
        return (desktop, table_of_contents);
    }
    if link_references && citations {
        append(
            &mut table_of_contents,
            "<li><a href=\"#references\">References</a></li>".as_bytes(),
        );
    }
    let mut desktop = to_vec("<li><a class=\"top\" href=\"#\">(Top)</a></li>".as_bytes());
    append(&mut desktop, table_of_contents.as_slice());
    (desktop, table_of_contents)
}

} // verus!
