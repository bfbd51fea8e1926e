//! A run over the content files in two waves: every file is analysed, the
//! list of posts is built from all of them, and only then the pages are
//! rendered.

use crate::content::front_matter::about;
use crate::content::post_list::{contents_of, create_md_post_list, post_list};
use crate::content::preliminary_analysis::{analyze, analyze_file, html_extension, paths,
    OutputView, PreliminaryAnalysisOutput};
use crate::content::rewrite::{create_html_file, finished, page};
use crate::content::{ContentError, ContentResult, ErrorKind, ErrorView};
use crate::context::Context;
use crate::path::{join, join_path, replace_extension, strip_path_prefix, strip_prefix,
    with_extension, without_extension};
use crate::text::{bytes_eq, to_vec};
use flate2::write::ZlibEncoder;
use flate2::Compression;
use std::io::Write;
use vstd::prelude::*;

verus! {

/// A file as it was read: its path and what it holds.
#[derive(Debug)]
pub struct SourceFile {
    pub path: Vec<u8>,
    pub data: Vec<u8>,
}

/// A rendered page: the path it is written to, its markup, and its markup
/// compressed, which is written beside it.
#[derive(Debug)]
pub struct Page {
    pub path: Vec<u8>,
    pub html: Vec<u8>,
    pub deflated: Vec<u8>,
}

/// The value of a `Page`.
pub struct PageView {
    pub path: Seq<u8>,
    pub html: Seq<u8>,
    pub deflated: Seq<u8>,
}

impl View for Page {
    type V = PageView;

    open spec fn view(&self) -> PageView {
        PageView { path: self.path@, html: self.html@, deflated: self.deflated@ }
    }
}

/// What a page is compressed to.
pub uninterp spec fn deflated(html: Seq<u8>) -> Seq<u8>;

/// Compresses a page.
///
/// Trusted: writes the page through `flate2::write::ZlibEncoder` at the best
/// level of compression into a vector, which takes every write, and takes
/// what `finish` hands back.
#[verifier::external_body]
fn deflate(html: &[u8]) -> (r: Vec<u8>)
    ensures
        r@ == deflated(html@),
{
    let mut encoder = ZlibEncoder::new(Vec::new(), Compression::best());
    encoder.write_all(html).and_then(|_| encoder.finish()).unwrap_or_default()
}

/// Where the page of the content file at `path` is written: below the
/// output directory where the file lies below the project, with the
/// extension `html`.
pub open spec fn output_path(output: Seq<u8>, project: Seq<u8>, path: Seq<u8>) -> Seq<u8> {
    with_extension(join(output, strip_prefix(path, project)->0), html_extension())
}

/// The page of one file, with the errors that rendering it recorded, or the
/// error that failed it.
pub open spec fn rendered(
    templates: Map<Seq<u8>, Seq<u8>>,
    post_list: Seq<u8>,
    output: Seq<u8>,
    project: Seq<u8>,
    step: OutputView,
    template: Seq<u8>,
    production: bool,
    limit: nat,
) -> Result<(Seq<ErrorView>, PageView), ErrorView> {
    let run = page(template, step.variables, Seq::empty(), templates, post_list, limit);
    match run.1 {
        Some(error) => Err(error),
        None => match finished(run.0.buffer, production) {
            Err(error) => Err(error),
            Ok(html) => Ok(
                (
                    run.0.errors,
                    PageView {
                        path: output_path(output, project, step.path),
                        html,
                        deflated: deflated(html),
                    },
                ),
            ),
        },
    }
}

/// Renders the page of one file from what the first pass yielded and the
/// template it names, and compresses it. The variables of the file are left
/// as they are.
pub fn process_file(
    context: &Context,
    previous_step: &PreliminaryAnalysisOutput,
    template: Vec<u8>,
    production: bool,
    limit: usize,
) -> (r: Result<(ContentResult, Page), ContentError>)
    requires
        context.md_post_list@ is Some,
        strip_prefix(previous_step.path@, context.args.project@) is Some,
    ensures
        match rendered(
            context.templates@,
            context.md_post_list@->0,
            context.args.output@,
            context.args.project@,
            previous_step@,
            template@,
            production,
            limit as nat,
        ) {
            Ok((errors, page)) => r matches Ok(done) && done.0@.errors == errors
                && done.0@.warnings == Seq::<ErrorView>::empty() && done.1@ == page,
            Err(error) => r matches Err(e) && e@ == error,
        },
{
    let mut result = ContentResult::new();
    let mut variables = previous_step.variables.copy();
    let html = match create_html_file(
        context,
        template,
        &mut variables,
        &mut result,
        production,
        limit,
    ) {
        Err(error) => {
            return Err(error);
        },
        Ok(html) => html,
    };
    let html_bytes: [u8; 4] = [0x68, 0x74, 0x6d, 0x6c];
    assert(html_bytes@ =~= html_extension());
    let path = match strip_path_prefix(
        previous_step.path.as_slice(),
        context.args.project.as_slice(),
    ) {
        Some(rest) => replace_extension(
            join_path(context.args.output.as_slice(), rest).as_slice(),
            html_bytes.as_slice(),
        ),
        None => Vec::new(),
    };
    let deflated = deflate(html.as_slice());
    Ok((result, Page { path, html, deflated }))
}

/// The value of a `SourceFile`.
pub struct SourceView {
    pub path: Seq<u8>,
    pub data: Seq<u8>,
}

impl View for SourceFile {
    type V = SourceView;

    open spec fn view(&self) -> SourceView {
        SourceView { path: self.path@, data: self.data@ }
    }
}

/// The values of a sequence of files.
pub open spec fn sources(files: Seq<SourceFile>) -> Seq<SourceView> {
    files.map_values(|file: SourceFile| file@)
}

/// The paths of a sequence of files.
pub open spec fn source_paths(files: Seq<SourceView>) -> Seq<Seq<u8>> {
    files.map_values(|file: SourceView| file.path)
}

/// The values of a sequence of pages.
pub open spec fn page_views(pages: Seq<Page>) -> Seq<PageView> {
    pages.map_values(|page: Page| page@)
}

/// The values of a sequence of outputs of the first pass.
pub open spec fn output_views(outputs: Seq<PreliminaryAnalysisOutput>) -> Seq<OutputView> {
    outputs.map_values(|output: PreliminaryAnalysisOutput| output@)
}

/// What the first wave comes to: what the files yielded, and the errors and
/// warnings of all of them.
pub struct Analysed {
    pub outputs: Seq<OutputView>,
    pub errors: Seq<ErrorView>,
    pub warnings: Seq<ErrorView>,
}

/// What the first wave has come to once `file` is analysed behind what
/// stands in `head`. A file that fails leaves its error; its warnings and
/// the errors that did not fail it are kept either way.
pub open spec fn with_file(
    head: Analysed,
    project: Seq<u8>,
    content_directory: Seq<u8>,
    file: SourceView,
    existing: Seq<Seq<u8>>,
) -> Analysed {
    match strip_prefix(file.path, content_directory) {
        None => Analysed {
            errors: head.errors.push(about(ErrorKind::OutsideProject, file.path)),
            ..head
        },
        Some(rest) => {
            let analysis = analyze(project, without_extension(rest), file.path, file.data, existing);
            match analysis.output {
                Ok(output) => Analysed {
                    outputs: head.outputs.push(output),
                    errors: head.errors + analysis.errors,
                    warnings: head.warnings + analysis.warnings,
                },
                Err(error) => Analysed {
                    outputs: head.outputs,
                    errors: (head.errors + analysis.errors).push(error),
                    warnings: head.warnings + analysis.warnings,
                },
            }
        },
    }
}

/// The first wave over `files`, in order. A file that fails leaves its error
/// and nothing else; the files behind it are analysed all the same.
pub open spec fn analysed(
    project: Seq<u8>,
    content_directory: Seq<u8>,
    files: Seq<SourceView>,
    existing: Seq<Seq<u8>>,
) -> Analysed
    decreases files.len(),
{
    if files.len() == 0 {
        Analysed { outputs: Seq::empty(), errors: Seq::empty(), warnings: Seq::empty() }
    } else {
        with_file(
            analysed(project, content_directory, files.drop_last(), existing),
            project,
            content_directory,
            files.last(),
            existing,
        )
    }
}

/// What was recorded before a wave stands before what the wave records.
pub proof fn lemma_with_file_behind(
    errors: Seq<ErrorView>,
    warnings: Seq<ErrorView>,
    head: Analysed,
    project: Seq<u8>,
    content_directory: Seq<u8>,
    file: SourceView,
    existing: Seq<Seq<u8>>,
)
    ensures
        ({
            let moved = with_file(
                Analysed {
                    outputs: head.outputs,
                    errors: errors + head.errors,
                    warnings: warnings + head.warnings,
                },
                project,
                content_directory,
                file,
                existing,
            );
            let next = with_file(head, project, content_directory, file, existing);
            &&& moved.outputs == next.outputs
            &&& moved.errors == errors + next.errors
            &&& moved.warnings == warnings + next.warnings
        }),
{
    let before = Analysed {
        outputs: head.outputs,
        errors: errors + head.errors,
        warnings: warnings + head.warnings,
    };
    let moved = with_file(before, project, content_directory, file, existing);
    let next = with_file(head, project, content_directory, file, existing);
    match strip_prefix(file.path, content_directory) {
        None => {
            let error = about(ErrorKind::OutsideProject, file.path);
            assert((errors + head.errors).push(error) =~= errors + head.errors.push(error));
        },
        Some(rest) => {
            let analysis = analyze(project, without_extension(rest), file.path, file.data, existing);
            assert((warnings + head.warnings) + analysis.warnings =~= warnings + (head.warnings
                + analysis.warnings));
            assert((errors + head.errors) + analysis.errors =~= errors + (head.errors
                + analysis.errors));
            match analysis.output {
                Ok(_) => {},
                Err(error) => {
                    assert(((errors + head.errors) + analysis.errors).push(error) =~= errors + (
                    head.errors + analysis.errors).push(error));
                },
            }
        },
    }
}

/// What the first of `files` with the given path holds.
pub open spec fn data_at(files: Seq<SourceView>, path: Seq<u8>) -> Option<Seq<u8>>
    decreases files.len(),
{
    if files.len() == 0 {
        None
    } else if files[0].path == path {
        Some(files[0].data)
    } else {
        data_at(files.skip(1), path)
    }
}

/// The template at `path`: one of the templates of the directories, or else
/// a content file.
pub open spec fn template_at(
    layouts: Seq<SourceView>,
    files: Seq<SourceView>,
    path: Seq<u8>,
) -> Option<Seq<u8>> {
    match data_at(layouts, path) {
        Some(data) => Some(data),
        None => data_at(files, path),
    }
}

/// What the second wave comes to: the pages, and the errors of rendering.
pub struct Rendered {
    pub pages: Seq<PageView>,
    pub errors: Seq<ErrorView>,
}

/// The second wave over what the first wave yielded, in order, with the list
/// of posts that was built from all of it.
pub open spec fn rendered_all(
    templates: Map<Seq<u8>, Seq<u8>>,
    post_list: Seq<u8>,
    output: Seq<u8>,
    project: Seq<u8>,
    steps: Seq<OutputView>,
    layouts: Seq<SourceView>,
    files: Seq<SourceView>,
    production: bool,
    limit: nat,
) -> Rendered
    decreases steps.len(),
{
    if steps.len() == 0 {
        Rendered { pages: Seq::empty(), errors: Seq::empty() }
    } else {
        let head = rendered_all(
            templates,
            post_list,
            output,
            project,
            steps.drop_last(),
            layouts,
            files,
            production,
            limit,
        );
        let step = steps.last();
        if strip_prefix(step.path, project) is None {
            Rendered {
                errors: head.errors.push(about(ErrorKind::OutsideProject, step.path)),
                ..head
            }
        } else {
            match template_at(layouts, files, step.template_path) {
                None => Rendered {
                    errors: head.errors.push(about(ErrorKind::TemplateNotFound, step.path)),
                    ..head
                },
                Some(template) => match rendered(
                    templates,
                    post_list,
                    output,
                    project,
                    step,
                    template,
                    production,
                    limit,
                ) {
                    Ok((errors, page)) => Rendered {
                        pages: head.pages.push(page),
                        errors: head.errors + errors,
                    },
                    Err(error) => Rendered { errors: head.errors.push(error), ..head },
                },
            }
        }
    }
}

/// Whether `page` is the page of `step`, rendered with the list `post_list`.
pub open spec fn is_page_of(
    templates: Map<Seq<u8>, Seq<u8>>,
    post_list: Seq<u8>,
    output: Seq<u8>,
    project: Seq<u8>,
    step: OutputView,
    layouts: Seq<SourceView>,
    files: Seq<SourceView>,
    production: bool,
    limit: nat,
    page: PageView,
) -> bool {
    match template_at(layouts, files, step.template_path) {
        None => false,
        Some(template) => match rendered(
            templates,
            post_list,
            output,
            project,
            step,
            template,
            production,
            limit,
        ) {
            Ok(done) => done.1 == page,
            Err(_) => false,
        },
    }
}

/// Every page of the second wave is the page of one of the outputs of the
/// first wave, rendered with the list of posts that the wave was given. In a
/// run that list is built from all outputs of the first wave: no page is
/// rendered before it, or with another.
pub proof fn lemma_pages_see_the_list(
    templates: Map<Seq<u8>, Seq<u8>>,
    post_list: Seq<u8>,
    output: Seq<u8>,
    project: Seq<u8>,
    steps: Seq<OutputView>,
    layouts: Seq<SourceView>,
    files: Seq<SourceView>,
    production: bool,
    limit: nat,
    i: int,
) -> (j: int)
    requires
        0 <= i < rendered_all(
            templates,
            post_list,
            output,
            project,
            steps,
            layouts,
            files,
            production,
            limit,
        ).pages.len(),
    ensures
        0 <= j < steps.len(),
        is_page_of(
            templates,
            post_list,
            output,
            project,
            steps[j],
            layouts,
            files,
            production,
            limit,
            rendered_all(
                templates,
                post_list,
                output,
                project,
                steps,
                layouts,
                files,
                production,
                limit,
            ).pages[i],
        ),
    decreases steps.len(),
{
    let head = rendered_all(
        templates,
        post_list,
        output,
        project,
        steps.drop_last(),
        layouts,
        files,
        production,
        limit,
    );
    if i < head.pages.len() {
        let j = lemma_pages_see_the_list(
            templates,
            post_list,
            output,
            project,
            steps.drop_last(),
            layouts,
            files,
            production,
            limit,
            i,
        );
        assert(steps.drop_last()[j] == steps[j]);
        j
    } else {
        steps.len() - 1
    }
}

/// Finds what the first of `files` with the given path holds.
pub fn find_source<'a>(files: &'a Vec<SourceFile>, path: &[u8]) -> (r: Option<&'a Vec<u8>>)
    ensures
        r matches Some(data) ==> data_at(sources(files@), path@) == Some(data@),
        r is None ==> data_at(sources(files@), path@) is None,
{
    let ghost all = sources(files@);
    let mut i: usize = 0;
    assert(all.skip(0) =~= all);
    while i < files.len()
        invariant
            i <= files.len(),
            all == sources(files@),
            data_at(all, path@) == data_at(all.skip(i as int), path@),
        decreases files.len() - i,
    {
        assert(all.skip(i as int)[0] == files[i as int]@);
        assert(all.skip(i as int).skip(1) =~= all.skip(i + 1));
        if bytes_eq(files[i].path.as_slice(), path) {
            return Some(&files[i].data);
        }
        i += 1;
    }
    None
}

/// The paths of `files`.
fn paths_of(files: &Vec<SourceFile>) -> (r: Vec<Vec<u8>>)
    ensures
        paths(r@) == source_paths(sources(files@)),
{
    let mut out: Vec<Vec<u8>> = Vec::new();
    let mut i: usize = 0;
    while i < files.len()
        invariant
            i <= files.len(),
            out@.len() == i,
            forall|j: int| 0 <= j < i ==> (#[trigger] out@[j])@ == files[j].path@,
        decreases files.len() - i,
    {
        out.push(to_vec(files[i].path.as_slice()));
        i += 1;
    }
    assert(paths(out@) =~= source_paths(sources(files@)));
    out
}

/// The list of posts that the outputs of the first wave give rise to.
pub open spec fn posts_of(outputs: Seq<OutputView>) -> Seq<u8> {
    post_list(outputs.map_values(|output: OutputView| output.content))
}

/// Analyses one file of the first wave and records what fails.
fn analyse_one(
    context: &Context,
    file: &SourceFile,
    templates: &Vec<Vec<u8>>,
    outputs: &mut Vec<PreliminaryAnalysisOutput>,
    result: &mut ContentResult,
)
    ensures
        ({
            let next = with_file(
                Analysed {
                    outputs: output_views(old(outputs)@),
                    errors: old(result)@.errors,
                    warnings: old(result)@.warnings,
                },
                context.args.project@,
                context.args.content_directory(),
                file@,
                paths(templates@),
            );
            &&& output_views(final(outputs)@) == next.outputs
            &&& final(result)@.errors == next.errors
            &&& final(result)@.warnings == next.warnings
        }),
{
    let directory = context.args.project_content();
    let ghost before = output_views(outputs@);
    if strip_path_prefix(file.path.as_slice(), directory.as_slice()).is_none() {
        result.push_error(ContentError::new(ErrorKind::OutsideProject, 0, file.path.as_slice()));
        return ;
    }
    match analyze_file(
        context,
        to_vec(file.path.as_slice()),
        to_vec(file.data.as_slice()),
        templates,
        result,
    ) {
        Ok(output) => {
            outputs.push(output);
            assert(output_views(outputs@) =~= before.push(output@));
        },
        Err(error) => {
            result.push_error(error);
        },
    }
}

/// Runs the first wave: analyses every file and records what fails.
pub fn analyse_all(
    context: &Context,
    files: &Vec<SourceFile>,
    templates: &Vec<Vec<u8>>,
    result: &mut ContentResult,
) -> (outputs: Vec<PreliminaryAnalysisOutput>)
    ensures
        ({
            let wave = analysed(
                context.args.project@,
                context.args.content_directory(),
                sources(files@),
                paths(templates@),
            );
            &&& output_views(outputs@) == wave.outputs
            &&& final(result)@.errors == old(result)@.errors + wave.errors
            &&& final(result)@.warnings == old(result)@.warnings + wave.warnings
        }),
{
    let mut outputs: Vec<PreliminaryAnalysisOutput> = Vec::new();
    let ghost all = sources(files@);
    let ghost project = context.args.project@;
    let ghost directory = context.args.content_directory();
    let ghost existing = paths(templates@);
    let mut i: usize = 0;
    proof {
        assert(all.take(0) =~= Seq::<SourceView>::empty());
        assert(output_views(outputs@) =~= Seq::<OutputView>::empty());
        assert(old(result)@.errors + Seq::<ErrorView>::empty() =~= old(result)@.errors);
        assert(old(result)@.warnings + Seq::<ErrorView>::empty() =~= old(result)@.warnings);
    }
    while i < files.len()
        invariant
            i <= files.len(),
            all == sources(files@),
            project == context.args.project@,
            directory == context.args.content_directory(),
            existing == paths(templates@),
            output_views(outputs@) == analysed(project, directory, all.take(i as int), existing).outputs,
            result@.errors == old(result)@.errors + analysed(
                project,
                directory,
                all.take(i as int),
                existing,
            ).errors,
            result@.warnings == old(result)@.warnings + analysed(
                project,
                directory,
                all.take(i as int),
                existing,
            ).warnings,
        decreases files.len() - i,
    {
        let ghost head = analysed(project, directory, all.take(i as int), existing);
        proof {
            assert(all.take(i + 1).drop_last() =~= all.take(i as int));
            assert(all.take(i + 1).last() == files[i as int]@);
            lemma_with_file_behind(
                old(result)@.errors,
                old(result)@.warnings,
                head,
                project,
                directory,
                files[i as int]@,
                existing,
            );
        }
        analyse_one(context, &files[i], templates, &mut outputs, result);
        i += 1;
    }
    assert(all.take(i as int) =~= all);
    outputs
}

/// Runs the second wave: renders the page of every output and records what
/// fails.
pub fn render_all(
    context: &Context,
    outputs: &Vec<PreliminaryAnalysisOutput>,
    layouts: &Vec<SourceFile>,
    files: &Vec<SourceFile>,
    production: bool,
    limit: usize,
    result: &mut ContentResult,
) -> (pages: Vec<Page>)
    requires
        context.md_post_list@ is Some,
    ensures
        ({
            let wave = rendered_all(
                context.templates@,
                context.md_post_list@->0,
                context.args.output@,
                context.args.project@,
                output_views(outputs@),
                sources(layouts@),
                sources(files@),
                production,
                limit as nat,
            );
            &&& page_views(pages@) == wave.pages
            &&& final(result)@.errors == old(result)@.errors + wave.errors
            &&& final(result)@.warnings == old(result)@.warnings
        }),
{
    let mut pages: Vec<Page> = Vec::new();
    let ghost steps = output_views(outputs@);
    let ghost templates = context.templates@;
    let ghost posts = context.md_post_list@->0;
    let ghost output = context.args.output@;
    let ghost project = context.args.project@;
    let mut i: usize = 0;
    proof {
        assert(steps.take(0) =~= Seq::<OutputView>::empty());
        assert(page_views(pages@) =~= Seq::<PageView>::empty());
        assert(old(result)@.errors + Seq::<ErrorView>::empty() =~= old(result)@.errors);
    }
    while i < outputs.len()
        invariant
            i <= outputs.len(),
            context.md_post_list@ is Some,
            steps == output_views(outputs@),
            templates == context.templates@,
            posts == context.md_post_list@->0,
            output == context.args.output@,
            project == context.args.project@,
            page_views(pages@) == rendered_all(
                templates,
                posts,
                output,
                project,
                steps.take(i as int),
                sources(layouts@),
                sources(files@),
                production,
                limit as nat,
            ).pages,
            result@.errors == old(result)@.errors + rendered_all(
                templates,
                posts,
                output,
                project,
                steps.take(i as int),
                sources(layouts@),
                sources(files@),
                production,
                limit as nat,
            ).errors,
            result@.warnings == old(result)@.warnings,
        decreases outputs.len() - i,
    {
        let step = &outputs[i];
        let ghost head = rendered_all(
            templates,
            posts,
            output,
            project,
            steps.take(i as int),
            sources(layouts@),
            sources(files@),
            production,
            limit as nat,
        );
        let ghost before = page_views(pages@);
        proof {
            assert(steps.take(i + 1).drop_last() =~= steps.take(i as int));
            assert(steps.take(i + 1).last() == step@);
        }
        if strip_path_prefix(step.path.as_slice(), context.args.project.as_slice()).is_none() {
            result.push_error(
                ContentError::new(ErrorKind::OutsideProject, 0, step.path.as_slice()),
            );
            assert(result@.errors =~= old(result)@.errors + head.errors.push(
                about(ErrorKind::OutsideProject, step.path@),
            ));
        } else {
            let template = match find_source(layouts, step.template_path.as_slice()) {
                Some(data) => Some(data),
                None => find_source(files, step.template_path.as_slice()),
            };
            match template {
                None => {
                    result.push_error(
                        ContentError::new(ErrorKind::TemplateNotFound, 0, step.path.as_slice()),
                    );
                    assert(result@.errors =~= old(result)@.errors + head.errors.push(
                        about(ErrorKind::TemplateNotFound, step.path@),
                    ));
                },
                Some(data) => {
                    match process_file(
                        context,
                        step,
                        to_vec(data.as_slice()),
                        production,
                        limit,
                    ) {
                        Ok((rendering, page)) => {
                            let ghost errors = rendering@.errors;
                            pages.push(page);
                            result.merge(rendering);
                            assert(page_views(pages@) =~= before.push(page@));
                            assert(result@.errors =~= old(result)@.errors + (head.errors
                                + errors));
                            assert(result@.warnings =~= old(result)@.warnings);
                        },
                        Err(error) => {
                            result.push_error(error);
                            assert(result@.errors =~= old(result)@.errors + head.errors.push(
                                error@,
                            ));
                        },
                    }
                },
            }
        }
        i += 1;
    }
    assert(steps.take(i as int) =~= steps);
    pages
}

/// Runs over the content files: analyses each, builds the list of posts
/// from all of them, assigns it, and renders the pages. A file that fails
/// leaves its error in the result and stops no other.
pub fn process_content(
    context: &mut Context,
    files: &Vec<SourceFile>,
    layouts: &Vec<SourceFile>,
    production: bool,
    limit: usize,
) -> (r: (ContentResult, Vec<Page>))
    requires
        old(context).md_post_list@ is None,
    ensures
        final(context).templates == old(context).templates,
        final(context).args == old(context).args,
        ({
            let first = analysed(
                old(context).args.project@,
                old(context).args.content_directory(),
                sources(files@),
                source_paths(sources(layouts@)),
            );
            let second = rendered_all(
                old(context).templates@,
                posts_of(first.outputs),
                old(context).args.output@,
                old(context).args.project@,
                first.outputs,
                sources(layouts@),
                sources(files@),
                production,
                limit as nat,
            );
            &&& final(context).md_post_list@ == Some(posts_of(first.outputs))
            &&& r.0@.errors == first.errors + second.errors
            &&& r.0@.warnings == first.warnings
            &&& page_views(r.1@) == second.pages
        }),
{
    let mut result = ContentResult::new();
    let templates = paths_of(layouts);
    let outputs = analyse_all(context, files, &templates, &mut result);
    let ghost first = analysed(
        context.args.project@,
        context.args.content_directory(),
        sources(files@),
        source_paths(sources(layouts@)),
    );
    proof {
        assert(Seq::<ErrorView>::empty() + first.errors =~= first.errors);
        assert(Seq::<ErrorView>::empty() + first.warnings =~= first.warnings);
        assert(contents_of(outputs@) =~= output_views(outputs@).map_values(
            |output: OutputView| output.content,
        ));
    }
    let posts = create_md_post_list(&outputs);
    context.md_post_list.set(posts);
    let pages = render_all(context, &outputs, layouts, files, production, limit, &mut result);
    (result, pages)
}

} // verus!
