use vsm_generator::cache::{Cache, CacheInner};
use vsm_generator::content::pipeline::SourceFile;
use vsm_generator::context::{Args, Context};
use vsm_generator::server::{
    accept_gzip, accept_gzip_include_mime, asset_file, get_latest_release, page_file,
    DeployAnswer, DeployState,
};
use vsm_generator::static_files::{needs_minifying, static_output_path};
use vsm_generator::template_repository::TemplateRepository;

#[test]
fn compressed_files_are_for_production() {
    assert!(accept_gzip(Some(b"gzip, deflate"), true));
    assert!(!accept_gzip(Some(b"gzip, deflate"), false));
    assert!(!accept_gzip(Some(b"deflate, gzip"), true));
    assert!(!accept_gzip(None, true));
}

#[test]
fn images_are_sent_as_they_are() {
    let header: Option<&[u8]> = Some(b"gzip");
    assert!(accept_gzip_include_mime(b"text/css", header, true));
    assert!(!accept_gzip_include_mime(b"image/png", header, true));
    assert!(!accept_gzip_include_mime(b"image/svg+xml", header, true));
    assert!(!accept_gzip_include_mime(b"img/x", header, true));
    assert!(!accept_gzip_include_mime(b"text/css", None, true));
    assert!(!accept_gzip_include_mime(b"text/css", header, false));
}

#[test]
fn page_files() {
    assert_eq!(page_file(b"index", false), Some(b"./output/content/index.html".to_vec()));
    assert_eq!(page_file(b"blog/post", true), Some(b"./output/content/blog/post.html.deflate".to_vec()));
    assert_eq!(page_file(b"style.css", false), None);
}

#[test]
fn asset_files() {
    assert_eq!(asset_file(b"css/site.css", false), b"./output/static/css/site.css".to_vec());
    assert_eq!(asset_file(b"css/site.css", true), b"./output/static/css/site.css.deflate".to_vec());
    assert_eq!(asset_file(b"LICENSE", true), b"./output/static/LICENSE..deflate".to_vec());
}

#[test]
fn deployment_is_asked_for_with_the_key() {
    let mut state = DeployState::initialize(b"secret".to_vec());
    assert_eq!(state.site(b"wrong"), DeployAnswer::InvalidKey);
    assert!(!state.site_deployed);
    assert_eq!(state.site(b"secret"), DeployAnswer::Start);
    assert!(state.site_deployed);
    assert_eq!(state.site(b"secret"), DeployAnswer::AlreadyDeploying);
    assert_eq!(state.site(b"nope"), DeployAnswer::InvalidKey);
    assert!(!state.server_deployed);
    assert_eq!(state.server(b"secret"), DeployAnswer::Start);
    assert_eq!(state.server(b"secret"), DeployAnswer::AlreadyDeploying);
    state.site_deployed = false;
    assert_eq!(state.site(b"secret"), DeployAnswer::Start);
}

#[test]
fn latest_release_is_the_last_of_the_latest_date() {
    assert_eq!(get_latest_release(&Vec::new()), None);
    let releases = vec![
        (b"v1".to_vec(), 10),
        (b"v3".to_vec(), 30),
        (b"v2".to_vec(), 20),
        (b"v3b".to_vec(), 30),
        (b"v0".to_vec(), -5),
    ];
    assert_eq!(get_latest_release(&releases), Some(b"v3b".to_vec()));
    let mut sorted = releases.clone();
    sorted.sort_by(|a, b| a.1.cmp(&b.1));
    assert_eq!(get_latest_release(&releases), sorted.pop().map(|r| r.0));
}

#[test]
fn generator_arguments() {
    let args = vsm_generator::server::Args { project: b"../site".to_vec(), output: b"./output".to_vec(), port: 3000 };
    let expected: Vec<Vec<u8>> =
        ["--project", "../site", "--output", "./output"].iter().map(|a| a.as_bytes().to_vec()).collect();
    assert_eq!(args.generator_command(), expected);
}

#[test]
fn static_files_are_copied_below_the_output() {
    let args = Args { project: b"site".to_vec(), output: b"public".to_vec() };
    let context = Context::new(TemplateRepository::load(Vec::new()), args);
    assert_eq!(static_output_path(&context, b"site/static/css/a.css"), Some(b"public/static/css/a.css".to_vec()));
    assert_eq!(static_output_path(&context, b"other/a.css"), None);
    assert!(needs_minifying(b"site/static/css/a.css"));
    assert!(needs_minifying(b"a.js"));
    assert!(!needs_minifying(b"a.json"));
    assert!(!needs_minifying(b"css"));
}

#[test]
fn cache_is_empty_where_nothing_was_stored() {
    assert!(CacheInner::new().contents.is_empty());
    let cache = Cache::load_or_new(b".cache/cache.bin".to_vec(), None);
    assert_eq!(cache.path, b".cache/cache.bin".to_vec());
    assert!(cache.inner.contents.is_empty());
    let file = SourceFile { path: Vec::new(), data: Vec::new() };
    assert!(file.path.is_empty());
}
