//! What the server decides when it is asked for a page, an asset or a
//! deployment.

use crate::path::{extension, extension_of, join, join_path, replace_extension, with_extension};
use crate::text::{append, bytes_eq, matches_at, starts_with_at, to_vec};
use vstd::prelude::*;
use vstd::string::StringSliceAdditionalSpecFns;

verus! {

/// The directories and the port of the server.
#[derive(Debug)]
pub struct Args {
    pub project: Vec<u8>,
    pub output: Vec<u8>,
    pub port: u16,
}

/// Whether a deployment of the site or of the server is under way, and the
/// key that a deployment has to be asked for with.
#[derive(Debug)]
pub struct DeployState {
    pub key: Vec<u8>,
    pub site_deployed: bool,
    pub server_deployed: bool,
}

/// What the administration of the server keeps.
#[derive(Debug)]
pub struct AdminState {
    pub deploy: DeployState,
}

/// What the interface of the server keeps.
#[derive(Debug)]
pub struct ApiState {
    pub admin: AdminState,
}

/// What a request for a deployment is answered with.
#[derive(Clone, Copy, Debug, PartialEq, Eq, Structural)]
pub enum DeployAnswer {
    /// The key is not the key of the server.
    InvalidKey,
    /// A deployment is under way already.
    AlreadyDeploying,
    /// The deployment starts.
    Start,
}

/// The answer to a request with the key `body`, where `deploying` says
/// whether a deployment is under way.
pub open spec fn deploy_answer(key: Seq<u8>, deploying: bool, body: Seq<u8>) -> DeployAnswer {
    if body != key {
        DeployAnswer::InvalidKey
    } else if deploying {
        DeployAnswer::AlreadyDeploying
    } else {
        DeployAnswer::Start
    }
}

impl DeployState {
    /// The state of a server that deploys nothing.
    pub fn initialize(key: Vec<u8>) -> (r: DeployState)
        ensures
            r.key == key,
            !r.site_deployed,
            !r.server_deployed,
    {
        DeployState { key, site_deployed: false, server_deployed: false }
    }

    /// Answers a request to deploy the site. With the right key the site
    /// counts as being deployed from then on.
    pub fn site(&mut self, body: &[u8]) -> (r: DeployAnswer)
        ensures
            r == deploy_answer(old(self).key@, old(self).site_deployed, body@),
            final(self).key == old(self).key,
            final(self).server_deployed == old(self).server_deployed,
            final(self).site_deployed == (old(self).site_deployed || body@ == old(self).key@),
    {
        if !bytes_eq(body, self.key.as_slice()) {
            return DeployAnswer::InvalidKey;
        }
        if self.site_deployed {
            return DeployAnswer::AlreadyDeploying;
        }
        self.site_deployed = true;
        DeployAnswer::Start
    }

    /// Answers a request to deploy the server. With the right key the
    /// server counts as being deployed from then on.
    pub fn server(&mut self, body: &[u8]) -> (r: DeployAnswer)
        ensures
            r == deploy_answer(old(self).key@, old(self).server_deployed, body@),
            final(self).key == old(self).key,
            final(self).site_deployed == old(self).site_deployed,
            final(self).server_deployed == (old(self).server_deployed || body@ == old(self).key@),
    {
        if !bytes_eq(body, self.key.as_slice()) {
            return DeployAnswer::InvalidKey;
        }
        if self.server_deployed {
            return DeployAnswer::AlreadyDeploying;
        }
        self.server_deployed = true;
        DeployAnswer::Start
    }
}

/// Whether a client that sent the given `Accept-Encoding` gets compressed
/// files: in production, where the header starts with `gzip`.
pub open spec fn accepts_gzip(accept_encoding: Option<Seq<u8>>, production: bool) -> bool {
    production && match accept_encoding {
        Some(header) => matches_at(header, "gzip".spec_bytes(), 0),
        None => false,
    }
}

/// Whether the client gets compressed files.
pub fn accept_gzip(accept_encoding: Option<&[u8]>, production: bool) -> (r: bool)
    ensures
        r == accepts_gzip(
            match accept_encoding {
                Some(header) => Some(header@),
                None => None,
            },
            production,
        ),
{
    if !production {
        return false;
    }
    match accept_encoding {
        Some(header) => starts_with_at(header, "gzip".as_bytes(), 0),
        None => false,
    }
}

/// Whether a file of the given type is an image that is stored as it is.
pub open spec fn is_stored_image(mime: Seq<u8>) -> bool {
    (matches_at(mime, "img/".spec_bytes(), 0) && mime != "image/svg+xml".spec_bytes())
        || matches_at(mime, "image".spec_bytes(), 0)
}

/// Whether a file of the given type is sent compressed.
pub fn accept_gzip_include_mime(
    mime: &[u8],
    accept_encoding: Option<&[u8]>,
    production: bool,
) -> (r: bool)
    ensures
        r == (!is_stored_image(mime@) && accepts_gzip(
            match accept_encoding {
                Some(header) => Some(header@),
                None => None,
            },
            production,
        )),
{
    if (starts_with_at(mime, "img/".as_bytes(), 0) && !bytes_eq(mime, "image/svg+xml".as_bytes()))
        || starts_with_at(mime, "image".as_bytes(), 0) {
        return false;
    }
    accept_gzip(accept_encoding, production)
}

/// The file that holds the page asked for at `path`: none for a path with
/// an extension, else the page below the output, compressed or not.
pub open spec fn page_path(path: Seq<u8>, gzip: bool) -> Option<Seq<u8>> {
    let file = join("./output/content".spec_bytes(), path);
    if extension(file) is Some {
        None
    } else {
        Some(
            with_extension(
                file,
                if gzip {
                    "html.deflate".spec_bytes()
                } else {
                    "html".spec_bytes()
                },
            ),
        )
    }
}

/// The file that holds the page asked for.
pub fn page_file(path: &[u8], gzip: bool) -> (r: Option<Vec<u8>>)
    ensures
        r matches Some(file) ==> page_path(path@, gzip) == Some(file@),
        r is None ==> page_path(path@, gzip) is None,
{
    let file = join_path("./output/content".as_bytes(), path);
    if extension_of(file.as_slice()).is_some() {
        return None;
    }
    if gzip {
        Some(replace_extension(file.as_slice(), "html.deflate".as_bytes()))
    } else {
        Some(replace_extension(file.as_slice(), "html".as_bytes()))
    }
}

/// The file that holds the asset asked for at `path`: the asset below the
/// output, with `.deflate` behind its extension where it is sent compressed.
pub open spec fn asset_path(path: Seq<u8>, gzip: bool) -> Seq<u8> {
    let file = join("./output/static".spec_bytes(), path);
    if gzip {
        with_extension(
            file,
            (match extension(file) {
                Some(found) => found,
                None => Seq::empty(),
            }) + ".deflate".spec_bytes(),
        )
    } else {
        file
    }
}

/// The file that holds the asset asked for.
pub fn asset_file(path: &[u8], gzip: bool) -> (r: Vec<u8>)
    ensures
        r@ == asset_path(path@, gzip),
{
    let file = join_path("./output/static".as_bytes(), path);
    if !gzip {
        return file;
    }
    let mut ending: Vec<u8> = match extension_of(file.as_slice()) {
        Some(found) => to_vec(found),
        None => Vec::new(),
    };
    append(&mut ending, ".deflate".as_bytes());
    replace_extension(file.as_slice(), ending.as_slice())
}

/// The arguments the generator is started with by the server.
pub open spec fn generator_arguments(project: Seq<u8>, output: Seq<u8>) -> Seq<Seq<u8>> {
    seq!["--project".spec_bytes(), project, "--output".spec_bytes(), output]
}

impl Args {
    /// The arguments to start the generator with.
    pub fn generator_command(&self) -> (r: Vec<Vec<u8>>)
        ensures
            r@.map_values(|argument: Vec<u8>| argument@) == generator_arguments(
                self.project@,
                self.output@,
            ),
    {
        let mut arguments: Vec<Vec<u8>> = Vec::new();
        arguments.push(to_vec("--project".as_bytes()));
        arguments.push(to_vec(self.project.as_slice()));
        arguments.push(to_vec("--output".as_bytes()));
        arguments.push(to_vec(self.output.as_slice()));
        assert(arguments@.map_values(|argument: Vec<u8>| argument@) =~= generator_arguments(
            self.project@,
            self.output@,
        ));
        arguments
    }
}

/// The release that was published last: of the releases of the latest
/// date, the one that stands last.
pub open spec fn latest(releases: Seq<(Seq<u8>, int)>) -> Option<Seq<u8>>
    decreases releases.len(),
{
    if releases.len() == 0 {
        None
    } else {
        match latest_date(releases.drop_last()) {
            Some(date) => if date > releases.last().1 {
                latest(releases.drop_last())
            } else {
                Some(releases.last().0)
            },
            None => Some(releases.last().0),
        }
    }
}

/// The latest date among the releases.
pub open spec fn latest_date(releases: Seq<(Seq<u8>, int)>) -> Option<int>
    decreases releases.len(),
{
    if releases.len() == 0 {
        None
    } else {
        match latest_date(releases.drop_last()) {
            Some(date) => if date > releases.last().1 {
                Some(date)
            } else {
                Some(releases.last().1)
            },
            None => Some(releases.last().1),
        }
    }
}

/// The values of a sequence of releases: tag and date of each.
pub open spec fn release_views(releases: Seq<(Vec<u8>, i64)>) -> Seq<(Seq<u8>, int)> {
    releases.map_values(|release: (Vec<u8>, i64)| (release.0@, release.1 as int))
}

/// Picks the tag of the release that was published last.
pub fn get_latest_release(releases: &Vec<(Vec<u8>, i64)>) -> (r: Option<Vec<u8>>)
    ensures
        r matches Some(tag) ==> latest(release_views(releases@)) == Some(tag@),
        r is None ==> latest(release_views(releases@)) is None,
{
    let ghost all = release_views(releases@);
    let mut best: Option<usize> = None;
    let mut i: usize = 0;
    assert(all.take(0) =~= Seq::<(Seq<u8>, int)>::empty());
    while i < releases.len()
        invariant
            i <= releases.len(),
            all == release_views(releases@),
            best is None ==> latest(all.take(i as int)) is None && latest_date(all.take(i as int))
                is None,
            best matches Some(k) ==> k < i && latest(all.take(i as int)) == Some(all[k as int].0)
                && latest_date(all.take(i as int)) == Some(all[k as int].1),
        decreases releases.len() - i,
    {
        assert(all.take(i + 1).drop_last() =~= all.take(i as int));
        assert(all.take(i + 1).last() == all[i as int]);
        match best {
            Some(k) => {
                if !(releases[k].1 > releases[i].1) {
                    best = Some(i);
                }
            },
            None => {
                best = Some(i);
            },
        }
        i += 1;
    }
    assert(all.take(i as int) =~= all);
    match best {
        Some(k) => Some(to_vec(releases[k].0.as_slice())),
        None => None,
    }
}

} // verus!
