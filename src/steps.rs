use convert_case::Casing;
use vstd::prelude::*;
use vstd::string::*;
use crate::context::ReleaseContext;
use crate::error::{ConfigSection, ReleaseError};
use crate::metadata::Metadata;
use crate::pipeline::{CollectArtifacts, CreateGithubRelease, CreateTagOnGithub, Init};

verus! {

/// A tag to create on GitHub.
pub struct TagRequest {
    pub owner: String,
    pub repo: String,
    pub tag: String,
    pub commit: String,
}

/// A GitHub release to create, and the artifact files to upload to it.
pub struct ReleaseRequest {
    pub owner: String,
    pub repo: String,
    pub tag: String,
    pub title: String,
    pub body: String,
    pub uploads: Vec<String>,
}

/// An entry of the artifacts folder.
pub struct ArtifactEntry {
    pub path: String,
    pub is_file: bool,
}

/// The paths of the entries that are files, in order.
pub open spec fn file_paths(entries: Seq<ArtifactEntry>) -> Seq<Seq<char>>
    decreases entries.len(),
{
    if entries.len() == 0 {
        Seq::empty()
    } else if entries.last().is_file {
        file_paths(entries.drop_last()).push(entries.last().path@)
    } else {
        file_paths(entries.drop_last())
    }
}

/// A copy of each string of `v`.
fn copy_strings(v: &Vec<String>) -> (r: Vec<String>)
    ensures
        r@.map_values(|s: String| s@) == v@.map_values(|s: String| s@),
{
    let mut r: Vec<String> = Vec::new();
    let mut i: usize = 0;
    while i < v.len()
        invariant
            i <= v@.len(),
            r@.len() == i,
            r@.map_values(|s: String| s@) == v@.subrange(0, i as int).map_values(|s: String| s@),
        decreases v.len() - i,
    {
        let ghost r0 = r@;
        r.push(v[i].clone());
        assert(r@[i as int] == v@[i as int]);
        assert forall|k: int| 0 <= k < i implies r@[k]@ == v@[k]@ by {
            assert(r@[k] == r0[k]);
            assert(r0.map_values(|s: String| s@)[k] == v@.subrange(0, i as int).map_values(|s: String| s@)[k]);
        }
        assert(r@.map_values(|s: String| s@) =~= v@.subrange(0, i + 1).map_values(|s: String| s@));
        i = i + 1;
    }
    assert(v@.subrange(0, v@.len() as int) =~= v@);
    r
}

impl CreateTagOnGithub {
    /// Records the rendered release tag, then says what to create: nothing
    /// in dry-run mode, else the tag on the current commit.
    pub fn prepare(&self, ctx: &mut ReleaseContext, tag: String) -> (r: Result<Option<TagRequest>, ReleaseError>)
        ensures
            final(ctx).github_release_tag == Some(tag),
            final(ctx).config == old(ctx).config,
            final(ctx).dry_run == old(ctx).dry_run,
            final(ctx).current_commit == old(ctx).current_commit,
            old(ctx).config.github is None ==> r == Err::<Option<TagRequest>, ReleaseError>(
                ReleaseError::MissingSection(ConfigSection::GitHub),
            ),
            old(ctx).config.github is Some && old(ctx).current_commit is None ==> r == Err::<
                Option<TagRequest>,
                ReleaseError,
            >(ReleaseError::CommitNotQueried),
            (old(ctx).config.github is Some && old(ctx).current_commit is Some) ==> (r matches Ok(
                req,
            ) && (old(ctx).dry_run <==> req is None)),
            r matches Ok(Some(req)) ==> req.tag@ == tag@ && req.commit@ == old(ctx).current_commit->Some_0@ && req.owner@ == old(ctx).config.github->Some_0.repo.owner@
                && req.repo@ == old(ctx).config.github->Some_0.repo.name@,
    {
        let tag_copy = tag.clone();
        ctx.set_github_release_tag(tag);
        let github = ctx.github_config()?;
        let owner = github.repo.owner.clone();
        let repo = github.repo.name.clone();
        let commit = ctx.current_commit()?;
        if ctx.is_dry_run() {
            return Ok(None);
        }
        Ok(Some(TagRequest { owner, repo, tag: tag_copy, commit }))
    }
}

impl CreateGithubRelease {
    /// What to create for the rendered `title` and `body`: nothing in
    /// dry-run mode, else the release for the recorded tag with the
    /// collected artifacts to upload when uploading is enabled.
    pub fn prepare(&self, ctx: &ReleaseContext, title: String, body: String) -> (r: Result<
        Option<ReleaseRequest>,
        ReleaseError,
    >)
        ensures
            ctx.config.github is None ==> r == Err::<Option<ReleaseRequest>, ReleaseError>(
                ReleaseError::MissingSection(ConfigSection::GitHub),
            ),
            ctx.config.github is Some && ctx.github_release_tag is None ==> r == Err::<
                Option<ReleaseRequest>,
                ReleaseError,
            >(ReleaseError::TagNotCreated),
            ctx.dry_run && ctx.config.github is Some && ctx.github_release_tag is Some ==> r == Ok::<
                Option<ReleaseRequest>,
                ReleaseError,
            >(None),
            r matches Ok(Some(req)) ==> {
                &&& !ctx.dry_run
                &&& req.tag@ == ctx.github_release_tag->Some_0@
                &&& req.title@ == title@
                &&& req.body@ == body@
                &&& req.owner@ == ctx.config.github->Some_0.repo.owner@
                &&& req.repo@ == ctx.config.github->Some_0.repo.name@
                &&& ctx.config.release is Some && ctx.config.release->Some_0.github is Some
                &&& if ctx.config.release->Some_0.github->Some_0.release_page_upload_artifacts {
                    ctx.artifacts is Some && req.uploads@.map_values(|s: String| s@)
                        == ctx.artifacts->Some_0@.map_values(|s: String| s@)
                } else {
                    req.uploads@.len() == 0
                }
            },
            (!ctx.dry_run && ctx.config.github is Some && ctx.github_release_tag is Some
                && ctx.config.release is Some && ctx.config.release->Some_0.github is Some && (
            !ctx.config.release->Some_0.github->Some_0.release_page_upload_artifacts
                || ctx.artifacts is Some)) ==> (r matches Ok(Some(_))),
    {
        let github = ctx.github_config()?;
        let tag = ctx.github_release_tag()?;
        if ctx.is_dry_run() {
            return Ok(None);
        }
        let upload = ctx.release_github_config()?.release_page_upload_artifacts;
        let uploads = if upload {
            copy_strings(ctx.artifacts()?)
        } else {
            Vec::new()
        };
        Ok(
            Some(
                ReleaseRequest {
                    owner: github.repo.owner.clone(),
                    repo: github.repo.name.clone(),
                    tag,
                    title,
                    body,
                    uploads,
                },
            ),
        )
    }
}

impl CollectArtifacts {
    /// Records the files among `entries`, the contents of the artifacts
    /// folder; an empty folder is an error when the configuration says so.
    pub fn collect(&self, ctx: &mut ReleaseContext, entries: Vec<ArtifactEntry>) -> (r: Result<
        (),
        ReleaseError,
    >)
        ensures
            match old(ctx).config.artifacts {
                None => r == Err::<(), ReleaseError>(
                    ReleaseError::MissingSection(ConfigSection::Artifacts),
                ) && *final(ctx) == *old(ctx),
                Some(cfg) => if cfg.check_not_empty && entries@.len() == 0 {
                    r == Err::<(), ReleaseError>(ReleaseError::ArtifactsEmpty) && *final(ctx)
                        == *old(ctx)
                } else {
                    r is Ok && (final(ctx).artifacts matches Some(a) && a@.map_values(
                        |s: String| s@,
                    ) == file_paths(entries@))
                },
            },
            final(ctx).config == old(ctx).config,
            final(ctx).dry_run == old(ctx).dry_run,
            final(ctx).metadata == old(ctx).metadata,
            final(ctx).version == old(ctx).version,
    {
        let cfg = ctx.artifacts_config()?;
        if cfg.check_not_empty && entries.len() == 0 {
            return Err(ReleaseError::ArtifactsEmpty);
        }
        let mut files: Vec<String> = Vec::new();
        let mut i: usize = 0;
        while i < entries.len()
            invariant
                i <= entries@.len(),
                files@.map_values(|s: String| s@) == file_paths(entries@.subrange(0, i as int)),
            decreases entries.len() - i,
        {
            let ghost pre = entries@.subrange(0, i as int);
            let ghost post = entries@.subrange(0, i + 1);
            assert(post.drop_last() =~= pre);
            if entries[i].is_file {
                files.push(entries[i].path.clone());
            }
            assert(files@.map_values(|s: String| s@) =~= file_paths(post));
            i = i + 1;
        }
        assert(entries@.subrange(0, entries@.len() as int) =~= entries@);
        ctx.artifacts = Some(files);
        Ok(())
    }
}

/// The first package named `name`, if any.
pub open spec fn first_named(meta: Metadata, name: Seq<char>) -> Option<int> {
    if exists|p: int| 0 <= p < meta.packages@.len() && #[trigger] meta.packages@[p].name@ == name {
        Some(
            choose|p: int|
                0 <= p < meta.packages@.len() && #[trigger] meta.packages@[p].name@ == name && forall|
                    q: int,
                | 0 <= q < p ==> meta.packages@[q].name@ != name,
        )
    } else {
        None
    }
}

/// Upper snake case of a registry name, as convert_case computes it.
pub uninterp spec fn upper_snake(s: Seq<char>) -> Seq<char>;

/// Relies on convert_case's `Casing::to_case` with `Case::UpperSnake`: the
/// result depends on the text alone.
#[verifier::external_body]
fn to_upper_snake(s: &str) -> (r: String)
    ensures
        r@ == upper_snake(s@),
{
    s.to_case(convert_case::Case::UpperSnake)
}

/// Name of the environment variable that holds the registry token.
pub open spec fn registry_token_var_name(registry: Option<String>) -> Seq<char> {
    match registry {
        Some(r) => "CARGO_REGISTRIES_"@ + upper_snake(r@) + "_TOKEN"@,
        None => "CARGO_REGISTRY_TOKEN"@,
    }
}

/// Name of the environment variable that holds the token of `registry`.
pub fn registry_token_var(registry: &Option<String>) -> (r: String)
    ensures
        r@ == registry_token_var_name(*registry),
{
    proof {
        reveal_strlit("CARGO_REGISTRIES_");
        reveal_strlit("_TOKEN");
        reveal_strlit("CARGO_REGISTRY_TOKEN");
    }
    match registry {
        Some(name) => {
            let upper = to_upper_snake(name.as_str());
            let prefix = String::from_str("CARGO_REGISTRIES_");
            prefix.concat(upper.as_str()).concat("_TOKEN")
        },
        None => String::from_str("CARGO_REGISTRY_TOKEN"),
    }
}

impl Init {
    /// Stores the workspace metadata and takes the pending version from the
    /// first package named like the root package.
    pub fn process_metadata(&self, ctx: &mut ReleaseContext, metadata: Metadata) -> (r: Result<
        (),
        ReleaseError,
    >)
        ensures
            match first_named(metadata, old(ctx).config.workspace.root_crate@) {
                None => r == Err::<(), ReleaseError>(ReleaseError::RootPackageNotFound) && *final(ctx) == *old(ctx),
                Some(p) => r is Ok && final(ctx).metadata == Some(metadata) && final(ctx).version
                    == Some(metadata.packages@[p].version),
            },
            final(ctx).config == old(ctx).config,
            final(ctx).dry_run == old(ctx).dry_run,
            final(ctx).nopublish == old(ctx).nopublish,
    {
        let root = ctx.root_crate_name();
        let mut p: usize = 0;
        while p < metadata.packages.len()
            invariant
                p <= metadata.packages@.len(),
                *ctx == *old(ctx),
                root@ == ctx.config.workspace.root_crate@,
                forall|q: int| 0 <= q < p ==> #[trigger] metadata.packages@[q].name@ != root@,
            decreases metadata.packages.len() - p,
        {
            if metadata.packages[p].name == root {
                let version = metadata.packages[p].version.duplicate();
                proof {
                    let c = first_named(metadata, root@)->Some_0;
                    assert(metadata.packages@[p as int].name@ == root@);
                    assert(first_named(metadata, root@) is Some);
                    assert(c == p) by {
                        if c < p {
                            assert(metadata.packages@[c].name@ != root@);
                        }
                        if c > p {
                            assert(metadata.packages@[p as int].name@ != root@);
                        }
                    }
                }
                ctx.metadata = Some(metadata);
                ctx.version = Some(version);
                return Ok(());
            }
            p = p + 1;
        }
        Err(ReleaseError::RootPackageNotFound)
    }
}

} // verus!
