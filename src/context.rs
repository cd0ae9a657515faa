use vstd::prelude::*;
use crate::config::{Artifacts, Changelog, Config, GitHub, GithubRelease, Release};
use crate::error::{ConfigSection, ReleaseError};
use crate::graph::{dfs_postorder, distinct, sort_workspace, workspace_adj};
use crate::metadata::Metadata;
use crate::version::Version;

verus! {

/// The values a text template can refer to.
pub struct TextTemplateContext {
    pub root_crate: String,
    pub version: Version,
    pub changelog: Option<String>,
}

/// The state shared by the release steps. Fields that a step fills are
/// `None` until that step has run.
pub struct ReleaseContext {
    pub dry_run: bool,
    pub nopublish: bool,
    pub config: Config,
    pub crates_io_token: Option<String>,
    pub github_token: Option<String>,
    pub current_commit: Option<String>,
    pub metadata: Option<Metadata>,
    pub version: Option<Version>,
    pub prev_version: Option<Option<Version>>,
    pub changelog: Option<String>,
    pub artifacts: Option<Vec<String>>,
    pub github_release_tag: Option<String>,
}

/// The indices below `n` that satisfy `pred`, in increasing order.
pub open spec fn indices_where(n: int, pred: spec_fn(int) -> bool) -> Seq<usize>
    decreases n,
{
    if n <= 0 {
        Seq::empty()
    } else if pred(n - 1) {
        indices_where(n - 1, pred).push((n - 1) as usize)
    } else {
        indices_where(n - 1, pred)
    }
}

/// A package is a publish candidate when it is a workspace member and its
/// allow-set is absent or non-empty.
pub open spec fn is_candidate(meta: Metadata, p: int) -> bool {
    &&& meta.is_member(p)
    &&& !(meta.packages@[p].publish matches Some(allowed) && allowed@.len() == 0)
}

/// The publish candidates, in package order.
pub open spec fn candidates(meta: Metadata) -> Seq<usize> {
    indices_where(meta.num_packages(), |p: int| is_candidate(meta, p))
}

/// The workspace members, in package order.
pub open spec fn member_packages(meta: Metadata) -> Seq<usize> {
    indices_where(meta.num_packages(), |p: int| meta.is_member(p))
}

/// [`is_candidate`] as a predicate on package indices.
pub open spec fn candidate_pred(meta: Metadata) -> spec_fn(usize) -> bool {
    |p: usize| is_candidate(meta, p as int)
}

/// The candidates of `order`, in the order of `order`.
pub open spec fn candidates_in(meta: Metadata, order: Seq<usize>) -> Seq<usize> {
    order.filter(candidate_pred(meta))
}

/// `c` is the workspace's depth-first post-order with the non-candidates
/// left out. So it lists each publish candidate once, and nothing else; when
/// the members have no dependency cycle, every package comes after its
/// in-workspace dependencies.
pub open spec fn is_publish_order(meta: Metadata, c: Seq<usize>) -> bool {
    &&& c == candidates_in(meta, dfs_postorder(workspace_adj(meta), meta.workspace_members@))
    &&& distinct(c)
    &&& forall|k: int| 0 <= k < c.len() ==> is_candidate(meta, #[trigger] c[k] as int)
    &&& forall|p: int| 0 <= p && #[trigger] is_candidate(meta, p) ==> c.contains(p as usize)
    &&& meta.workspace_acyclic() ==> forall|i: int, j: int|
        0 <= i < c.len() && 0 <= j < c.len() && #[trigger] meta.workspace_edge(c[i] as int, c[j] as int)
            ==> j < i
}

/// Whether `x` is one of `v`.
pub fn contains_index(v: &Vec<usize>, x: usize) -> (r: bool)
    ensures
        r == v@.contains(x),
{
    let mut i: usize = 0;
    while i < v.len()
        invariant
            i <= v.len(),
            forall|j: int| 0 <= j < i ==> v@[j] != x,
        decreases v.len() - i,
    {
        if v[i] == x {
            return true;
        }
        i = i + 1;
    }
    false
}

/// Whether package `p` is a publish candidate of `meta`.
pub fn package_is_candidate(meta: &Metadata, p: usize) -> (r: bool)
    requires
        p < meta.packages@.len(),
    ensures
        r == is_candidate(*meta, p as int),
{
    if !contains_index(&meta.workspace_members, p) {
        return false;
    }
    match &meta.packages[p].publish {
        None => true,
        Some(allowed) => allowed.len() != 0,
    }
}

/// The publish candidates among `order`, keeping the order of `order`.
pub fn publish_candidates_in(meta: &Metadata, order: &Vec<usize>) -> (r: Vec<usize>)
    requires
        forall|i: int| 0 <= i < order@.len() ==> #[trigger] order@[i] < meta.packages@.len(),
    ensures
        r@ == candidates_in(*meta, order@),
{
    broadcast use Seq::lemma_filter_push;

    let ghost pred = candidate_pred(*meta);
    let mut r: Vec<usize> = Vec::new();
    let mut i: usize = 0;
    while i < order.len()
        invariant
            i <= order.len(),
            pred == candidate_pred(*meta),
            forall|j: int| 0 <= j < order@.len() ==> #[trigger] order@[j] < meta.packages@.len(),
            r@ == order@.subrange(0, i as int).filter(pred),
        decreases order.len() - i,
    {
        let p = order[i];
        assert(order@.subrange(0, i + 1) =~= order@.subrange(0, i as int).push(p));
        let ghost r0 = r@;
        let keep = package_is_candidate(meta, p);
        if keep {
            r.push(p);
        }
        proof {
            order@.subrange(0, i as int).lemma_filter_push(p, pred);
            assert(pred(p) == keep);
        }
        i = i + 1;
    }
    assert(order@.subrange(0, order@.len() as int) =~= order@);
    r
}

impl ReleaseContext {
    /// Metadata, when present, is well formed.
    pub open spec fn wf(&self) -> bool {
        self.metadata matches Some(meta) ==> meta.wf()
    }

    /// A fresh state: only the mode flags and the configuration are set.
    pub fn new(config: Config, dry_run: bool, nopublish: bool) -> (r: ReleaseContext)
        ensures
            r.config == config,
            r.dry_run == dry_run,
            r.nopublish == nopublish,
            r.crates_io_token is None,
            r.github_token is None,
            r.current_commit is None,
            r.metadata is None,
            r.version is None,
            r.prev_version is None,
            r.changelog is None,
            r.artifacts is None,
            r.github_release_tag is None,
            r.wf(),
    {
        ReleaseContext {
            dry_run,
            nopublish,
            config,
            crates_io_token: None,
            github_token: None,
            current_commit: None,
            metadata: None,
            version: None,
            prev_version: None,
            changelog: None,
            artifacts: None,
            github_release_tag: None,
        }
    }

    pub fn is_dry_run(&self) -> (r: bool)
        ensures
            r == self.dry_run,
    {
        self.dry_run
    }

    pub fn is_nopublish(&self) -> (r: bool)
        ensures
            r == self.nopublish,
    {
        self.nopublish
    }

    pub fn root_crate_name(&self) -> (r: String)
        ensures
            r@ == self.config.workspace.root_crate@,
    {
        self.config.workspace.root_crate.clone()
    }

    pub fn github_config(&self) -> (r: Result<&GitHub, ReleaseError>)
        ensures
            match self.config.github {
                Some(g) => r matches Ok(x) && *x == g,
                None => r == Err::<&GitHub, ReleaseError>(
                    ReleaseError::MissingSection(ConfigSection::GitHub),
                ),
            },
    {
        match &self.config.github {
            Some(g) => Ok(g),
            None => Err(ReleaseError::MissingSection(ConfigSection::GitHub)),
        }
    }

    pub fn release_config(&self) -> (r: Result<&Release, ReleaseError>)
        ensures
            match self.config.release {
                Some(g) => r matches Ok(x) && *x == g,
                None => r == Err::<&Release, ReleaseError>(
                    ReleaseError::MissingSection(ConfigSection::Release),
                ),
            },
    {
        match &self.config.release {
            Some(g) => Ok(g),
            None => Err(ReleaseError::MissingSection(ConfigSection::Release)),
        }
    }

    pub fn release_github_config(&self) -> (r: Result<&GithubRelease, ReleaseError>)
        ensures
            match self.config.release {
                Some(release) => match release.github {
                    Some(g) => r matches Ok(x) && *x == g,
                    None => r == Err::<&GithubRelease, ReleaseError>(
                        ReleaseError::MissingSection(ConfigSection::ReleaseGitHub),
                    ),
                },
                None => r == Err::<&GithubRelease, ReleaseError>(
                    ReleaseError::MissingSection(ConfigSection::Release),
                ),
            },
    {
        match &self.release_config()?.github {
            Some(g) => Ok(g),
            None => Err(ReleaseError::MissingSection(ConfigSection::ReleaseGitHub)),
        }
    }

    pub fn artifacts_config(&self) -> (r: Result<&Artifacts, ReleaseError>)
        ensures
            match self.config.artifacts {
                Some(g) => r matches Ok(x) && *x == g,
                None => r == Err::<&Artifacts, ReleaseError>(
                    ReleaseError::MissingSection(ConfigSection::Artifacts),
                ),
            },
    {
        match &self.config.artifacts {
            Some(g) => Ok(g),
            None => Err(ReleaseError::MissingSection(ConfigSection::Artifacts)),
        }
    }

    pub fn changelog_config(&self) -> (r: Result<&Changelog, ReleaseError>)
        ensures
            match self.config.changelog {
                Some(g) => r matches Ok(x) && *x == g,
                None => r == Err::<&Changelog, ReleaseError>(
                    ReleaseError::MissingSection(ConfigSection::Changelog),
                ),
            },
    {
        match &self.config.changelog {
            Some(g) => Ok(g),
            None => Err(ReleaseError::MissingSection(ConfigSection::Changelog)),
        }
    }

    pub fn current_commit(&self) -> (r: Result<String, ReleaseError>)
        ensures
            match self.current_commit {
                Some(c) => r matches Ok(x) && x@ == c@,
                None => r == Err::<String, ReleaseError>(ReleaseError::CommitNotQueried),
            },
    {
        match &self.current_commit {
            Some(c) => Ok(c.clone()),
            None => Err(ReleaseError::CommitNotQueried),
        }
    }

    pub fn cargo_metadata(&self) -> (r: Result<&Metadata, ReleaseError>)
        ensures
            match self.metadata {
                Some(m) => r matches Ok(x) && *x == m,
                None => r == Err::<&Metadata, ReleaseError>(ReleaseError::MetadataNotQueried),
            },
    {
        match &self.metadata {
            Some(m) => Ok(m),
            None => Err(ReleaseError::MetadataNotQueried),
        }
    }

    /// Names of the workspace members, in package order.
    pub fn workspace_package_names(&self) -> (r: Result<Vec<String>, ReleaseError>)
        ensures
            self.metadata is None ==> r == Err::<Vec<String>, ReleaseError>(
                ReleaseError::MetadataNotQueried,
            ),
            self.metadata matches Some(meta) ==> (r matches Ok(names) && names@.len()
                == member_packages(meta).len() && forall|k: int|
                0 <= k < names@.len() ==> #[trigger] names@[k]@ == meta.packages@[member_packages(
                    meta,
                )[k] as int].name@),
    {
        let meta = self.cargo_metadata()?;
        let ghost pred = |p: int| meta.is_member(p);
        let mut names: Vec<String> = Vec::new();
        let mut p: usize = 0;
        while p < meta.packages.len()
            invariant
                p <= meta.packages@.len(),
                pred == (|q: int| meta.is_member(q)),
                names@.len() == indices_where(p as int, pred).len(),
                forall|k: int|
                    0 <= k < names@.len() ==> #[trigger] names@[k]@ == meta.packages@[indices_where(
                        p as int,
                        pred,
                    )[k] as int].name@,
            decreases meta.packages.len() - p,
        {
            if contains_index(&meta.workspace_members, p) {
                names.push(meta.packages[p].name.clone());
            }
            p = p + 1;
        }
        Ok(names)
    }

    /// The publish candidates, in package order.
    pub fn packages_to_publish(&self) -> (r: Result<Vec<usize>, ReleaseError>)
        ensures
            self.metadata is None ==> r == Err::<Vec<usize>, ReleaseError>(
                ReleaseError::MetadataNotQueried,
            ),
            self.metadata matches Some(meta) ==> (r matches Ok(c) && c@ == candidates(meta)),
            r matches Ok(c) ==> forall|k: int|
                0 <= k < c@.len() ==> !(self.metadata->0.packages@[#[trigger] c@[k] as int].publish matches Some(
                    allowed,
                ) && allowed@.len() == 0),
    {
        let meta = self.cargo_metadata()?;
        let ghost pred = |p: int| is_candidate(*meta, p);
        let mut c: Vec<usize> = Vec::new();
        let mut p: usize = 0;
        while p < meta.packages.len()
            invariant
                p <= meta.packages@.len(),
                pred == (|q: int| is_candidate(*meta, q)),
                c@ == indices_where(p as int, pred),
                forall|k: int| 0 <= k < c@.len() ==> is_candidate(*meta, #[trigger] c@[k] as int),
            decreases meta.packages.len() - p,
        {
            if package_is_candidate(meta, p) {
                c.push(p);
            }
            p = p + 1;
        }
        Ok(c)
    }

    /// The publish candidates in publish order: the workspace order of
    /// [`sort_workspace`] with every non-candidate left out.
    pub fn ordered_packages_to_publish(&self) -> (r: Result<Vec<usize>, ReleaseError>)
        requires
            self.wf(),
        ensures
            self.metadata is None ==> r == Err::<Vec<usize>, ReleaseError>(
                ReleaseError::MetadataNotQueried,
            ),
            self.metadata matches Some(meta) ==> {
                &&& meta.resolve is None ==> r == Err::<Vec<usize>, ReleaseError>(
                    ReleaseError::UnresolvedDependencies,
                )
                &&& meta.resolve is Some ==> (r matches Ok(c) && is_publish_order(meta, c@))
            },
    {
        let meta = self.cargo_metadata()?;
        let order = sort_workspace(meta)?;
        let c = publish_candidates_in(meta, &order);
        let n = meta.packages.len();
        proof {
            lemma_candidates_in(*meta, order@);
            let pos = lemma_candidates_keep_order(*meta, order@);
            if meta.workspace_acyclic() {
                assert forall|i: int, j: int|
                    0 <= i < c@.len() && 0 <= j < c@.len() && #[trigger] meta.workspace_edge(
                        c@[i] as int,
                        c@[j] as int,
                    ) implies j < i by {
                    assert(order@[pos[i]] == c@[i] && order@[pos[j]] == c@[j]);
                    assert(pos[j] < pos[i]);
                    if i < j {
                        assert(pos[i] < pos[j]);
                    }
                }
            }
            assert forall|p: int| 0 <= p && #[trigger] is_candidate(*meta, p) implies c@.contains(p as usize) by {
                let i = choose|i: int| 0 <= i < meta.workspace_members@.len() && meta.workspace_members@[i] == p as usize;
                assert(order@.contains(meta.workspace_members@[i]));
                let j = choose|j: int| 0 <= j < order@.len() && order@[j] == meta.workspace_members@[i];
                assert(order@[j] as int == p);
            }
        }
        Ok(c)
    }

    pub fn version(&self) -> (r: Result<Version, ReleaseError>)
        ensures
            match self.version {
                Some(v) => r == Ok::<Version, ReleaseError>(v),
                None => r == Err::<Version, ReleaseError>(ReleaseError::VersionNotQueried),
            },
    {
        match &self.version {
            Some(v) => Ok(v.duplicate()),
            None => Err(ReleaseError::VersionNotQueried),
        }
    }

    pub fn artifacts(&self) -> (r: Result<&Vec<String>, ReleaseError>)
        ensures
            match self.artifacts {
                Some(a) => r matches Ok(x) && *x == a,
                None => r == Err::<&Vec<String>, ReleaseError>(ReleaseError::ArtifactsNotCollected),
            },
    {
        match &self.artifacts {
            Some(a) => Ok(a),
            None => Err(ReleaseError::ArtifactsNotCollected),
        }
    }

    /// The template values: root package name, pending version, changelog.
    pub fn text_template_context(&self) -> (r: Result<TextTemplateContext, ReleaseError>)
        ensures
            self.version is None ==> r == Err::<TextTemplateContext, ReleaseError>(
                ReleaseError::VersionNotQueried,
            ),
            self.version matches Some(v) ==> (r matches Ok(ctx) && ctx.root_crate@
                == self.config.workspace.root_crate@ && ctx.version == v && match self.changelog {
                Some(c) => ctx.changelog matches Some(x) && x@ == c@,
                None => ctx.changelog is None,
            }),
    {
        let version = self.version()?;
        let changelog = match &self.changelog {
            Some(c) => Some(c.clone()),
            None => None,
        };
        Ok(TextTemplateContext { root_crate: self.root_crate_name(), version, changelog })
    }

    pub fn set_github_token(&mut self, token: String)
        ensures
            final(self).github_token == Some(token),
            final(self).dry_run == old(self).dry_run,
            final(self).nopublish == old(self).nopublish,
            final(self).config == old(self).config,
            final(self).crates_io_token == old(self).crates_io_token,
            final(self).current_commit == old(self).current_commit,
            final(self).metadata == old(self).metadata,
            final(self).version == old(self).version,
            final(self).prev_version == old(self).prev_version,
            final(self).changelog == old(self).changelog,
            final(self).artifacts == old(self).artifacts,
            final(self).github_release_tag == old(self).github_release_tag,
    {
        self.github_token = Some(token);
    }

    pub fn set_github_release_tag(&mut self, tag: String)
        ensures
            final(self).github_release_tag == Some(tag),
            final(self).dry_run == old(self).dry_run,
            final(self).nopublish == old(self).nopublish,
            final(self).config == old(self).config,
            final(self).crates_io_token == old(self).crates_io_token,
            final(self).github_token == old(self).github_token,
            final(self).current_commit == old(self).current_commit,
            final(self).metadata == old(self).metadata,
            final(self).version == old(self).version,
            final(self).prev_version == old(self).prev_version,
            final(self).changelog == old(self).changelog,
            final(self).artifacts == old(self).artifacts,
    {
        self.github_release_tag = Some(tag);
    }

    pub fn github_release_tag(&self) -> (r: Result<String, ReleaseError>)
        ensures
            match self.github_release_tag {
                Some(t) => r matches Ok(x) && x@ == t@,
                None => r == Err::<String, ReleaseError>(ReleaseError::TagNotCreated),
            },
    {
        match &self.github_release_tag {
            Some(t) => Ok(t.clone()),
            None => Err(ReleaseError::TagNotCreated),
        }
    }
}

/// What filtering a workspace order down to its candidates keeps: exactly
/// the candidates of the order, each once if the order has no repeats.
pub proof fn lemma_candidates_in(meta: Metadata, order: Seq<usize>)
    ensures
        forall|k: int|
            0 <= k < candidates_in(meta, order).len() ==> is_candidate(
                meta,
                #[trigger] candidates_in(meta, order)[k] as int,
            ),
        forall|i: int|
            0 <= i < order.len() && is_candidate(meta, order[i] as int) ==> #[trigger] candidates_in(
                meta,
                order,
            ).contains(order[i]),
        distinct(order) ==> distinct(candidates_in(meta, order)),
    decreases order.len(),
{
    broadcast use Seq::lemma_filter_push;
    broadcast use vstd::seq_lib::group_filter_ensures;

    let pred = candidate_pred(meta);
    let c = candidates_in(meta, order);
    if order.len() > 0 {
        let prev = order.drop_last();
        lemma_candidates_in(meta, prev);
        assert(order == prev.push(order.last()));
        let cp = candidates_in(meta, prev);
        assert forall|i: int| 0 <= i < order.len() && is_candidate(meta, order[i] as int) implies c.contains(order[i]) by {
            assert(pred(order[i]));
        }
        if distinct(order) {
            assert(distinct(prev)) by {
                assert forall|a: int, b: int| 0 <= a < prev.len() && 0 <= b < prev.len() && a != b implies prev[a] != prev[b] by {
                    assert(prev[a] == order[a] && prev[b] == order[b]);
                }
            }
            if pred(order.last()) {
                assert(c == cp.push(order.last()));
                assert forall|a: int, b: int| 0 <= a < c.len() && 0 <= b < c.len() && a != b implies c[a] != c[b] by {
                    if a == cp.len() || b == cp.len() {
                        let o = if a == cp.len() { b } else { a };
                        assert(cp.contains(c[o])) by { assert(cp[o] == c[o]); }
                        prev.lemma_filter_contains_rev(pred, cp[o]);
                        let w = choose|w: int| 0 <= w < prev.len() && prev[w] == cp[o];
                        assert(order[w] != order.last());
                    }
                }
            }
        }
    } else {
        reveal(Seq::filter);
    }
}

/// Filtering an order down to its publish candidates never reorders them:
/// the kept candidates sit at strictly increasing positions of the order.
/// The result gives those positions.
pub proof fn lemma_candidates_keep_order(meta: Metadata, order: Seq<usize>) -> (pos: Seq<int>)
    ensures
        pos.len() == candidates_in(meta, order).len(),
        forall|k: int|
            0 <= k < pos.len() ==> 0 <= #[trigger] pos[k] < order.len() && order[pos[k]]
                == candidates_in(meta, order)[k],
        forall|k1: int, k2: int| 0 <= k1 < k2 < pos.len() ==> #[trigger] pos[k1] < #[trigger] pos[k2],
    decreases order.len(),
{
    broadcast use Seq::lemma_filter_push;

    let pred = candidate_pred(meta);
    if order.len() == 0 {
        reveal(Seq::filter);
        Seq::empty()
    } else {
        let prev = order.drop_last();
        let pp = lemma_candidates_keep_order(meta, prev);
        assert(order == prev.push(order.last()));
        let cp = candidates_in(meta, prev);
        if pred(order.last()) {
            let pos = pp.push(order.len() - 1);
            assert(candidates_in(meta, order) == cp.push(order.last()));
            assert forall|k: int| 0 <= k < pos.len() implies 0 <= #[trigger] pos[k] < order.len()
                && order[pos[k]] == candidates_in(meta, order)[k] by {
                if k < pp.len() {
                    assert(pos[k] == pp[k]);
                    assert(order[pp[k]] == prev[pp[k]]);
                }
            }
            assert forall|k1: int, k2: int| 0 <= k1 < k2 < pos.len() implies #[trigger] pos[k1]
                < #[trigger] pos[k2] by {
                assert(pos[k1] == pp[k1]);
                if k2 < pp.len() {
                    assert(pos[k2] == pp[k2]);
                }
            }
            pos
        } else {
            assert(candidates_in(meta, order) == cp);
            assert forall|k: int| 0 <= k < pp.len() implies 0 <= #[trigger] pp[k] < order.len()
                && order[pp[k]] == candidates_in(meta, order)[k] by {
                assert(order[pp[k]] == prev[pp[k]]);
            }
            pp
        }
    }
}

/// Each entry of [`candidates`] is a package index of a candidate.
pub proof fn lemma_candidates_are_candidates(meta: Metadata, i: int)
    requires
        0 <= i < candidates(meta).len(),
        meta.packages@.len() <= usize::MAX,
    ensures
        candidates(meta)[i] < meta.packages@.len(),
        is_candidate(meta, candidates(meta)[i] as int),
{
    lemma_indices_where(meta.num_packages(), |p: int| is_candidate(meta, p));
}

/// [`indices_where`] lists only indices below `n` that satisfy `pred`.
pub proof fn lemma_indices_where(n: int, pred: spec_fn(int) -> bool)
    requires
        n <= usize::MAX + 1,
    ensures
        forall|k: int|
            0 <= k < indices_where(n, pred).len() ==> 0 <= #[trigger] indices_where(n, pred)[k] < n
                && pred(indices_where(n, pred)[k] as int),
    decreases n,
{
    if n > 0 {
        lemma_indices_where(n - 1, pred);
        let prev = indices_where(n - 1, pred);
        let cur = indices_where(n, pred);
        assert forall|k: int| 0 <= k < cur.len() implies 0 <= #[trigger] cur[k] < n && pred(
            cur[k] as int,
        ) by {
            if k < prev.len() {
                assert(cur[k] == prev[k]);
            }
        }
    }
}

/// A package with an explicit empty allow-set is never kept as a publish
/// candidate, wherever it stands in the order.
pub proof fn lemma_private_never_listed(meta: Metadata, order: Seq<usize>, k: int)
    requires
        0 <= k < candidates_in(meta, order).len(),
    ensures
        !(meta.packages@[candidates_in(meta, order)[k] as int].publish matches Some(allowed)
            && allowed@.len() == 0),
{
    lemma_candidates_in(meta, order);
}

} // verus!
