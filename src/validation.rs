use vstd::prelude::*;
use vstd::string::*;
use crate::context::{candidates, ReleaseContext};
use crate::error::{ConfigSection, ReleaseError, ValidationReport};
use crate::metadata::{Dependency, DependencyKind, Metadata, Package};
use crate::version::{
    compare_versions, requirement_accepts, requirement_unconstrained, same_version,
    semver_order, semver_req_accepts, semver_req_unconstrained, Version,
};

verus! {

/// Registry targeted when none is configured.
pub const CRATES_IO_REGISTRY_NAME: &'static str = "crates-io";

/// The registry a release publishes to.
pub open spec fn target_registry(registry: Option<String>) -> Seq<char> {
    match registry {
        Some(r) => r@,
        None => CRATES_IO_REGISTRY_NAME@,
    }
}

/// The package may be published to the registry named `target`.
pub open spec fn allows_registry(pkg: Package, target: Seq<char>) -> bool {
    match pkg.publish {
        None => true,
        Some(allowed) => exists|k: int| 0 <= k < allowed@.len() && #[trigger] allowed@[k]@ == target,
    }
}

/// Some workspace member is named `name`.
pub open spec fn is_member_name(meta: Metadata, name: Seq<char>) -> bool {
    exists|q: int| #[trigger] meta.is_member(q) && meta.packages@[q].name@ == name
}

/// An in-workspace development dependency constrained by a version.
pub open spec fn bad_dev_dependency(meta: Metadata, dep: Dependency) -> bool {
    &&& dep.kind == DependencyKind::Development
    &&& is_member_name(meta, dep.name@)
    &&& semver_req_unconstrained(dep.req@) != Some(true)
}

/// An in-workspace, non-development dependency whose requirement does not
/// accept `version`.
pub open spec fn unmet_dependency(meta: Metadata, dep: Dependency, version: Version) -> bool {
    &&& dep.kind != DependencyKind::Development
    &&& is_member_name(meta, dep.name@)
    &&& semver_req_accepts(dep.req@, version.parts()) != Some(true)
}

pub open spec fn has_bad_dev_dependency(meta: Metadata, p: int) -> bool {
    exists|k: int|
        0 <= k < meta.packages@[p].dependencies@.len() && #[trigger] bad_dev_dependency(
            meta,
            meta.packages@[p].dependencies@[k],
        )
}

/// The package's version differs from `version`, or one of its in-workspace
/// dependencies does not accept `version`.
pub open spec fn version_inconsistent(meta: Metadata, p: int, version: Version) -> bool {
    ||| meta.packages@[p].version.parts() != version.parts()
    ||| exists|k: int|
        0 <= k < meta.packages@[p].dependencies@.len() && #[trigger] unmet_dependency(
            meta,
            meta.packages@[p].dependencies@[k],
            version,
        )
}

pub open spec fn registry_violations(meta: Metadata, target: Seq<char>) -> Seq<usize> {
    candidates(meta).filter(|p: usize| !allows_registry(meta.packages@[p as int], target))
}

pub open spec fn dev_dependency_violations(meta: Metadata) -> Seq<usize> {
    candidates(meta).filter(|p: usize| has_bad_dev_dependency(meta, p as int))
}

pub open spec fn consistency_violations(meta: Metadata, version: Version) -> Seq<usize> {
    candidates(meta).filter(|p: usize| version_inconsistent(meta, p as int, version))
}

/// The result the registry check owes on `ctx`.
pub open spec fn registry_outcome(ctx: ReleaseContext, r: Result<(), ReleaseError>) -> bool {
    match ctx.metadata {
        None => r == Err::<(), ReleaseError>(ReleaseError::MetadataNotQueried),
        Some(meta) => match ctx.config.release {
            None => r == Err::<(), ReleaseError>(ReleaseError::MissingSection(ConfigSection::Release)),
            Some(release) => {
                let v = registry_violations(meta, target_registry(release.registry));
                if v.len() == 0 {
                    r is Ok
                } else {
                    r matches Err(ReleaseError::RegistryInconsistency(list)) && list@ == v
                }
            },
        },
    }
}

/// The result the development-dependency check owes on `ctx`.
pub open spec fn dev_dependency_outcome(ctx: ReleaseContext, r: Result<(), ReleaseError>) -> bool {
    match ctx.config.release {
        None => r == Err::<(), ReleaseError>(ReleaseError::MissingSection(ConfigSection::Release)),
        Some(release) => if release.allow_non_path_dev_dependencies {
            r is Ok
        } else {
            match ctx.metadata {
                None => r == Err::<(), ReleaseError>(ReleaseError::MetadataNotQueried),
                Some(meta) => {
                    let v = dev_dependency_violations(meta);
                    if v.len() == 0 {
                        r is Ok
                    } else {
                        r matches Err(ReleaseError::InvalidDevDependencies(list)) && list@ == v
                    }
                },
            }
        },
    }
}

/// The result the version-consistency check owes on `ctx`.
pub open spec fn consistency_outcome(
    ctx: ReleaseContext,
    version: Version,
    r: Result<(), ReleaseError>,
) -> bool {
    match ctx.metadata {
        None => r == Err::<(), ReleaseError>(ReleaseError::MetadataNotQueried),
        Some(meta) => {
            let v = consistency_violations(meta, version);
            if v.len() == 0 {
                r is Ok
            } else {
                r matches Err(ReleaseError::VersionInconsistency(list)) && list@ == v
            }
        },
    }
}

/// `b` is `a` with `prev_version` replaced.
pub open spec fn with_prev_version(
    a: ReleaseContext,
    b: ReleaseContext,
    prev: Option<Option<Version>>,
) -> bool {
    &&& b.prev_version == prev
    &&& b.dry_run == a.dry_run
    &&& b.nopublish == a.nopublish
    &&& b.config == a.config
    &&& b.crates_io_token == a.crates_io_token
    &&& b.github_token == a.github_token
    &&& b.current_commit == a.current_commit
    &&& b.metadata == a.metadata
    &&& b.version == a.version
    &&& b.changelog == a.changelog
    &&& b.artifacts == a.artifacts
    &&& b.github_release_tag == a.github_release_tag
}

/// The result and new state the version-raise check owes, given the
/// version last published to the registry (`None`: never published).
pub open spec fn raise_outcome(
    old_ctx: ReleaseContext,
    new_ctx: ReleaseContext,
    version: Version,
    previous: Option<Version>,
    r: Result<(), ReleaseError>,
) -> bool {
    match old_ctx.config.release {
        None => r == Err::<(), ReleaseError>(ReleaseError::MissingSection(ConfigSection::Release))
            && new_ctx == old_ctx,
        Some(release) => if !release.check_version_raised {
            r is Ok && new_ctx == old_ctx
        } else {
            match previous {
                None => r is Ok && with_prev_version(old_ctx, new_ctx, Some(None)),
                Some(p) => match semver_order(version.parts(), p.parts()) {
                    Some(o) => if o == 1 {
                        r is Ok && with_prev_version(old_ctx, new_ctx, Some(Some(p)))
                    } else {
                        r == Err::<(), ReleaseError>(ReleaseError::VersionNotRaised) && new_ctx
                            == old_ctx
                    },
                    None => r == Err::<(), ReleaseError>(ReleaseError::InvalidVersion) && new_ctx
                        == old_ctx,
                },
            }
        },
    }
}

/// Whether some string of `list` equals `s`.
fn list_contains(list: &Vec<String>, s: &String) -> (r: bool)
    ensures
        r == exists|k: int| 0 <= k < list@.len() && #[trigger] list@[k]@ == s@,
{
    let mut i: usize = 0;
    while i < list.len()
        invariant
            i <= list.len(),
            forall|k: int| 0 <= k < i ==> #[trigger] list@[k]@ != s@,
        decreases list.len() - i,
    {
        if list[i] == *s {
            return true;
        }
        i = i + 1;
    }
    false
}

/// Whether some workspace member is named `name`.
fn member_named(meta: &Metadata, name: &String) -> (r: bool)
    ensures
        r == is_member_name(*meta, name@),
{
    let mut p: usize = 0;
    while p < meta.packages.len()
        invariant
            p <= meta.packages@.len(),
            forall|q: int| 0 <= q < p ==> !(#[trigger] meta.is_member(q) && meta.packages@[q].name@ == name@),
        decreases meta.packages.len() - p,
    {
        if meta.packages[p].name == *name && crate::context::contains_index(&meta.workspace_members, p) {
            assert(meta.is_member(p as int) && meta.packages@[p as int].name@ == name@);
            return true;
        }
        p = p + 1;
    }
    false
}

/// Whether the package declares a version-constrained in-workspace
/// development dependency.
fn check_package_dev_dependencies(meta: &Metadata, p: usize) -> (r: bool)
    requires
        p < meta.packages@.len(),
    ensures
        r == has_bad_dev_dependency(*meta, p as int),
{
    let deps = &meta.packages[p].dependencies;
    let mut k: usize = 0;
    while k < deps.len()
        invariant
            k <= deps@.len(),
            deps@ == meta.packages@[p as int].dependencies@,
            forall|j: int| 0 <= j < k ==> !#[trigger] bad_dev_dependency(*meta, deps@[j]),
        decreases deps.len() - k,
    {
        let dep = &deps[k];
        if dep.kind == DependencyKind::Development && member_named(meta, &dep.name) {
            match requirement_unconstrained(dep.req.as_str()) {
                Some(true) => {},
                _ => {
                    assert(bad_dev_dependency(*meta, deps@[k as int]));
                    return true;
                },
            }
        }
        k = k + 1;
    }
    false
}

/// Whether the package disagrees with `version`.
fn check_package_version(meta: &Metadata, p: usize, version: &Version) -> (r: bool)
    requires
        p < meta.packages@.len(),
    ensures
        r == version_inconsistent(*meta, p as int, *version),
{
    let package = &meta.packages[p];
    if !same_version(&package.version, version) {
        return true;
    }
    let deps = &package.dependencies;
    let mut k: usize = 0;
    while k < deps.len()
        invariant
            k <= deps@.len(),
            deps@ == meta.packages@[p as int].dependencies@,
            meta.packages@[p as int].version.parts() == version.parts(),
            forall|j: int| 0 <= j < k ==> !#[trigger] unmet_dependency(*meta, deps@[j], *version),
        decreases deps.len() - k,
    {
        let dep = &deps[k];
        if dep.kind != DependencyKind::Development && member_named(meta, &dep.name) {
            match requirement_accepts(dep.req.as_str(), version) {
                Some(true) => {},
                _ => {
                    assert(unmet_dependency(*meta, deps@[k as int], *version));
                    return true;
                },
            }
        }
        k = k + 1;
    }
    false
}

/// The validation step: registry consistency, version raise, development
/// dependencies and version consistency.
pub struct VaidateVersion;

impl VaidateVersion {
    /// Every candidate must allow the target registry.
    pub fn check_registry_consistency(&self, ctx: &ReleaseContext) -> (r: Result<(), ReleaseError>)
        ensures
            registry_outcome(*ctx, r),
    {
        let packages = ctx.packages_to_publish()?;
        let release = ctx.release_config()?;
        let target = match &release.registry {
            Some(name) => name.clone(),
            None => String::from_str(CRATES_IO_REGISTRY_NAME),
        };
        let meta = ctx.cargo_metadata()?;
        let ghost pred = |p: usize| !allows_registry(meta.packages@[p as int], target@);
        proof {
            reveal_strlit("crates-io");
        }
        let mut bad: Vec<usize> = Vec::new();
        let mut i: usize = 0;
        let _n = meta.packages.len();
        while i < packages.len()
            invariant
                i <= packages@.len(),
                meta.packages@.len() <= usize::MAX,
                packages@ == candidates(*meta),
                pred == (|p: usize| !allows_registry(meta.packages@[p as int], target@)),
                bad@ == packages@.subrange(0, i as int).filter(pred),
            decreases packages.len() - i,
        {
            let p = packages[i];
            proof {
                crate::context::lemma_candidates_are_candidates(*meta, i as int);
            }
            let ghost bad0 = bad@;
            let allowed = match &meta.packages[p].publish {
                None => true,
                Some(list) => list_contains(list, &target),
            };
            if !allowed {
                bad.push(p);
            }
            proof {
                assert(packages@.subrange(0, i + 1) =~= packages@.subrange(0, i as int).push(p));
                packages@.subrange(0, i as int).lemma_filter_push(p, pred);
                assert(pred(p) == !allowed);
            }
            i = i + 1;
        }
        assert(packages@.subrange(0, packages@.len() as int) =~= packages@);
        if bad.len() == 0 {
            Ok(())
        } else {
            Err(ReleaseError::RegistryInconsistency(bad))
        }
    }

    /// The pending version must be above `previous`, the version last
    /// published to the registry, when the release configuration asks for
    /// this check. The outcome of the query is recorded in `prev_version`.
    pub fn check_version_raised(
        &self,
        version: &Version,
        previous: Option<Version>,
        ctx: &mut ReleaseContext,
    ) -> (r: Result<(), ReleaseError>)
        ensures
            raise_outcome(*old(ctx), *final(ctx), *version, previous, r),
    {
        if !ctx.release_config()?.check_version_raised {
            return Ok(());
        }
        match previous {
            None => {
                ctx.prev_version = Some(None);
                Ok(())
            },
            Some(p) => match compare_versions(version, &p) {
                Some(o) => {
                    if o == 1 {
                        ctx.prev_version = Some(Some(p));
                        Ok(())
                    } else {
                        Err(ReleaseError::VersionNotRaised)
                    }
                },
                None => Err(ReleaseError::InvalidVersion),
            },
        }
    }

    /// No candidate may constrain an in-workspace development dependency by
    /// version, unless the release configuration allows it.
    pub fn check_dev_dependencies(&self, ctx: &ReleaseContext) -> (r: Result<(), ReleaseError>)
        ensures
            dev_dependency_outcome(*ctx, r),
    {
        if ctx.release_config()?.allow_non_path_dev_dependencies {
            return Ok(());
        }
        let packages = ctx.packages_to_publish()?;
        let meta = ctx.cargo_metadata()?;
        let ghost pred = |p: usize| has_bad_dev_dependency(*meta, p as int);
        let mut bad: Vec<usize> = Vec::new();
        let mut i: usize = 0;
        let _n = meta.packages.len();
        while i < packages.len()
            invariant
                i <= packages@.len(),
                meta.packages@.len() <= usize::MAX,
                packages@ == candidates(*meta),
                pred == (|p: usize| has_bad_dev_dependency(*meta, p as int)),
                bad@ == packages@.subrange(0, i as int).filter(pred),
            decreases packages.len() - i,
        {
            let p = packages[i];
            proof {
                crate::context::lemma_candidates_are_candidates(*meta, i as int);
            }
            let failed = check_package_dev_dependencies(meta, p);
            if failed {
                bad.push(p);
            }
            proof {
                assert(packages@.subrange(0, i + 1) =~= packages@.subrange(0, i as int).push(p));
                packages@.subrange(0, i as int).lemma_filter_push(p, pred);
            }
            i = i + 1;
        }
        assert(packages@.subrange(0, packages@.len() as int) =~= packages@);
        if bad.len() == 0 {
            Ok(())
        } else {
            Err(ReleaseError::InvalidDevDependencies(bad))
        }
    }

    /// Every candidate must carry the pending version, and each of its
    /// in-workspace, non-development dependencies must accept it.
    pub fn check_version_consistency(&self, version: &Version, ctx: &ReleaseContext) -> (r: Result<
        (),
        ReleaseError,
    >)
        ensures
            consistency_outcome(*ctx, *version, r),
    {
        let packages = ctx.packages_to_publish()?;
        let meta = ctx.cargo_metadata()?;
        let ghost pred = |p: usize| version_inconsistent(*meta, p as int, *version);
        let mut bad: Vec<usize> = Vec::new();
        let mut i: usize = 0;
        let _n = meta.packages.len();
        while i < packages.len()
            invariant
                i <= packages@.len(),
                meta.packages@.len() <= usize::MAX,
                packages@ == candidates(*meta),
                pred == (|p: usize| version_inconsistent(*meta, p as int, *version)),
                bad@ == packages@.subrange(0, i as int).filter(pred),
            decreases packages.len() - i,
        {
            let p = packages[i];
            proof {
                crate::context::lemma_candidates_are_candidates(*meta, i as int);
            }
            let failed = check_package_version(meta, p, version);
            if failed {
                bad.push(p);
            }
            proof {
                assert(packages@.subrange(0, i + 1) =~= packages@.subrange(0, i as int).push(p));
                packages@.subrange(0, i as int).lemma_filter_push(p, pred);
            }
            i = i + 1;
        }
        assert(packages@.subrange(0, packages@.len() as int) =~= packages@);
        if bad.len() == 0 {
            Ok(())
        } else {
            Err(ReleaseError::VersionInconsistency(bad))
        }
    }

    /// Runs all four checks, none cutting another short, and fails when any
    /// of them fails. `previous` is the version last published to the
    /// registry; it is read only when the version-raise check is on.
    pub fn execute(&self, ctx: &mut ReleaseContext, previous: Option<Version>) -> (r: Result<
        (),
        ReleaseError,
    >)
        ensures
            old(ctx).version is None ==> r == Err::<(), ReleaseError>(
                ReleaseError::VersionNotQueried,
            ) && *final(ctx) == *old(ctx),
            old(ctx).version matches Some(v) ==> exists|
                registry: Result<(), ReleaseError>,
                raised: Result<(), ReleaseError>,
                dev: Result<(), ReleaseError>,
                consistency: Result<(), ReleaseError>,
            |
                {
                    &&& registry_outcome(*old(ctx), registry)
                    &&& raise_outcome(*old(ctx), *final(ctx), v, previous, raised)
                    &&& dev_dependency_outcome(*old(ctx), dev)
                    &&& consistency_outcome(*old(ctx), v, consistency)
                    &&& (r is Ok <==> registry is Ok && raised is Ok && dev is Ok
                        && consistency is Ok)
                    &&& r is Err ==> r == Err::<(), ReleaseError>(
                        ReleaseError::ValidationFailed(
                            Box::new(
                                ValidationReport {
                                    registry,
                                    version_raised: raised,
                                    dev_dependencies: dev,
                                    version_consistency: consistency,
                                },
                            ),
                        ),
                    )
                },
    {
        let version = ctx.version()?;
        let registry = self.check_registry_consistency(ctx);
        let ghost ctx0 = *ctx;
        let raised = self.check_version_raised(&version, previous, ctx);
        let dev = self.check_dev_dependencies(ctx);
        let consistency = self.check_version_consistency(&version, ctx);
        proof {
            assert(dev_dependency_outcome(ctx0, dev));
            assert(consistency_outcome(ctx0, version, consistency));
        }
        if registry.is_ok() && raised.is_ok() && dev.is_ok() && consistency.is_ok() {
            Ok(())
        } else {
            Err(
                ReleaseError::ValidationFailed(
                    Box::new(
                        ValidationReport {
                            registry,
                            version_raised: raised,
                            dev_dependencies: dev,
                            version_consistency: consistency,
                        },
                    ),
                ),
            )
        }
    }
}

/// The checks' outcomes do not depend on the dry-run or no-publish mode:
/// two states that differ only in those flags owe the same results.
pub proof fn lemma_validation_ignores_mode(a: ReleaseContext, b: ReleaseContext, version: Version)
    requires
        a.config == b.config,
        a.metadata == b.metadata,
    ensures
        forall|r: Result<(), ReleaseError>|
            #[trigger] registry_outcome(a, r) == registry_outcome(b, r),
        forall|r: Result<(), ReleaseError>|
            #[trigger] dev_dependency_outcome(a, r) == dev_dependency_outcome(b, r),
        forall|r: Result<(), ReleaseError>|
            #[trigger] consistency_outcome(a, version, r) == consistency_outcome(b, version, r),
{
}

} // verus!
