use vstd::prelude::*;

verus! {

/// A semantic version: numeric core, pre-release and build-metadata parts.
///
/// `pre` and `build` hold the text of the pre-release and build-metadata
/// identifiers, without the leading `-` and `+`; both are empty for a plain
/// `major.minor.patch` version.
#[derive(Clone, Debug, PartialEq, Eq)]
pub struct Version {
    pub major: u64,
    pub minor: u64,
    pub patch: u64,
    pub pre: String,
    pub build: String,
}

/// The plain-value form of a [`Version`].
pub type VersionParts = (u64, u64, u64, Seq<char>, Seq<char>);

impl Version {
    pub open spec fn parts(&self) -> VersionParts {
        (self.major, self.minor, self.patch, self.pre@, self.build@)
    }

    /// A field-by-field copy.
    pub fn duplicate(&self) -> (r: Version)
        ensures
            r == *self,
    {
        Version {
            major: self.major,
            minor: self.minor,
            patch: self.patch,
            pre: self.pre.clone(),
            build: self.build.clone(),
        }
    }

    /// A release version without pre-release or build metadata.
    pub fn new(major: u64, minor: u64, patch: u64) -> (r: Version)
        ensures
            r.parts() == (major, minor, patch, Seq::<char>::empty(), Seq::<char>::empty()),
    {
        Version { major, minor, patch, pre: String::new(), build: String::new() }
    }
}

/// `(major, minor, patch)` of `a` is lexicographically below that of `b`.
pub open spec fn core_below(a: VersionParts, b: VersionParts) -> bool {
    a.0 < b.0 || (a.0 == b.0 && a.1 < b.1) || (a.0 == b.0 && a.1 == b.1 && a.2 < b.2)
}

/// semver's total order on two versions (`-1`, `0` or `1`), or `None` when a
/// pre-release or build-metadata part is not valid semver.
pub uninterp spec fn semver_order(a: VersionParts, b: VersionParts) -> Option<int>;

/// Whether the requirement text, as semver parses it, accepts the version;
/// `None` when the requirement or the version's parts do not parse.
pub uninterp spec fn semver_req_accepts(req: Seq<char>, v: VersionParts) -> Option<bool>;

/// Whether the requirement text, as semver parses it, has no comparator
/// (it puts no constraint on the version numbers); `None` when it does not
/// parse.
pub uninterp spec fn semver_req_unconstrained(req: Seq<char>) -> Option<bool>;

/// The version that semver parses from the text, if any.
pub uninterp spec fn semver_parse(text: Seq<char>) -> Option<VersionParts>;

/// Relies on semver: `Prerelease::new` and `BuildMetadata::new` to rebuild
/// each version, and the `Ord` of `semver::Version`, which compares major,
/// minor, patch, pre-release and build metadata in that order. The empty
/// pre-release and build texts are valid.
#[verifier::external_body]
pub(crate) fn compare_versions(a: &Version, b: &Version) -> (r: Option<i8>)
    ensures
        r matches Some(o) ==> semver_order(a.parts(), b.parts()) == Some(o as int),
        r is None ==> semver_order(a.parts(), b.parts()) is None,
        r matches Some(o) ==> -1 <= o <= 1,
        r is Some && core_below(a.parts(), b.parts()) ==> r == Some(-1i8),
        r is Some && core_below(b.parts(), a.parts()) ==> r == Some(1i8),
        r is Some && a.parts() == b.parts() ==> r == Some(0i8),
        a.pre@.len() == 0 && a.build@.len() == 0 && b.pre@.len() == 0 && b.build@.len() == 0
            ==> r is Some,
{
    let x = semver::Version {
        major: a.major,
        minor: a.minor,
        patch: a.patch,
        pre: semver::Prerelease::new(&a.pre).ok()?,
        build: semver::BuildMetadata::new(&a.build).ok()?,
    };
    let y = semver::Version {
        major: b.major,
        minor: b.minor,
        patch: b.patch,
        pre: semver::Prerelease::new(&b.pre).ok()?,
        build: semver::BuildMetadata::new(&b.build).ok()?,
    };
    Some(x.cmp(&y) as i8)
}

/// Relies on semver: `VersionReq::parse` of the requirement text and
/// `VersionReq::matches` on the version rebuilt with `Prerelease::new` and
/// `BuildMetadata::new`.
#[verifier::external_body]
pub(crate) fn requirement_accepts(req: &str, v: &Version) -> (r: Option<bool>)
    ensures
        r == semver_req_accepts(req@, v.parts()),
{
    let version = semver::Version {
        major: v.major,
        minor: v.minor,
        patch: v.patch,
        pre: semver::Prerelease::new(&v.pre).ok()?,
        build: semver::BuildMetadata::new(&v.build).ok()?,
    };
    Some(semver::VersionReq::parse(req).ok()?.matches(&version))
}

/// Relies on semver: `VersionReq::parse`, and whether the parsed requirement
/// has no comparators. semver documents that `*` parses to such a
/// requirement.
#[verifier::external_body]
pub(crate) fn requirement_unconstrained(req: &str) -> (r: Option<bool>)
    ensures
        r == semver_req_unconstrained(req@),
        req@ == seq!['*'] ==> r == Some(true),
{
    semver::VersionReq::parse(req).ok().map(|r| r.comparators.is_empty())
}

/// Relies on semver: `Version::parse`, keeping the text of the pre-release
/// and build-metadata parts.
#[verifier::external_body]
pub(crate) fn parse_version(text: &str) -> (r: Option<Version>)
    ensures
        match r {
            Some(v) => semver_parse(text@) == Some(v.parts()),
            None => semver_parse(text@) is None,
        },
{
    semver::Version::parse(text).ok().map(|v| Version {
        major: v.major,
        minor: v.minor,
        patch: v.patch,
        pre: v.pre.as_str().to_string(),
        build: v.build.as_str().to_string(),
    })
}

/// Field-by-field equality of two versions.
pub fn same_version(a: &Version, b: &Version) -> (r: bool)
    ensures
        r == (a.parts() == b.parts()),
{
    a.major == b.major && a.minor == b.minor && a.patch == b.patch && a.pre == b.pre && a.build
        == b.build
}

} // verus!
