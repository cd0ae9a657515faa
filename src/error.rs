use vstd::prelude::*;

verus! {

/// A configuration section that a step may require.
#[derive(Clone, Copy, Debug, PartialEq, Eq, Structural)]
pub enum ConfigSection {
    GitHub,
    Release,
    ReleaseGitHub,
    Artifacts,
    Changelog,
}

/// Everything that can stop a release.
#[derive(Debug, PartialEq, Eq)]
pub enum ReleaseError {
    /// A repository name is not of the form `owner/name`.
    InvalidRepo,
    /// A configuration section that a step needs is absent.
    MissingSection(ConfigSection),
    /// The current commit has not been queried yet.
    CommitNotQueried,
    /// The workspace metadata has not been queried yet.
    MetadataNotQueried,
    /// The pending version has not been determined yet.
    VersionNotQueried,
    /// No artifacts have been collected.
    ArtifactsNotCollected,
    /// The release tag has not been created yet.
    TagNotCreated,
    /// The metadata carries no resolved dependency graph.
    UnresolvedDependencies,
    /// The root package is not in the workspace metadata.
    RootPackageNotFound,
    /// The version-raise check was asked for together with a custom registry.
    VersionCheckWithCustomRegistry,
    /// `release.github` is set but no repository is configured.
    ReleaseGitHubWithoutRepo,
    /// Artifact upload is enabled but no artifacts section is configured.
    UploadWithoutArtifacts,
    /// A release page is requested without tag creation.
    ReleasePageWithoutTag,
    /// Only one of the two changelog markers is configured.
    IncompleteChangelogMarkers,
    /// These candidates (package indices) do not allow the target registry.
    RegistryInconsistency(Vec<usize>),
    /// The pending version is not above the published one.
    VersionNotRaised,
    /// A version text is not a valid semantic version.
    InvalidVersion,
    /// These candidates (package indices) declare versioned in-workspace
    /// development dependencies.
    InvalidDevDependencies(Vec<usize>),
    /// These candidates (package indices) disagree with the pending version.
    VersionInconsistency(Vec<usize>),
    /// The changelog end marker is not after the begin marker.
    ChangelogEndBeforeBegin,
    /// Nothing stands between the changelog markers.
    ChangelogEmpty,
    /// The changelog begin marker was not found.
    ChangelogBeginMissing,
    /// The changelog end marker was not found.
    ChangelogEndMissing,
    /// Neither changelog marker was found.
    ChangelogMarkersMissing,
    /// The artifacts folder holds nothing.
    ArtifactsEmpty,
    /// A real publish was requested in dry-run mode.
    PublishInDryRun,
    /// At least one validation check failed; the report holds all four
    /// outcomes.
    ValidationFailed(Box<ValidationReport>),
}

/// The outcome of each check of one validation run.
#[derive(Debug, PartialEq, Eq)]
pub struct ValidationReport {
    pub registry: Result<(), ReleaseError>,
    pub version_raised: Result<(), ReleaseError>,
    pub dev_dependencies: Result<(), ReleaseError>,
    pub version_consistency: Result<(), ReleaseError>,
}

} // verus!
