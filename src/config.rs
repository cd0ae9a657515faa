use vstd::prelude::*;
use vstd::string::*;
use crate::error::ReleaseError;
use crate::github::Repo;

verus! {

/// Release configuration, as read from the workspace's configuration file.
pub struct Config {
    /// Workspace-related options.
    pub workspace: Workspace,
    /// GitHub-related options.
    pub github: Option<GitHub>,
    /// Changelog capture options.
    pub changelog: Option<Changelog>,
    /// Artifact collection options.
    pub artifacts: Option<Artifacts>,
    /// Release options.
    pub release: Option<Release>,
}

pub struct Workspace {
    /// Main workspace package, used for validation and naming.
    pub root_crate: String,
}

pub struct GitHub {
    /// Repository in `owner/name` form.
    pub repo: Repo,
}

pub struct Release {
    pub check_version_raised: bool,
    pub allow_non_path_dev_dependencies: bool,
    pub registry: Option<String>,
    pub publish_interval_seconds: usize,
    pub github: Option<GithubRelease>,
}

/// GitHub release options. The templates hold template source text.
pub struct GithubRelease {
    pub check_commit_pushed: bool,
    pub create_tag: bool,
    pub tag_name_template: String,
    pub create_release_page: bool,
    pub release_page_upload_artifacts: bool,
    pub release_page_title_template: String,
    pub release_page_body_template: String,
    pub print_to_stdout: bool,
}

/// Changelog options. The marker templates hold template source text.
pub struct Changelog {
    pub file: String,
    pub start_marker_template: Option<String>,
    pub end_marker_template: Option<String>,
    pub print_to_stdout: bool,
    pub allow_empty_changelog: bool,
}

pub struct Artifacts {
    pub directory: String,
    pub check_not_empty: bool,
}

/// Default for the boolean options that are on unless switched off.
pub fn default_bool_true() -> (r: bool)
    ensures
        r,
{
    true
}

/// Default tag name template.
pub fn default_tag_name_template() -> (r: String)
    ensures
        r@ == "v{{version}}"@,
{
    String::from_str("v{{version}}")
}

/// Default release page title template.
pub fn default_release_page_title_template() -> (r: String)
    ensures
        r@ == "{{root_crate}} v{{version}}"@,
{
    String::from_str("{{root_crate}} v{{version}}")
}

/// Default release page body template.
pub fn default_release_page_body_template() -> (r: String)
    ensures
        r@ == "{{changelog}}"@,
{
    String::from_str("{{changelog}}")
}

/// Default wait between two publishes, in seconds.
pub fn default_publish_interval_seconds() -> (r: usize)
    ensures
        r == 30,
{
    30
}

impl Config {
    /// The first inconsistency of the release section, if any.
    pub open spec fn release_problem(&self) -> Option<ReleaseError> {
        match self.release {
            None => None,
            Some(release) => if release.registry is Some && release.check_version_raised {
                Some(ReleaseError::VersionCheckWithCustomRegistry)
            } else {
                match release.github {
                    None => None,
                    Some(rg) => if self.github is None {
                        Some(ReleaseError::ReleaseGitHubWithoutRepo)
                    } else if rg.release_page_upload_artifacts && self.artifacts is None {
                        Some(ReleaseError::UploadWithoutArtifacts)
                    } else if rg.create_release_page && !rg.create_tag {
                        Some(ReleaseError::ReleasePageWithoutTag)
                    } else {
                        None
                    },
                }
            },
        }
    }

    /// Whether exactly one of the two changelog markers is configured.
    pub open spec fn changelog_problem(&self) -> bool {
        self.changelog matches Some(c) && (c.start_marker_template is Some)
            != (c.end_marker_template is Some)
    }

    fn validate_release(&self) -> (r: Result<(), ReleaseError>)
        ensures
            r is Ok <==> self.release_problem() is None,
            r matches Err(e) ==> self.release_problem() == Some(e),
    {
        let release = match &self.release {
            None => return Ok(()),
            Some(release) => release,
        };
        if release.registry.is_some() && release.check_version_raised {
            // Some custom registries do not implement search properly, and
            // some accept a publish of an existing version, so the check
            // cannot be trusted there.
            return Err(ReleaseError::VersionCheckWithCustomRegistry);
        }
        if let Some(release_github) = &release.github {
            if self.github.is_none() {
                return Err(ReleaseError::ReleaseGitHubWithoutRepo);
            }
            if release_github.release_page_upload_artifacts && self.artifacts.is_none() {
                return Err(ReleaseError::UploadWithoutArtifacts);
            }
            if release_github.create_release_page && !release_github.create_tag {
                return Err(ReleaseError::ReleasePageWithoutTag);
            }
        }
        Ok(())
    }

    fn validate_changelog(&self) -> (r: Result<(), ReleaseError>)
        ensures
            r is Ok <==> !self.changelog_problem(),
            r is Err ==> r == Err::<(), ReleaseError>(ReleaseError::IncompleteChangelogMarkers),
    {
        let changelog = match &self.changelog {
            None => return Ok(()),
            Some(changelog) => changelog,
        };
        if changelog.start_marker_template.is_some() != changelog.end_marker_template.is_some() {
            return Err(ReleaseError::IncompleteChangelogMarkers);
        }
        Ok(())
    }

    /// Checks that the sections agree with each other: the release section
    /// first, then the changelog markers.
    pub fn validate(&self) -> (r: Result<(), ReleaseError>)
        ensures
            r is Ok <==> self.release_problem() is None && !self.changelog_problem(),
            r matches Err(e) ==> match self.release_problem() {
                Some(p) => e == p,
                None => e == ReleaseError::IncompleteChangelogMarkers,
            },
    {
        self.validate_release()?;
        self.validate_changelog()?;
        Ok(())
    }
}

} // verus!
