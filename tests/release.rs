use cargo_monorepo::changelog::extract_section;
use cargo_monorepo::config::{
    default_bool_true, default_publish_interval_seconds, Artifacts, Changelog, Config, GitHub,
    GithubRelease, Release, Workspace,
};
use cargo_monorepo::context::ReleaseContext;
use cargo_monorepo::error::{ConfigSection, ReleaseError};
use cargo_monorepo::github::Repo;
use cargo_monorepo::graph::sort_workspace;
use cargo_monorepo::metadata::{Dependency, DependencyKind, Metadata, Package, ResolveNode, Target};
use cargo_monorepo::pipeline::{
    plan_steps, publish_args, CargoPublish, Command, PublishAction, ReleaseExecutor, Step,
};
use cargo_monorepo::registry::find_published_version;
use cargo_monorepo::steps::{registry_token_var, ArtifactEntry};
use cargo_monorepo::pipeline::{CollectArtifacts, CreateGithubRelease, CreateTagOnGithub, Init};
use cargo_monorepo::changelog::CaptureChangelog;
use cargo_monorepo::utils::shorten_commit;
use cargo_monorepo::validation::VaidateVersion;
use cargo_monorepo::version::Version;

fn dep(name: &str, kind: DependencyKind, req: &str) -> Dependency {
    Dependency { name: name.to_string(), kind, req: req.to_string() }
}

fn package(name: &str, version: Version, deps: Vec<Dependency>, publish: Option<Vec<String>>) -> Package {
    Package {
        name: name.to_string(),
        version,
        dependencies: deps,
        publish,
        targets: vec![Target { name: name.to_string(), kind: vec!["lib".to_string()] }],
        manifest_path: format!("{}/Cargo.toml", name),
    }
}

fn release_section() -> Release {
    Release {
        check_version_raised: true,
        allow_non_path_dev_dependencies: false,
        registry: None,
        publish_interval_seconds: 30,
        github: None,
    }
}

fn config(release: Option<Release>) -> Config {
    Config {
        workspace: Workspace { root_crate: "root".to_string() },
        github: None,
        changelog: None,
        artifacts: None,
        release,
    }
}

fn github_release() -> GithubRelease {
    GithubRelease {
        check_commit_pushed: true,
        create_tag: true,
        tag_name_template: "v{{version}}".to_string(),
        create_release_page: true,
        release_page_upload_artifacts: false,
        release_page_title_template: "{{root_crate}} v{{version}}".to_string(),
        release_page_body_template: "{{changelog}}".to_string(),
        print_to_stdout: false,
    }
}

/// `root`, `lib` depending on `root` with `req`, all members.
fn two_packages(req: &str) -> Metadata {
    Metadata {
        packages: vec![
            package("root", Version::new(1, 2, 0), vec![], None),
            package("lib", Version::new(1, 2, 0), vec![dep("root", DependencyKind::Normal, req)], None),
        ],
        workspace_members: vec![0, 1],
        resolve: Some(vec![
            ResolveNode { id: 0, dependencies: vec![] },
            ResolveNode { id: 1, dependencies: vec![0] },
        ]),
    }
}

fn context_with(meta: Metadata, version: Version) -> ReleaseContext {
    let mut ctx = ReleaseContext::new(config(Some(release_section())), false, false);
    ctx.metadata = Some(meta);
    ctx.version = Some(version);
    ctx
}

/// app (0) -> mid (1) -> base (2), plus private (3) -> base; app also uses an
/// outside package (4). Members in listing order app, mid, base, private.
fn chain() -> Metadata {
    Metadata {
        packages: vec![
            package("app", Version::new(1, 0, 0), vec![], None),
            package("mid", Version::new(1, 0, 0), vec![], None),
            package("base", Version::new(1, 0, 0), vec![], None),
            package("private", Version::new(1, 0, 0), vec![], Some(vec![])),
            package("outside", Version::new(3, 0, 0), vec![], None),
        ],
        workspace_members: vec![0, 1, 2, 3],
        resolve: Some(vec![
            ResolveNode { id: 0, dependencies: vec![1, 4, 3] },
            ResolveNode { id: 1, dependencies: vec![2] },
            ResolveNode { id: 2, dependencies: vec![] },
            ResolveNode { id: 3, dependencies: vec![2] },
            ResolveNode { id: 4, dependencies: vec![] },
        ]),
    }
}

#[test]
fn repo_parsing() {
    let repo = "user/repo".parse::<Repo>().unwrap();
    assert_eq!(repo, Repo::new("user", "repo"));
    assert_eq!("failure".parse::<Repo>(), Err(ReleaseError::InvalidRepo));
    assert_eq!("/".parse::<Repo>(), Err(ReleaseError::InvalidRepo));
    assert_eq!("owner/".parse::<Repo>(), Err(ReleaseError::InvalidRepo));
    assert_eq!("/name".parse::<Repo>(), Err(ReleaseError::InvalidRepo));
}

#[test]
fn repo_roundtrip() {
    let repo = Repo::new("owner", "repo");
    let text = repo.to_string();
    assert_eq!(text, "owner/repo");
    assert_eq!(Repo::parse(&text).unwrap(), repo);
}

#[test]
fn repo_deserialize_failure() {
    assert!(Repo::parse("invalid").is_err());
}

#[test]
fn repo_splits_at_first_slash() {
    let repo = Repo::parse("owner/name/extra").unwrap();
    assert_eq!(repo.owner, "owner");
    assert_eq!(repo.name, "name/extra");
}

#[test]
fn publish_order_puts_dependencies_first() {
    let order = sort_workspace(&chain()).unwrap();
    assert_eq!(order, vec![2, 1, 3, 0]);
}

#[test]
fn publish_order_ignores_cycles_silently() {
    let meta = Metadata {
        packages: vec![
            package("a", Version::new(1, 0, 0), vec![], None),
            package("b", Version::new(1, 0, 0), vec![], None),
        ],
        workspace_members: vec![0, 1],
        resolve: Some(vec![
            ResolveNode { id: 0, dependencies: vec![1] },
            ResolveNode { id: 1, dependencies: vec![0] },
        ]),
    };
    assert_eq!(sort_workspace(&meta).unwrap(), vec![1, 0]);
}

#[test]
fn publish_order_needs_resolve() {
    let mut meta = chain();
    meta.resolve = None;
    assert_eq!(sort_workspace(&meta), Err(ReleaseError::UnresolvedDependencies));
}

#[test]
fn eligibility_filter_keeps_order_and_drops_private() {
    let mut ctx = ReleaseContext::new(config(Some(release_section())), true, false);
    ctx.metadata = Some(chain());
    assert_eq!(ctx.packages_to_publish().unwrap(), vec![0, 1, 2]);
    assert_eq!(ctx.ordered_packages_to_publish().unwrap(), vec![2, 1, 0]);
}

#[test]
fn empty_allow_set_never_published() {
    let mut meta = chain();
    meta.packages[1].publish = Some(vec![]);
    let mut ctx = ReleaseContext::new(config(Some(release_section())), true, false);
    ctx.metadata = Some(meta);
    assert_eq!(ctx.ordered_packages_to_publish().unwrap(), vec![2, 0]);
}

#[test]
fn metadata_required_before_use() {
    let ctx = ReleaseContext::new(config(None), true, false);
    assert_eq!(ctx.packages_to_publish(), Err(ReleaseError::MetadataNotQueried));
    assert_eq!(ctx.version(), Err(ReleaseError::VersionNotQueried));
    assert_eq!(ctx.current_commit(), Err(ReleaseError::CommitNotQueried));
    assert_eq!(ctx.github_release_tag(), Err(ReleaseError::TagNotCreated));
    assert!(matches!(ctx.release_config(), Err(ReleaseError::MissingSection(ConfigSection::Release))));
}

#[test]
fn workspace_names_in_package_order() {
    let mut ctx = ReleaseContext::new(config(None), true, false);
    ctx.metadata = Some(chain());
    assert_eq!(ctx.workspace_package_names().unwrap(), vec!["app", "mid", "base", "private"]);
}

#[test]
fn version_consistency_passes_and_fails() {
    let v = Version::new(1, 2, 0);
    let ctx = context_with(two_packages("=1.2.0"), v.duplicate());
    assert_eq!(VaidateVersion.check_version_consistency(&v, &ctx), Ok(()));
    let ctx = context_with(two_packages("=1.1.0"), v.duplicate());
    assert_eq!(
        VaidateVersion.check_version_consistency(&v, &ctx),
        Err(ReleaseError::VersionInconsistency(vec![1]))
    );
}

#[test]
fn version_consistency_flags_other_version() {
    let mut meta = two_packages("=1.2.0");
    meta.packages[0].version = Version::new(1, 1, 0);
    let v = Version::new(1, 2, 0);
    let ctx = context_with(meta, v.duplicate());
    assert_eq!(
        VaidateVersion.check_version_consistency(&v, &ctx),
        Err(ReleaseError::VersionInconsistency(vec![0]))
    );
}

#[test]
fn version_raise_check() {
    let prev = Version::new(1, 0, 0);
    let mut ctx = context_with(two_packages("=1.0.0"), Version::new(1, 0, 0));
    assert_eq!(
        VaidateVersion.check_version_raised(&Version::new(1, 0, 0), Some(prev.duplicate()), &mut ctx),
        Err(ReleaseError::VersionNotRaised)
    );
    assert!(ctx.prev_version.is_none());
    assert_eq!(
        VaidateVersion.check_version_raised(&Version::new(1, 1, 0), Some(prev.duplicate()), &mut ctx),
        Ok(())
    );
    assert_eq!(ctx.prev_version, Some(Some(prev)));
    let mut ctx = context_with(two_packages("=1.0.0"), Version::new(1, 0, 0));
    assert_eq!(VaidateVersion.check_version_raised(&Version::new(1, 1, 0), None, &mut ctx), Ok(()));
    assert_eq!(ctx.prev_version, Some(None));
}

#[test]
fn version_raise_check_lower_fails() {
    let mut ctx = context_with(two_packages("=1.0.0"), Version::new(1, 0, 0));
    assert_eq!(
        VaidateVersion.check_version_raised(&Version::new(0, 9, 9), Some(Version::new(1, 0, 0)), &mut ctx),
        Err(ReleaseError::VersionNotRaised)
    );
}

#[test]
fn version_raise_check_can_be_off() {
    let mut ctx = context_with(two_packages("=1.0.0"), Version::new(1, 0, 0));
    ctx.config.release.as_mut().unwrap().check_version_raised = false;
    assert_eq!(
        VaidateVersion.check_version_raised(&Version::new(1, 0, 0), Some(Version::new(2, 0, 0)), &mut ctx),
        Ok(())
    );
    assert!(ctx.prev_version.is_none());
}

#[test]
fn prerelease_is_below_release() {
    let mut ctx = context_with(two_packages("=1.0.0"), Version::new(1, 0, 0));
    let pre = Version { major: 1, minor: 0, patch: 0, pre: "alpha.1".to_string(), build: String::new() };
    assert_eq!(VaidateVersion.check_version_raised(&Version::new(1, 0, 0), Some(pre), &mut ctx), Ok(()));
}

#[test]
fn dev_dependency_check() {
    let mut meta = two_packages("=1.2.0");
    meta.packages[1].dependencies.push(dep("root", DependencyKind::Development, "^1.2.0"));
    let ctx = context_with(meta, Version::new(1, 2, 0));
    assert_eq!(
        VaidateVersion.check_dev_dependencies(&ctx),
        Err(ReleaseError::InvalidDevDependencies(vec![1]))
    );
    let mut meta = two_packages("=1.2.0");
    meta.packages[1].dependencies.push(dep("root", DependencyKind::Development, "*"));
    let ctx = context_with(meta, Version::new(1, 2, 0));
    assert_eq!(VaidateVersion.check_dev_dependencies(&ctx), Ok(()));
}

#[test]
fn dev_dependency_check_can_be_off() {
    let mut meta = two_packages("=1.2.0");
    meta.packages[1].dependencies.push(dep("root", DependencyKind::Development, "^1.2.0"));
    let mut ctx = context_with(meta, Version::new(1, 2, 0));
    ctx.config.release.as_mut().unwrap().allow_non_path_dev_dependencies = true;
    assert_eq!(VaidateVersion.check_dev_dependencies(&ctx), Ok(()));
}

#[test]
fn registry_consistency() {
    let mut meta = two_packages("=1.2.0");
    meta.packages[1].publish = Some(vec!["internal".to_string()]);
    let ctx = context_with(meta, Version::new(1, 2, 0));
    assert_eq!(
        VaidateVersion.check_registry_consistency(&ctx),
        Err(ReleaseError::RegistryInconsistency(vec![1]))
    );
    let mut meta = two_packages("=1.2.0");
    meta.packages[1].publish = Some(vec!["crates-io".to_string()]);
    let ctx = context_with(meta, Version::new(1, 2, 0));
    assert_eq!(VaidateVersion.check_registry_consistency(&ctx), Ok(()));
}

#[test]
fn validation_reports_every_check() {
    let mut meta = two_packages("=1.1.0");
    meta.packages[1].publish = Some(vec!["internal".to_string()]);
    let mut ctx = context_with(meta, Version::new(1, 2, 0));
    let r = VaidateVersion.execute(&mut ctx, Some(Version::new(1, 1, 0)));
    match r {
        Err(ReleaseError::ValidationFailed(report)) => {
            assert_eq!(report.registry, Err(ReleaseError::RegistryInconsistency(vec![1])));
            assert_eq!(report.version_raised, Ok(()));
            assert_eq!(report.dev_dependencies, Ok(()));
            assert_eq!(report.version_consistency, Err(ReleaseError::VersionInconsistency(vec![1])));
        }
        other => panic!("unexpected {:?}", other),
    }
    let mut ctx = context_with(two_packages("=1.2.0"), Version::new(1, 2, 0));
    assert_eq!(VaidateVersion.execute(&mut ctx, None), Ok(()));
}

#[test]
fn validation_same_in_dry_run() {
    let mut dry = context_with(two_packages("=1.1.0"), Version::new(1, 2, 0));
    dry.dry_run = true;
    let mut real = context_with(two_packages("=1.1.0"), Version::new(1, 2, 0));
    let a = VaidateVersion.execute(&mut dry, None);
    let b = VaidateVersion.execute(&mut real, None);
    assert_eq!(a, b);
    assert!(a.is_err());
}

#[test]
fn changelog_empty_section() {
    let text = "# Changelog\n<!-- begin -->\n<!-- end -->\nold\n";
    assert_eq!(extract_section(text, "begin", "end", false), Err(ReleaseError::ChangelogEmpty));
    assert_eq!(extract_section(text, "begin", "end", true), Ok(String::new()));
}

#[test]
fn changelog_end_before_begin() {
    let text = "end\nbegin\nx\n";
    assert_eq!(extract_section(text, "begin", "end", false), Err(ReleaseError::ChangelogEndBeforeBegin));
    assert_eq!(extract_section(text, "begin", "end", true), Err(ReleaseError::ChangelogEndBeforeBegin));
}

#[test]
fn changelog_section_lines() {
    let text = "## 1.2.0 begin\r\n- one\r\n- two\r\n## end\r\n- old\r\n";
    assert_eq!(extract_section(text, "begin", "## end", false), Ok("- one\n- two".to_string()));
}

#[test]
fn changelog_missing_markers() {
    assert_eq!(extract_section("a\nb\n", "x", "b", false), Err(ReleaseError::ChangelogBeginMissing));
    assert_eq!(extract_section("a\nb\n", "a", "y", false), Err(ReleaseError::ChangelogEndMissing));
    assert_eq!(extract_section("a\nb\n", "x", "y", false), Err(ReleaseError::ChangelogMarkersMissing));
}

#[test]
fn changelog_capture_whole_or_section() {
    let mut cfg = config(Some(release_section()));
    cfg.changelog = Some(Changelog {
        file: "CHANGELOG.md".to_string(),
        start_marker_template: None,
        end_marker_template: None,
        print_to_stdout: false,
        allow_empty_changelog: false,
    });
    let mut ctx = ReleaseContext::new(cfg, true, false);
    assert_eq!(CaptureChangelog.capture(&mut ctx, "all\ntext", None), Ok(()));
    assert_eq!(ctx.changelog.as_deref(), Some("all\ntext"));
    ctx.config.changelog.as_mut().unwrap().start_marker_template = Some("b".to_string());
    ctx.config.changelog.as_mut().unwrap().end_marker_template = Some("e".to_string());
    let markers = Some(("BEGIN".to_string(), "END".to_string()));
    assert_eq!(CaptureChangelog.capture(&mut ctx, "BEGIN\nmiddle\nEND", markers), Ok(()));
    assert_eq!(ctx.changelog.as_deref(), Some("middle"));
}

#[test]
fn config_validation() {
    assert_eq!(config(None).validate(), Ok(()));
    let mut c = config(Some(release_section()));
    c.release.as_mut().unwrap().registry = Some("custom".to_string());
    assert_eq!(c.validate(), Err(ReleaseError::VersionCheckWithCustomRegistry));
    let mut c = config(Some(release_section()));
    c.release.as_mut().unwrap().github = Some(github_release());
    assert_eq!(c.validate(), Err(ReleaseError::ReleaseGitHubWithoutRepo));
    c.github = Some(GitHub { repo: Repo::new("o", "r") });
    assert_eq!(c.validate(), Ok(()));
    c.release.as_mut().unwrap().github.as_mut().unwrap().release_page_upload_artifacts = true;
    assert_eq!(c.validate(), Err(ReleaseError::UploadWithoutArtifacts));
    c.artifacts = Some(Artifacts { directory: "dist".to_string(), check_not_empty: true });
    assert_eq!(c.validate(), Ok(()));
    c.release.as_mut().unwrap().github.as_mut().unwrap().create_tag = false;
    assert_eq!(c.validate(), Err(ReleaseError::ReleasePageWithoutTag));
    let mut c = config(None);
    c.changelog = Some(Changelog {
        file: "CHANGELOG.md".to_string(),
        start_marker_template: Some("a".to_string()),
        end_marker_template: None,
        print_to_stdout: false,
        allow_empty_changelog: false,
    });
    assert_eq!(c.validate(), Err(ReleaseError::IncompleteChangelogMarkers));
}

#[test]
fn defaults() {
    assert!(default_bool_true());
    assert_eq!(default_publish_interval_seconds(), 30);
}

#[test]
fn dry_run_steps_skip_real_publish() {
    let mut c = config(Some(release_section()));
    c.github = Some(GitHub { repo: Repo::new("o", "r") });
    c.release.as_mut().unwrap().github = Some(github_release());
    let dry = plan_steps(&c, true, false).unwrap();
    assert_eq!(
        dry,
        vec![
            Step::Init,
            Step::ValidateCommitPushedToGithub,
            Step::VaidateVersion,
            Step::CargoPublish(CargoPublish::validate_only()),
            Step::CreateTagOnGithub,
            Step::CreateGithubRelease,
        ]
    );
    let real = plan_steps(&c, false, false).unwrap();
    assert_eq!(real.len(), dry.len() + 1);
    assert_eq!(real[4], Step::CargoPublish(CargoPublish::new()));
    assert_eq!(plan_steps(&c, false, true).unwrap(), dry);
    assert!(matches!(plan_steps(&config(None), true, false), Err(ReleaseError::MissingSection(_))));
}

#[test]
fn executor_builds_steps() {
    let cmd = Command { confirm: false, nopublish: false };
    let mut exec: ReleaseExecutor = cmd.executor(config(Some(release_section())));
    assert!(exec.context.is_dry_run());
    exec.build_steps().unwrap();
    assert_eq!(exec.steps, vec![Step::Init, Step::VaidateVersion, Step::CargoPublish(CargoPublish::validate_only())]);
}

#[test]
fn publish_refused_in_dry_run() {
    let ctx = ReleaseContext::new(config(None), true, false);
    assert_eq!(CargoPublish::new().check_mode(&ctx), Err(ReleaseError::PublishInDryRun));
    assert_eq!(CargoPublish::validate_only().check_mode(&ctx), Ok(()));
}

#[test]
fn publish_plans() {
    let mut meta = chain();
    meta.packages[1].targets.push(Target { name: "tool".to_string(), kind: vec!["bin".to_string()] });
    let mut ctx = ReleaseContext::new(config(Some(release_section())), true, false);
    ctx.metadata = Some(meta);
    let plan = CargoPublish::new().plan(&ctx).unwrap();
    assert_eq!(plan.order, vec![2, 1, 0]);
    assert_eq!(
        plan.actions,
        vec![PublishAction::Validate(2), PublishAction::SkipBinary(1), PublishAction::Validate(0)]
    );
    ctx.dry_run = false;
    let plan = CargoPublish::new().plan(&ctx).unwrap();
    assert_eq!(
        plan.actions,
        vec![
            PublishAction::Publish(2),
            PublishAction::Wait(30),
            PublishAction::Publish(1),
            PublishAction::Wait(30),
            PublishAction::Publish(0),
        ]
    );
    let plan = CargoPublish::validate_only().plan(&ctx).unwrap();
    assert!(plan.actions.iter().all(|a| !matches!(a, PublishAction::Publish(_))));
}

#[test]
fn publish_command_arguments() {
    assert_eq!(
        publish_args("a/Cargo.toml", &None, true),
        vec!["publish", "--manifest-path", "a/Cargo.toml", "--dry-run", "--no-verify"]
    );
    assert_eq!(
        publish_args("a/Cargo.toml", &Some("mine".to_string()), false),
        vec!["publish", "--manifest-path", "a/Cargo.toml", "--registry", "mine"]
    );
}

#[test]
fn tag_and_release_skipped_in_dry_run() {
    let mut c = config(Some(release_section()));
    c.github = Some(GitHub { repo: Repo::new("o", "r") });
    c.release.as_mut().unwrap().github = Some(github_release());
    let mut ctx = ReleaseContext::new(c, true, false);
    ctx.current_commit = Some("0123456789abcdef".to_string());
    assert!(CreateTagOnGithub.prepare(&mut ctx, "v1.0.0".to_string()).unwrap().is_none());
    assert_eq!(ctx.github_release_tag(), Ok("v1.0.0".to_string()));
    assert!(CreateGithubRelease.prepare(&ctx, "t".to_string(), "b".to_string()).unwrap().is_none());
    ctx.dry_run = false;
    let tag = CreateTagOnGithub.prepare(&mut ctx, "v1.0.0".to_string()).unwrap().unwrap();
    assert_eq!(tag.commit, "0123456789abcdef");
    assert_eq!(tag.owner, "o");
    let rel = CreateGithubRelease.prepare(&ctx, "t".to_string(), "b".to_string()).unwrap().unwrap();
    assert_eq!(rel.tag, "v1.0.0");
    assert_eq!(rel.title, "t");
    assert!(rel.uploads.is_empty());
}

#[test]
fn artifacts_collected() {
    let mut c = config(None);
    c.artifacts = Some(Artifacts { directory: "dist".to_string(), check_not_empty: true });
    let mut ctx = ReleaseContext::new(c, true, false);
    assert_eq!(CollectArtifacts.collect(&mut ctx, vec![]), Err(ReleaseError::ArtifactsEmpty));
    let entries = vec![
        ArtifactEntry { path: "dist/a.tar.gz".to_string(), is_file: true },
        ArtifactEntry { path: "dist/sub".to_string(), is_file: false },
    ];
    assert_eq!(CollectArtifacts.collect(&mut ctx, entries), Ok(()));
    assert_eq!(ctx.artifacts, Some(vec!["dist/a.tar.gz".to_string()]));
}

#[test]
fn root_version_taken_from_metadata() {
    let mut ctx = ReleaseContext::new(config(None), true, false);
    assert_eq!(Init.process_metadata(&mut ctx, two_packages("=1.2.0")), Ok(()));
    assert_eq!(ctx.version(), Ok(Version::new(1, 2, 0)));
    let mut ctx = ReleaseContext::new(config(None), true, false);
    ctx.config.workspace.root_crate = "missing".to_string();
    assert_eq!(Init.process_metadata(&mut ctx, two_packages("=1.2.0")), Err(ReleaseError::RootPackageNotFound));
}

#[test]
fn registry_token_variables() {
    assert_eq!(registry_token_var(&None), "CARGO_REGISTRY_TOKEN");
    assert_eq!(registry_token_var(&Some("my-registry".to_string())), "CARGO_REGISTRIES_MY_REGISTRY_TOKEN");
}

#[test]
fn published_version_from_listing() {
    let listing = "rootx = \"9.9.9\"    # other\nroot = \"1.0.3\"    # The root crate\n... and 2 crates more\n";
    assert_eq!(find_published_version(listing, "root"), Ok(Some(Version::new(1, 0, 3))));
    assert_eq!(find_published_version(listing, "absent"), Ok(None));
    assert_eq!(find_published_version("root = \"x.y\"\n", "root"), Err(ReleaseError::InvalidVersion));
}

#[test]
fn short_commit() {
    assert_eq!(shorten_commit("0123456789abcdef"), "0123456");
}

#[test]
fn template_context_values() {
    let mut ctx = ReleaseContext::new(config(None), true, false);
    assert_eq!(ctx.text_template_context().err(), Some(ReleaseError::VersionNotQueried));
    ctx.version = Some(Version::new(1, 1, 1));
    ctx.changelog = Some("notes".to_string());
    let t = ctx.text_template_context().unwrap();
    assert_eq!(t.root_crate, "root");
    assert_eq!(t.version, Version::new(1, 1, 1));
    assert_eq!(t.changelog.as_deref(), Some("notes"));
}

#[test]
fn publish_order_follows_member_listing() {
    let meta = Metadata {
        packages: vec![
            package("a", Version::new(1, 0, 0), vec![], None),
            package("b", Version::new(1, 0, 0), vec![], None),
            package("c", Version::new(1, 0, 0), vec![], None),
        ],
        workspace_members: vec![1, 0, 2],
        resolve: Some(vec![
            ResolveNode { id: 2, dependencies: vec![0] },
            ResolveNode { id: 0, dependencies: vec![] },
            ResolveNode { id: 1, dependencies: vec![] },
        ]),
    };
    assert_eq!(sort_workspace(&meta).unwrap(), vec![1, 0, 2]);
}
