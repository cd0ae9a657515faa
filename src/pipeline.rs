use vstd::prelude::*;
use vstd::string::*;
use crate::config::Config;
use crate::context::{is_publish_order, ReleaseContext};
use crate::error::{ConfigSection, ReleaseError};
use crate::metadata::{Metadata, Package};

verus! {

/// Initialization: tokens, current commit, workspace metadata.
#[derive(Clone, Copy, Debug, PartialEq, Eq, Structural)]
pub struct Init;

/// Collection of the release artifacts.
#[derive(Clone, Copy, Debug, PartialEq, Eq, Structural)]
pub struct CollectArtifacts;

/// Check that the current commit is known to GitHub.
#[derive(Clone, Copy, Debug, PartialEq, Eq, Structural)]
pub struct ValidateCommitPushedToGithub;

/// Creation of the release tag.
#[derive(Clone, Copy, Debug, PartialEq, Eq, Structural)]
pub struct CreateTagOnGithub;

/// Creation of the GitHub release page.
#[derive(Clone, Copy, Debug, PartialEq, Eq, Structural)]
pub struct CreateGithubRelease;

/// Publishing to the registry; with `validate`, a dry-run publish only.
#[derive(Clone, Copy, Debug, PartialEq, Eq, Structural)]
pub struct CargoPublish {
    pub validate: bool,
}

/// One step of the release pipeline.
#[derive(Clone, Copy, Debug, PartialEq, Eq, Structural)]
pub enum Step {
    Init,
    CollectArtifacts,
    CaptureChangelog,
    ValidateCommitPushedToGithub,
    VaidateVersion,
    CargoPublish(CargoPublish),
    CreateTagOnGithub,
    CreateGithubRelease,
}

/// `s` when `cond` holds, else nothing.
pub open spec fn step_if(cond: bool, s: Step) -> Seq<Step> {
    if cond {
        seq![s]
    } else {
        Seq::empty()
    }
}

/// The steps of a release, in order, or the error that stops their assembly.
pub open spec fn planned_steps(config: Config, dry_run: bool, nopublish: bool) -> Result<
    Seq<Step>,
    ReleaseError,
> {
    match config.release {
        None => Err(ReleaseError::MissingSection(ConfigSection::Release)),
        Some(release) => {
            let check_pushed = release.github matches Some(g) && g.check_commit_pushed;
            let tag = release.github matches Some(g) && g.create_tag;
            let page = release.github matches Some(g) && g.create_release_page;
            Ok(
                seq![Step::Init] + step_if(config.artifacts is Some, Step::CollectArtifacts)
                    + step_if(config.changelog is Some, Step::CaptureChangelog) + step_if(
                    check_pushed,
                    Step::ValidateCommitPushedToGithub,
                ) + seq![Step::VaidateVersion, Step::CargoPublish(CargoPublish { validate: true })]
                    + step_if(
                    !(dry_run || nopublish),
                    Step::CargoPublish(CargoPublish { validate: false }),
                ) + step_if(tag, Step::CreateTagOnGithub) + step_if(page, Step::CreateGithubRelease),
            )
        },
    }
}

/// The release command's flags.
pub struct Command {
    /// Actually release instead of a dry run.
    pub confirm: bool,
    /// Do not publish packages to the registry.
    pub nopublish: bool,
}

/// Runs the steps of a release against one shared state.
pub struct ReleaseExecutor {
    pub context: ReleaseContext,
    pub steps: Vec<Step>,
}

impl Command {
    /// The executor for this command: a dry run unless confirmed.
    pub fn executor(&self, config: Config) -> (r: ReleaseExecutor)
        ensures
            r.context.dry_run == !self.confirm,
            r.context.nopublish == self.nopublish,
            r.context.config == config,
            r.context.metadata is None,
            r.steps@.len() == 0,
    {
        ReleaseExecutor::new(config, !self.confirm, self.nopublish)
    }
}

impl ReleaseExecutor {
    pub fn new(config: Config, dry_run: bool, nopublish: bool) -> (r: ReleaseExecutor)
        ensures
            r.context.dry_run == dry_run,
            r.context.nopublish == nopublish,
            r.context.config == config,
            r.context.metadata is None,
            r.context.version is None,
            r.steps@.len() == 0,
    {
        ReleaseExecutor { context: ReleaseContext::new(config, dry_run, nopublish), steps: Vec::new() }
    }

    fn add_step(&mut self, step: Step)
        ensures
            final(self).steps@ == old(self).steps@.push(step),
            final(self).context == old(self).context,
    {
        self.steps.push(step);
    }

    /// Assembles the steps from the configuration and the mode flags.
    pub fn build_steps(&mut self) -> (r: Result<(), ReleaseError>)
        ensures
            final(self).context == old(self).context,
            match planned_steps(old(self).context.config, old(self).context.dry_run, old(self).context.nopublish) {
                Ok(steps) => r is Ok && final(self).steps@ == old(self).steps@ + steps,
                Err(e) => r == Err::<(), ReleaseError>(e),
            },
    {
        let steps = plan_steps(&self.context.config, self.context.is_dry_run(), self.context.is_nopublish())?;
        let ghost s0 = self.steps@;
        let mut i: usize = 0;
        while i < steps.len()
            invariant
                i <= steps@.len(),
                self.context == old(self).context,
                self.steps@ == s0 + steps@.subrange(0, i as int),
            decreases steps.len() - i,
        {
            self.add_step(steps[i]);
            assert(steps@.subrange(0, i + 1) =~= steps@.subrange(0, i as int).push(steps@[i as int]));
            i = i + 1;
        }
        assert(steps@.subrange(0, steps@.len() as int) =~= steps@);
        Ok(())
    }
}

/// Appends `s` when `cond` holds.
fn push_if(v: &mut Vec<Step>, cond: bool, s: Step)
    ensures
        final(v)@ == old(v)@ + step_if(cond, s),
{
    if cond {
        v.push(s);
    }
    assert(final(v)@ =~= old(v)@ + step_if(cond, s)) by {
        if !cond {
            assert(old(v)@ + step_if(cond, s) =~= old(v)@);
        }
    }
}

/// The steps of a release, in order.
pub fn plan_steps(config: &Config, dry_run: bool, nopublish: bool) -> (r: Result<Vec<Step>, ReleaseError>)
    ensures
        match planned_steps(*config, dry_run, nopublish) {
            Ok(steps) => r matches Ok(v) && v@ == steps,
            Err(e) => r == Err::<Vec<Step>, ReleaseError>(e),
        },
{
    let release = match &config.release {
        Some(release) => release,
        None => return Err(ReleaseError::MissingSection(ConfigSection::Release)),
    };
    let (check_pushed, tag, page) = match &release.github {
        Some(g) => (g.check_commit_pushed, g.create_tag, g.create_release_page),
        None => (false, false, false),
    };
    let mut steps: Vec<Step> = Vec::new();
    steps.push(Step::Init);
    push_if(&mut steps, config.artifacts.is_some(), Step::CollectArtifacts);
    push_if(&mut steps, config.changelog.is_some(), Step::CaptureChangelog);
    push_if(&mut steps, check_pushed, Step::ValidateCommitPushedToGithub);
    steps.push(Step::VaidateVersion);
    steps.push(Step::CargoPublish(CargoPublish::validate_only()));
    push_if(&mut steps, !(dry_run || nopublish), Step::CargoPublish(CargoPublish::new()));
    push_if(&mut steps, tag, Step::CreateTagOnGithub);
    push_if(&mut steps, page, Step::CreateGithubRelease);
    proof {
        let rel = config.release->Some_0;
        assert(check_pushed == (rel.github matches Some(g) && g.check_commit_pushed));
        assert(tag == (rel.github matches Some(g) && g.create_tag));
        assert(page == (rel.github matches Some(g) && g.create_release_page));
        assert(steps@ =~= planned_steps(*config, dry_run, nopublish)->Ok_0);
    }
    Ok(steps)
}

impl CargoPublish {
    pub fn new() -> (r: CargoPublish)
        ensures
            !r.validate,
    {
        CargoPublish { validate: false }
    }

    pub fn validate_only() -> (r: CargoPublish)
        ensures
            r.validate,
    {
        CargoPublish { validate: true }
    }

    /// A real publish is refused in dry-run mode.
    pub fn check_mode(&self, ctx: &ReleaseContext) -> (r: Result<(), ReleaseError>)
        ensures
            r is Err <==> ctx.dry_run && !self.validate,
            r is Err ==> r == Err::<(), ReleaseError>(ReleaseError::PublishInDryRun),
    {
        if ctx.is_dry_run() && !self.validate {
            return Err(ReleaseError::PublishInDryRun);
        }
        Ok(())
    }
}

/// Not the real publish step.
pub open spec fn not_real_publish(s: Step) -> bool {
    s != Step::CargoPublish(CargoPublish { validate: false })
}

proof fn lemma_filter_one(s: Step)
    ensures
        seq![s].filter(|x: Step| not_real_publish(x)) == if not_real_publish(s) {
            seq![s]
        } else {
            Seq::<Step>::empty()
        },
{
    reveal_with_fuel(Seq::filter, 2);
    assert(seq![s].drop_last() =~= Seq::<Step>::empty());
}

proof fn lemma_filter_step_if(c: bool, s: Step)
    ensures
        step_if(c, s).filter(|x: Step| not_real_publish(x)) == if c && not_real_publish(s) {
            seq![s]
        } else {
            Seq::<Step>::empty()
        },
{
    reveal_with_fuel(Seq::filter, 2);
    if c {
        lemma_filter_one(s);
    }
}

/// A dry run plans no real publish and otherwise the very steps of a
/// confirmed run: validation and every other step stay in.
pub proof fn lemma_dry_run_steps(config: Config, nopublish: bool)
    ensures
        planned_steps(config, true, nopublish) is Ok == planned_steps(config, false, nopublish) is Ok,
        planned_steps(config, true, nopublish) matches Ok(dry) ==> {
            &&& dry.filter(|x: Step| not_real_publish(x)) == dry
            &&& planned_steps(config, false, nopublish)->Ok_0.filter(|x: Step| not_real_publish(x))
                == dry
            &&& dry.contains(Step::VaidateVersion)
        },
{
    broadcast use Seq::filter_distributes_over_add;

    if let Some(release) = config.release {
        let check_pushed = release.github matches Some(g) && g.check_commit_pushed;
        let tag = release.github matches Some(g) && g.create_tag;
        let page = release.github matches Some(g) && g.create_release_page;
        let p = |x: Step| not_real_publish(x);
        let a = step_if(config.artifacts is Some, Step::CollectArtifacts);
        let c = step_if(config.changelog is Some, Step::CaptureChangelog);
        let v = step_if(check_pushed, Step::ValidateCommitPushedToGithub);
        let mid = seq![Step::VaidateVersion, Step::CargoPublish(CargoPublish { validate: true })];
        let t = step_if(tag, Step::CreateTagOnGithub);
        let g = step_if(page, Step::CreateGithubRelease);
        let publish = step_if(!nopublish, Step::CargoPublish(CargoPublish { validate: false }));
        let none = step_if(false, Step::CargoPublish(CargoPublish { validate: false }));
        lemma_filter_one(Step::Init);
        lemma_filter_step_if(config.artifacts is Some, Step::CollectArtifacts);
        lemma_filter_step_if(config.changelog is Some, Step::CaptureChangelog);
        lemma_filter_step_if(check_pushed, Step::ValidateCommitPushedToGithub);
        lemma_filter_step_if(tag, Step::CreateTagOnGithub);
        lemma_filter_step_if(page, Step::CreateGithubRelease);
        lemma_filter_step_if(!nopublish, Step::CargoPublish(CargoPublish { validate: false }));
        lemma_filter_step_if(false, Step::CargoPublish(CargoPublish { validate: false }));
        assert(mid == seq![Step::VaidateVersion] + seq![Step::CargoPublish(CargoPublish { validate: true })]);
        lemma_filter_one(Step::VaidateVersion);
        lemma_filter_one(Step::CargoPublish(CargoPublish { validate: true }));
        assert(mid.filter(p) == mid);
        let dry = seq![Step::Init] + a + c + v + mid + none + t + g;
        let conf = seq![Step::Init] + a + c + v + mid + publish + t + g;
        assert(planned_steps(config, true, nopublish)->Ok_0 == dry);
        assert(planned_steps(config, false, nopublish)->Ok_0 == conf);
        assert(dry.filter(p) == dry);
        assert(conf.filter(p) == dry);
        assert(dry[1 + a.len() as int + c.len() as int + v.len() as int] == Step::VaidateVersion);
    }
}

/// One action of the publish driver.
#[derive(Clone, Copy, Debug, PartialEq, Eq, Structural)]
pub enum PublishAction {
    /// Dry-run publish of the package.
    Validate(usize),
    /// The package builds a binary and is not dry-run published.
    SkipBinary(usize),
    /// Wait this many seconds.
    Wait(usize),
    /// Publish the package.
    Publish(usize),
}

/// Some target of the package is of kind `bin`.
pub open spec fn has_bin_target(pkg: Package) -> bool {
    exists|t: int, k: int|
        0 <= t < pkg.targets@.len() && 0 <= k < pkg.targets@[t].kind@.len()
            && #[trigger] pkg.targets@[t].kind@[k]@ == "bin"@
}

/// Validation run: each package in order is dry-run published, binaries
/// skipped.
pub open spec fn dry_actions(meta: Metadata, order: Seq<usize>) -> Seq<PublishAction> {
    order.map_values(
        |p: usize|
            if has_bin_target(meta.packages@[p as int]) {
                PublishAction::SkipBinary(p)
            } else {
                PublishAction::Validate(p)
            },
    )
}

/// Real run: each package in order is published, with a wait of `interval`
/// seconds before every publish but the first.
pub open spec fn real_actions(order: Seq<usize>, interval: usize) -> Seq<PublishAction>
    decreases order.len(),
{
    if order.len() == 0 {
        Seq::empty()
    } else if order.len() == 1 {
        seq![PublishAction::Publish(order[0])]
    } else {
        real_actions(order.drop_last(), interval) + seq![
            PublishAction::Wait(interval),
            PublishAction::Publish(order.last()),
        ]
    }
}

pub open spec fn publish_actions(meta: Metadata, order: Seq<usize>, dry: bool, interval: usize) -> Seq<
    PublishAction,
> {
    if dry {
        dry_actions(meta, order)
    } else {
        real_actions(order, interval)
    }
}

/// What the publish step will do, and in which package order.
pub struct PublishPlan {
    pub order: Vec<usize>,
    pub actions: Vec<PublishAction>,
}

/// Whether some target of package `p` is of kind `bin`.
fn builds_binary(pkg: &Package) -> (r: bool)
    ensures
        r == has_bin_target(*pkg),
{
    let bin = String::from_str("bin");
    proof {
        reveal_strlit("bin");
    }
    let mut t: usize = 0;
    while t < pkg.targets.len()
        invariant
            t <= pkg.targets@.len(),
            bin@ == "bin"@,
            forall|a: int, k: int|
                0 <= a < t && 0 <= k < pkg.targets@[a].kind@.len() ==> #[trigger] pkg.targets@[a].kind@[k]@
                    != "bin"@,
        decreases pkg.targets.len() - t,
    {
        let kinds = &pkg.targets[t].kind;
        let mut k: usize = 0;
        while k < kinds.len()
            invariant
                k <= kinds@.len(),
                t < pkg.targets@.len(),
                kinds@ == pkg.targets@[t as int].kind@,
                bin@ == "bin"@,
                forall|j: int| 0 <= j < k ==> #[trigger] kinds@[j]@ != "bin"@,
            decreases kinds.len() - k,
        {
            if kinds[k] == bin {
                assert(pkg.targets@[t as int].kind@[k as int]@ == "bin"@);
                return true;
            }
            k = k + 1;
        }
        t = t + 1;
    }
    false
}

/// The actions that publish `order`: dry-run publishes when `dry`, else
/// publishes spaced by `interval` seconds.
pub fn publish_plan(meta: &Metadata, order: &Vec<usize>, dry: bool, interval: usize) -> (r: Vec<
    PublishAction,
>)
    requires
        forall|i: int| 0 <= i < order@.len() ==> #[trigger] order@[i] < meta.packages@.len(),
    ensures
        r@ == publish_actions(*meta, order@, dry, interval),
{
    let mut r: Vec<PublishAction> = Vec::new();
    let mut i: usize = 0;
    while i < order.len()
        invariant
            i <= order@.len(),
            forall|j: int| 0 <= j < order@.len() ==> #[trigger] order@[j] < meta.packages@.len(),
            r@ == publish_actions(*meta, order@.subrange(0, i as int), dry, interval),
        decreases order.len() - i,
    {
        let p = order[i];
        let ghost pre = order@.subrange(0, i as int);
        let ghost post = order@.subrange(0, i + 1);
        assert(post.drop_last() =~= pre);
        if dry {
            if builds_binary(&meta.packages[p]) {
                r.push(PublishAction::SkipBinary(p));
            } else {
                r.push(PublishAction::Validate(p));
            }
            assert(r@ =~= dry_actions(*meta, post));
        } else {
            if i > 0 {
                r.push(PublishAction::Wait(interval));
            }
            r.push(PublishAction::Publish(p));
            assert(r@ =~= real_actions(post, interval));
        }
        i = i + 1;
    }
    assert(order@.subrange(0, order@.len() as int) =~= order@);
    r
}

/// No validation run publishes for real.
pub proof fn lemma_dry_plan_publishes_nothing(meta: Metadata, order: Seq<usize>, interval: usize)
    ensures
        forall|k: int|
            0 <= k < publish_actions(meta, order, true, interval).len() ==> !(#[trigger] publish_actions(
                meta,
                order,
                true,
                interval,
            )[k] is Publish),
{
}

impl CargoPublish {
    /// The publish plan: the publish candidates in dependency order, dry-run
    /// published in dry-run mode or when validating, else published with the
    /// configured interval between publishes.
    pub fn plan(&self, ctx: &ReleaseContext) -> (r: Result<PublishPlan, ReleaseError>)
        requires
            ctx.wf(),
        ensures
            ctx.metadata is None ==> r == Err::<PublishPlan, ReleaseError>(
                ReleaseError::MetadataNotQueried,
            ),
            ctx.metadata matches Some(meta) ==> {
                &&& meta.resolve is None ==> r == Err::<PublishPlan, ReleaseError>(
                    ReleaseError::UnresolvedDependencies,
                )
                &&& meta.resolve is Some && ctx.config.release is None ==> r == Err::<
                    PublishPlan,
                    ReleaseError,
                >(ReleaseError::MissingSection(ConfigSection::Release))
                &&& (meta.resolve is Some && ctx.config.release is Some) ==> (r matches Ok(
                    plan,
                ) && is_publish_order(meta, plan.order@) && plan.actions@ == publish_actions(
                    meta,
                    plan.order@,
                    ctx.dry_run || self.validate,
                    ctx.config.release->Some_0.publish_interval_seconds,
                ))
            },
            r is Ok && (ctx.dry_run || self.validate) ==> forall|k: int|
                0 <= k < r->Ok_0.actions@.len() ==> !(#[trigger] r->Ok_0.actions@[k] is Publish),
    {
        let dry = ctx.is_dry_run() || self.validate;
        let order = ctx.ordered_packages_to_publish()?;
        let release = ctx.release_config()?;
        let meta = ctx.cargo_metadata()?;
        let actions = publish_plan(meta, &order, dry, release.publish_interval_seconds);
        proof {
            lemma_dry_plan_publishes_nothing(*meta, order@, release.publish_interval_seconds);
        }
        Ok(PublishPlan { order, actions })
    }
}

/// Arguments of the registry publish command for one manifest.
pub fn publish_args(manifest_path: &str, registry: &Option<String>, dry_run: bool) -> (r: Vec<String>)
    ensures
        r@.map_values(|s: String| s@) == seq!["publish"@, "--manifest-path"@, manifest_path@] + (
        match registry {
            Some(name) => seq!["--registry"@, name@],
            None => Seq::empty(),
        }) + (if dry_run {
            seq!["--dry-run"@, "--no-verify"@]
        } else {
            Seq::empty()
        }),
{
    let mut args: Vec<String> = Vec::new();
    args.push(String::from_str("publish"));
    args.push(String::from_str("--manifest-path"));
    args.push(String::from_str(manifest_path));
    let ghost a0 = args@.map_values(|s: String| s@);
    if let Some(name) = registry {
        args.push(String::from_str("--registry"));
        args.push(name.clone());
    }
    let ghost a1 = args@.map_values(|s: String| s@);
    if dry_run {
        args.push(String::from_str("--dry-run"));
        args.push(String::from_str("--no-verify"));
    }
    proof {
        let v = args@.map_values(|s: String| s@);
        let expected = seq!["publish"@, "--manifest-path"@, manifest_path@] + (match registry {
            Some(name) => seq!["--registry"@, name@],
            None => Seq::empty(),
        }) + (if dry_run {
            seq!["--dry-run"@, "--no-verify"@]
        } else {
            Seq::empty()
        });
        assert(v =~= expected);
    }
    args
}

} // verus!
