//! Integration test helpers: fixtures that set up and tear down a database
//! around a test, hooks around a test body, and seed lists.
//!
//! The setup, teardown, hooks and bodies are asynchronous and run by the
//! caller; this module decides what runs next and what the run returns.
use crate::mock::names_view;
use vstd::prelude::*;

verus! {

broadcast use vstd::string::group_string_axioms;

/// Integration test errors.
#[derive(Debug)]
pub enum IntegrationTestError {
    SetupFailed(String),
    TeardownFailed(String),
    Database(String),
}

/// Test fixture: a database helper and whether to tear down after a test.
pub struct TestFixture<T> {
    db_helper: std::sync::Arc<T>,
    auto_cleanup: bool,
}

/// Where a fixture's run stands.
#[derive(Debug)]
pub enum FixtureRun {
    /// Setup was started.
    SettingUp,
    /// The test body was started.
    Testing,
    /// Teardown was started; the test body returned this.
    TearingDown(Result<(), IntegrationTestError>),
    /// The run is over.
    Done,
}

/// What the driver of a fixture's run does next.
#[derive(Debug)]
pub enum FixtureStep {
    /// Run the helper's setup.
    RunSetup,
    /// Run the test body.
    RunTest,
    /// Run the helper's teardown.
    RunTeardown,
    /// Warn that teardown failed with this error, then return the result.
    WarnAndFinish(IntegrationTestError, Result<(), IntegrationTestError>),
    /// Return the result.
    Finish(Result<(), IntegrationTestError>),
}

/// The transition of a fixture's run on the outcome of what it last started.
pub open spec fn fixture_transition(
    auto_cleanup: bool,
    state: FixtureRun,
    outcome: Result<(), IntegrationTestError>,
) -> (FixtureRun, FixtureStep) {
    match state {
        FixtureRun::SettingUp => match outcome {
            Err(e) => (FixtureRun::Done, FixtureStep::Finish(Err(e))),
            Ok(()) => (FixtureRun::Testing, FixtureStep::RunTest),
        },
        FixtureRun::Testing => if auto_cleanup {
            (FixtureRun::TearingDown(outcome), FixtureStep::RunTeardown)
        } else {
            (FixtureRun::Done, FixtureStep::Finish(outcome))
        },
        FixtureRun::TearingDown(result) => match outcome {
            Err(e) => (FixtureRun::Done, FixtureStep::WarnAndFinish(e, result)),
            Ok(()) => (FixtureRun::Done, FixtureStep::Finish(result)),
        },
        FixtureRun::Done => (FixtureRun::Done, FixtureStep::Finish(outcome)),
    }
}

impl<T> TestFixture<T> {
    pub closed spec fn helper(&self) -> std::sync::Arc<T> {
        self.db_helper
    }

    pub closed spec fn cleans_up(&self) -> bool {
        self.auto_cleanup
    }

    /// A fixture around `db_helper` that tears down after each test.
    pub fn new(db_helper: std::sync::Arc<T>) -> (f: Self)
        ensures
            f.helper() == db_helper,
            f.cleans_up(),
    {
        TestFixture { db_helper, auto_cleanup: true }
    }

    /// Disable automatic cleanup.
    pub fn without_auto_cleanup(self) -> (f: Self)
        ensures
            f.helper() == self.helper(),
            !f.cleans_up(),
    {
        TestFixture { db_helper: self.db_helper, auto_cleanup: false }
    }

    /// The database helper.
    pub fn db_helper(&self) -> (h: &std::sync::Arc<T>)
        ensures
            *h == self.helper(),
    {
        &self.db_helper
    }

    /// Whether teardown runs after each test.
    pub fn auto_cleanup(&self) -> (b: bool)
        ensures
            b == self.cleans_up(),
    {
        self.auto_cleanup
    }

    /// Begin a run: set up first.
    pub fn start_run(&self) -> (r: (FixtureRun, FixtureStep))
        ensures
            r.0 is SettingUp,
            r.1 is RunSetup,
    {
        (FixtureRun::SettingUp, FixtureStep::RunSetup)
    }

    /// Advance a run on the outcome of the step last started: a failed setup
    /// ends the run with its error; after the test, teardown runs when
    /// cleanup is on, and the run returns the test's result whatever the
    /// teardown gave (a failed teardown is only warned about).
    pub fn advance_run(&self, state: FixtureRun, outcome: Result<(), IntegrationTestError>) -> (r: (
        FixtureRun,
        FixtureStep,
    ))
        requires
            !(state is Done),
        ensures
            r == fixture_transition(self.cleans_up(), state, outcome),
    {
        match state {
            FixtureRun::SettingUp => match outcome {
                Err(e) => (FixtureRun::Done, FixtureStep::Finish(Err(e))),
                Ok(()) => (FixtureRun::Testing, FixtureStep::RunTest),
            },
            FixtureRun::Testing => if self.auto_cleanup {
                (FixtureRun::TearingDown(outcome), FixtureStep::RunTeardown)
            } else {
                (FixtureRun::Done, FixtureStep::Finish(outcome))
            },
            FixtureRun::TearingDown(result) => match outcome {
                Err(e) => (FixtureRun::Done, FixtureStep::WarnAndFinish(e, result)),
                Ok(()) => (FixtureRun::Done, FixtureStep::Finish(result)),
            },
            FixtureRun::Done => (FixtureRun::Done, FixtureStep::Finish(outcome)),
        }
    }
}

/// Law: once setup succeeded, a fixture's run returns exactly what the test
/// body returned, and teardown runs exactly when cleanup is on, whatever it
/// gives back.
pub proof fn lemma_run_returns_test_result(
    auto_cleanup: bool,
    test_result: Result<(), IntegrationTestError>,
    teardown_result: Result<(), IntegrationTestError>,
)
    ensures
        ({
            let after_setup = fixture_transition(auto_cleanup, FixtureRun::SettingUp, Ok(()));
            let after_test = fixture_transition(auto_cleanup, after_setup.0, test_result);
            let after_teardown = fixture_transition(auto_cleanup, after_test.0, teardown_result);
            &&& after_setup.1 is RunTest
            &&& (after_test.1 is RunTeardown) == auto_cleanup
            &&& !auto_cleanup ==> after_test.1 == FixtureStep::Finish(test_result)
            &&& auto_cleanup ==> match teardown_result {
                Ok(()) => after_teardown.1 == FixtureStep::Finish(test_result),
                Err(e) => after_teardown.1 == FixtureStep::WarnAndFinish(e, test_result),
            }
        }),
{
}

/// Law: a failed setup ends the run with the setup's error; neither the test
/// body nor teardown runs.
pub proof fn lemma_failed_setup_skips_test(auto_cleanup: bool, e: IntegrationTestError)
    ensures
        fixture_transition(auto_cleanup, FixtureRun::SettingUp, Err(e)) == (
            FixtureRun::Done,
            FixtureStep::Finish(Err(e)),
        ),
{
}

/// One step of a hooked test run.
#[derive(Debug, Clone, Copy, PartialEq, Eq, Structural)]
pub enum HookStep {
    /// Await the `i`-th `before_each` hook.
    Before(usize),
    /// Await the test body.
    Body,
    /// Await the `i`-th `after_each` hook.
    After(usize),
}

/// `Before(0) .. Before(n - 1)`.
pub open spec fn before_steps(n: nat) -> Seq<HookStep> {
    Seq::new(n, |i: int| HookStep::Before(i as usize))
}

/// `After(0) .. After(m - 1)`.
pub open spec fn after_steps(m: nat) -> Seq<HookStep> {
    Seq::new(m, |i: int| HookStep::After(i as usize))
}

/// Integration test builder: a name and hooks to await around a test body.
pub struct IntegrationTestBuilder<H> {
    name: String,
    before_each: Vec<H>,
    after_each: Vec<H>,
}

impl<H> IntegrationTestBuilder<H> {
    pub closed spec fn name(&self) -> Seq<char> {
        self.name@
    }

    /// The `before_each` hooks, in registration order.
    pub closed spec fn befores(&self) -> Seq<H> {
        self.before_each@
    }

    /// The `after_each` hooks, in registration order.
    pub closed spec fn afters(&self) -> Seq<H> {
        self.after_each@
    }

    /// A builder called `name`, without hooks.
    pub fn new(name: &str) -> (b: Self)
        ensures
            b.name() == name@,
            b.befores() == Seq::<H>::empty(),
            b.afters() == Seq::<H>::empty(),
    {
        IntegrationTestBuilder { name: name.to_string(), before_each: Vec::new(), after_each: Vec::new() }
    }

    /// Add a `before_each` hook after those already added.
    pub fn before_each(self, hook: H) -> (b: Self)
        ensures
            b.name() == self.name(),
            b.befores() == self.befores().push(hook),
            b.afters() == self.afters(),
    {
        let IntegrationTestBuilder { name, mut before_each, after_each } = self;
        before_each.push(hook);
        IntegrationTestBuilder { name, before_each, after_each }
    }

    /// Add an `after_each` hook after those already added.
    pub fn after_each(self, hook: H) -> (b: Self)
        ensures
            b.name() == self.name(),
            b.befores() == self.befores(),
            b.afters() == self.afters().push(hook),
    {
        let IntegrationTestBuilder { name, before_each, mut after_each } = self;
        after_each.push(hook);
        IntegrationTestBuilder { name, before_each, after_each }
    }

    /// The `i`-th `before_each` hook.
    pub fn before_hook(&self, i: usize) -> (h: &H)
        requires
            i < self.befores().len(),
        ensures
            *h == self.befores()[i as int],
    {
        &self.before_each[i]
    }

    /// The `i`-th `after_each` hook.
    pub fn after_hook(&self, i: usize) -> (h: &H)
        requires
            i < self.afters().len(),
        ensures
            *h == self.afters()[i as int],
    {
        &self.after_each[i]
    }

    /// The order of a hooked run: every `before_each` hook in registration
    /// order, then the body, then every `after_each` hook in registration
    /// order.
    pub fn run_plan(&self) -> (plan: Vec<HookStep>)
        ensures
            plan@ == before_steps(self.befores().len()) + seq![HookStep::Body] + after_steps(
                self.afters().len(),
            ),
    {
        let mut plan: Vec<HookStep> = Vec::new();
        let mut i: usize = 0;
        while i < self.before_each.len()
            invariant
                i <= self.before_each@.len(),
                plan@ == before_steps(i as nat),
            decreases self.before_each@.len() - i,
        {
            plan.push(HookStep::Before(i));
            i = i + 1;
            assert(plan@ =~= before_steps(i as nat));
        }
        plan.push(HookStep::Body);
        let ghost prefix = plan@;
        let mut j: usize = 0;
        while j < self.after_each.len()
            invariant
                j <= self.after_each@.len(),
                plan@ == prefix + after_steps(j as nat),
            decreases self.after_each@.len() - j,
        {
            plan.push(HookStep::After(j));
            j = j + 1;
            assert(plan@ =~= prefix + after_steps(j as nat));
        }
        plan
    }
}

/// Law: in a hooked run the body runs exactly once, after every
/// `before_each` hook and before every `after_each` hook, and the hooks of
/// each kind run once each in registration order.
pub proof fn lemma_plan_wraps_body(n: nat, m: nat)
    ensures
        ({
            let plan = before_steps(n) + seq![HookStep::Body] + after_steps(m);
            &&& plan.len() == n + m + 1
            &&& plan[n as int] == HookStep::Body
            &&& forall|i: int| 0 <= i < n ==> #[trigger] plan[i] == HookStep::Before(i as usize)
            &&& forall|i: int| 0 <= i < m ==> #[trigger] plan[n + 1 + i] == HookStep::After(i as usize)
        }),
{
    let plan = before_steps(n) + seq![HookStep::Body] + after_steps(m);
    assert forall|i: int| 0 <= i < m implies #[trigger] plan[n + 1 + i] == HookStep::After(
        i as usize,
    ) by {
        assert(plan[n + 1 + i] == after_steps(m)[i]);
    }
}

/// Where a hooked run stands: awaiting the `k`-th `before_each` hook,
/// running the body, awaiting the `j`-th `after_each` hook while holding the
/// body's output, or done with that output.
pub enum HookStage<R> {
    Before(usize),
    Body,
    After(usize, R),
    Done(R),
}

/// The stage a hooked run with `n` `before_each` and `m` `after_each` hooks
/// starts in.
pub open spec fn hook_start<R>(n: nat) -> HookStage<R> {
    if n > 0 {
        HookStage::Before(0)
    } else {
        HookStage::Body
    }
}

/// The stage after the current one completes; `output` is the body's output
/// when the current stage is the body.
pub open spec fn hook_advance<R>(n: nat, m: nat, stage: HookStage<R>, output: Option<R>) -> HookStage<R> {
    match stage {
        HookStage::Before(k) => if k + 1 < n {
            HookStage::Before((k + 1) as usize)
        } else {
            HookStage::Body
        },
        HookStage::Body => if m > 0 {
            HookStage::After(0, output.unwrap())
        } else {
            HookStage::Done(output.unwrap())
        },
        HookStage::After(j, r) => if j + 1 < m {
            HookStage::After((j + 1) as usize, r)
        } else {
            HookStage::Done(r)
        },
        HookStage::Done(r) => HookStage::Done(r),
    }
}

/// The stage of a hooked run after `i` stages completed, when the body's
/// output is `output`.
pub open spec fn stage_at<R>(n: nat, m: nat, i: int, output: R) -> HookStage<R> {
    if i < n {
        HookStage::Before(i as usize)
    } else if i == n {
        HookStage::Body
    } else if i <= n + m {
        HookStage::After((i - n - 1) as usize, output)
    } else {
        HookStage::Done(output)
    }
}

/// The step of the plan a stage carries out.
pub open spec fn stage_step<R>(stage: HookStage<R>) -> HookStep {
    match stage {
        HookStage::Before(k) => HookStep::Before(k),
        HookStage::Body => HookStep::Body,
        HookStage::After(j, _) => HookStep::After(j),
        HookStage::Done(_) => HookStep::Body,
    }
}

impl<H> IntegrationTestBuilder<H> {
    /// The first stage of a hooked run.
    pub fn start_hooks<R>(&self) -> (stage: HookStage<R>)
        ensures
            stage == hook_start::<R>(self.befores().len()),
    {
        if self.before_each.len() > 0 {
            HookStage::Before(0)
        } else {
            HookStage::Body
        }
    }

    /// The next stage of a hooked run once the current one completed;
    /// `output` is the body's output when the current stage is the body.
    pub fn advance_hooks<R>(&self, stage: HookStage<R>, output: Option<R>) -> (next: HookStage<R>)
        requires
            !(stage is Done),
            stage is Body ==> output is Some,
            stage matches HookStage::Before(k) ==> k < self.befores().len(),
            stage matches HookStage::After(j, _) ==> j < self.afters().len(),
        ensures
            next == hook_advance(self.befores().len(), self.afters().len(), stage, output),
    {
        match stage {
            HookStage::Before(k) => if k < self.before_each.len() - 1 {
                HookStage::Before(k + 1)
            } else {
                HookStage::Body
            },
            HookStage::Body => {
                let r = match output {
                    Some(r) => r,
                    None => vstd::pervasive::unreached(),
                };
                if self.after_each.len() > 0 {
                    HookStage::After(0, r)
                } else {
                    HookStage::Done(r)
                }
            },
            HookStage::After(j, r) => if j < self.after_each.len() - 1 {
                HookStage::After(j + 1, r)
            } else {
                HookStage::Done(r)
            },
            HookStage::Done(r) => HookStage::Done(r),
        }
    }
}

/// Law: a hooked run with `n` `before_each` and `m` `after_each` hooks goes
/// through the plan's steps in order, one stage per step (each hook once, the
/// body exactly once, between them), and ends, after `n + m + 1` stages,
/// done with the body's output unchanged.
pub proof fn lemma_hooked_run_follows_plan<R>(n: nat, m: nat, output: R)
    requires
        n <= usize::MAX,
        m <= usize::MAX,
    ensures
        stage_at(n, m, 0, output) == hook_start::<R>(n),
        forall|i: int|
            0 <= i < n + m + 1 ==> hook_advance(
                n,
                m,
                #[trigger] stage_at(n, m, i, output),
                if i == n {
                    Some(output)
                } else {
                    None
                },
            ) == stage_at(n, m, i + 1, output),
        forall|i: int|
            0 <= i < n + m + 1 ==> !(#[trigger] stage_at(n, m, i, output) is Done) && stage_step(
                stage_at(n, m, i, output),
            ) == (before_steps(n) + seq![HookStep::Body] + after_steps(m))[i],
        stage_at(n, m, (n + m + 1) as int, output) == HookStage::Done(output),
{
    assert forall|i: int| 0 <= i < n + m + 1 implies hook_advance(
        n,
        m,
        #[trigger] stage_at(n, m, i, output),
        if i == n {
            Some(output)
        } else {
            None
        },
    ) == stage_at(n, m, i + 1, output) by {
        if i < n {
            assert(stage_at(n, m, i, output) == HookStage::<R>::Before(i as usize));
        } else if i == n {
            assert(stage_at(n, m, i, output) == HookStage::<R>::Body);
        } else {
            assert(stage_at(n, m, i, output) == HookStage::After((i - n - 1) as usize, output));
        }
    }
    let plan = before_steps(n) + seq![HookStep::Body] + after_steps(m);
    assert forall|i: int| 0 <= i < n + m + 1 implies !(#[trigger] stage_at(
        n,
        m,
        i,
        output,
    ) is Done) && stage_step(stage_at(n, m, i, output)) == plan[i] by {
        if i > n {
            assert(plan[i] == after_steps(m)[i - n - 1]);
        }
    }
}

/// Database seeder: a list of fixture names.
pub struct DatabaseSeeder {
    fixtures: Vec<String>,
}

impl DatabaseSeeder {
    pub closed spec fn fixture_names(&self) -> Seq<Seq<char>> {
        names_view(self.fixtures@)
    }

    /// A seeder with no fixtures.
    pub fn new() -> (s: Self)
        ensures
            s.fixture_names() == Seq::<Seq<char>>::empty(),
    {
        let s = DatabaseSeeder { fixtures: Vec::new() };
        assert(s.fixture_names() =~= Seq::<Seq<char>>::empty());
        s
    }

    /// Add a fixture after those already added.
    pub fn add_fixture(self, fixture: &str) -> (s: Self)
        ensures
            s.fixture_names() == self.fixture_names().push(fixture@),
    {
        let mut fixtures = self.fixtures;
        fixtures.push(fixture.to_string());
        let s = DatabaseSeeder { fixtures };
        assert(s.fixture_names() =~= self.fixture_names().push(fixture@));
        s
    }

    /// All fixtures, in order.
    pub fn fixtures(&self) -> (f: &[String])
        ensures
            names_view(f@) == self.fixture_names(),
    {
        self.fixtures.as_slice()
    }
}

impl Default for DatabaseSeeder {
    /// Same as `new`.
    fn default() -> (s: Self)
        ensures
            s.fixture_names() == Seq::<Seq<char>>::empty(),
    {
        Self::new()
    }
}

} // verus!
