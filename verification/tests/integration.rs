use armature_testing::integration::{
    HookStage,
    DatabaseSeeder, FixtureRun, FixtureStep, HookStep, IntegrationTestBuilder,
    IntegrationTestError, TestFixture,
};
use std::sync::Arc;

#[test]
fn test_database_seeder() {
    let seeder = DatabaseSeeder::new().add_fixture("users").add_fixture("posts");

    assert_eq!(seeder.fixtures().len(), 2);
}

#[test]
fn seeder_keeps_fixture_order() {
    let seeder = DatabaseSeeder::default().add_fixture("a").add_fixture("b");
    assert_eq!(seeder.fixtures(), &["a".to_string(), "b".to_string()]);
}

#[test]
fn fixture_run_returns_the_test_result_after_teardown() {
    let fixture = TestFixture::new(Arc::new(()));
    assert!(fixture.auto_cleanup());
    let (state, step) = fixture.start_run();
    assert!(matches!(step, FixtureStep::RunSetup));
    let (state, step) = fixture.advance_run(state, Ok(()));
    assert!(matches!(step, FixtureStep::RunTest));
    let (state, step) =
        fixture.advance_run(state, Err(IntegrationTestError::Database("boom".to_string())));
    assert!(matches!(step, FixtureStep::RunTeardown));
    let (state, step) = fixture.advance_run(state, Ok(()));
    assert!(matches!(state, FixtureRun::Done));
    match step {
        FixtureStep::Finish(Err(IntegrationTestError::Database(m))) => assert_eq!(m, "boom"),
        other => panic!("unexpected {:?}", other),
    }
}

#[test]
fn failed_teardown_is_warned_about_and_the_test_result_kept() {
    let fixture = TestFixture::new(Arc::new(()));
    let (state, _) = fixture.start_run();
    let (state, _) = fixture.advance_run(state, Ok(()));
    let (state, _) = fixture.advance_run(state, Ok(()));
    let (_, step) =
        fixture.advance_run(state, Err(IntegrationTestError::TeardownFailed("t".to_string())));
    match step {
        FixtureStep::WarnAndFinish(IntegrationTestError::TeardownFailed(m), Ok(())) => {
            assert_eq!(m, "t")
        }
        other => panic!("unexpected {:?}", other),
    }
}

#[test]
fn failed_setup_skips_the_test() {
    let fixture = TestFixture::new(Arc::new(()));
    let (state, _) = fixture.start_run();
    let (state, step) =
        fixture.advance_run(state, Err(IntegrationTestError::SetupFailed("s".to_string())));
    assert!(matches!(state, FixtureRun::Done));
    assert!(matches!(step, FixtureStep::Finish(Err(IntegrationTestError::SetupFailed(_)))));
}

#[test]
fn without_cleanup_the_run_ends_after_the_test() {
    let fixture = TestFixture::new(Arc::new(1u8)).without_auto_cleanup();
    assert!(!fixture.auto_cleanup());
    assert_eq!(**fixture.db_helper(), 1u8);
    let (state, _) = fixture.start_run();
    let (state, _) = fixture.advance_run(state, Ok(()));
    let (state, step) = fixture.advance_run(state, Ok(()));
    assert!(matches!(state, FixtureRun::Done));
    assert!(matches!(step, FixtureStep::Finish(Ok(()))));
}

#[test]
fn run_plan_wraps_the_body_in_hooks() {
    let builder = IntegrationTestBuilder::new("ordering")
        .before_each("before_1")
        .before_each("before_2")
        .after_each("after_1")
        .after_each("after_2");
    assert_eq!(
        builder.run_plan(),
        vec![
            HookStep::Before(0),
            HookStep::Before(1),
            HookStep::Body,
            HookStep::After(0),
            HookStep::After(1),
        ]
    );
    assert_eq!(*builder.before_hook(1), "before_2");
    assert_eq!(*builder.after_hook(0), "after_1");
    let only_after = IntegrationTestBuilder::new("no-before").after_each(());
    assert_eq!(only_after.run_plan(), vec![HookStep::Body, HookStep::After(0)]);
}

#[test]
fn hooked_run_stages_pass_the_body_output_through() {
    let builder = IntegrationTestBuilder::new("passthrough").before_each(()).after_each(());
    let mut stage = builder.start_hooks::<u32>();
    let mut seen = Vec::new();
    let result = loop {
        let output = match &stage {
            HookStage::Before(k) => {
                seen.push(format!("before {}", k));
                None
            }
            HookStage::Body => {
                seen.push("body".to_string());
                Some(42)
            }
            HookStage::After(j, _) => {
                seen.push(format!("after {}", j));
                None
            }
            HookStage::Done(r) => break *r,
        };
        stage = builder.advance_hooks(stage, output);
    };
    assert_eq!(result, 42);
    assert_eq!(seen, vec!["before 0", "body", "after 0"]);
    let bare = IntegrationTestBuilder::<()>::new("no hooks");
    let stage = bare.start_hooks::<u8>();
    assert!(matches!(stage, HookStage::Body));
    assert!(matches!(bare.advance_hooks(stage, Some(7)), HookStage::Done(7)));
}
