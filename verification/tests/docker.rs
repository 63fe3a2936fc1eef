use armature_testing::docker::{
    ContainerConfig, DockerContainer, DockerError, MongoContainer, PollStep, PostgresContainer,
    StartOutcome, StartStep,
    RedisContainer,
};

#[test]
fn test_container_config() {
    let config = ContainerConfig::new("postgres", "15")
        .with_name("test-db")
        .with_env("POSTGRES_PASSWORD", "test")
        .with_port(5432, 5432);

    assert_eq!(config.image, "postgres");
    assert_eq!(config.tag, "15");
    assert_eq!(config.name, Some("test-db".to_string()));
    assert_eq!(config.env.get("POSTGRES_PASSWORD"), Some(&"test".to_string()));
    assert_eq!(config.ports.get(&5432), Some(&5432));
}

#[test]
fn test_postgres_container_config() {
    let config = PostgresContainer::config("testdb", "user", "pass");
    assert_eq!(config.image, "postgres");
    assert_eq!(config.env.get("POSTGRES_DB"), Some(&"testdb".to_string()));
}

#[test]
fn test_redis_container_config() {
    let config = RedisContainer::config();
    assert_eq!(config.image, "redis");
    assert_eq!(config.tag, "7");
}

#[test]
fn container_names_carry_a_random_uuid() {
    let a = PostgresContainer::config("db", "u", "p").name.unwrap();
    let b = PostgresContainer::config("db", "u", "p").name.unwrap();
    let prefix = "armature-test-postgres-";
    assert!(a.starts_with(prefix));
    assert_eq!(a.len(), prefix.len() + 36);
    assert_ne!(a, b);
    let mongo = MongoContainer::config("app").name.unwrap();
    assert!(mongo.starts_with("armature-test-mongo-"));
    assert_eq!(mongo.len(), "armature-test-mongo-".len() + 36);
}

#[test]
fn postgres_config_with_id_is_exact() {
    let config = PostgresContainer::config_with_id("testdb", "user", "pass", "abc");
    assert_eq!(config.name, Some("armature-test-postgres-abc".to_string()));
    assert_eq!(config.tag, "15");
    assert_eq!(config.env.get("POSTGRES_USER"), Some(&"user".to_string()));
    assert_eq!(config.env.get("POSTGRES_PASSWORD"), Some(&"pass".to_string()));
    assert_eq!(config.ports.get(&5432), Some(&5432));
    assert_eq!(config.wait_timeout_secs, 10);
}

#[test]
fn run_args_list_name_env_ports_and_image() {
    let config = ContainerConfig::new("redis", "7")
        .with_name("cache")
        .with_env("A", "1")
        .with_env("B", "2")
        .with_port(6380, 6379);
    let container = DockerContainer::new(config);
    let args = container.run_args();
    let expected: Vec<String> = [
        "run", "-d", "--rm", "--name", "cache", "-e", "A=1", "-e", "B=2", "-p", "6380:6379",
        "redis:7",
    ]
    .iter()
    .map(|s| s.to_string())
    .collect();
    assert_eq!(args, expected);
    assert_eq!(container.pull_args(), vec!["pull".to_string(), "redis:7".to_string()]);
    assert!(container.stop_args().is_none());
    assert!(container.inspect_args().is_none());
}

#[test]
fn started_container_has_trimmed_id() {
    let mut container = DockerContainer::new(ContainerConfig::new("redis", "7"));
    assert_eq!(container.container_id(), None);
    container.record_started("  abc123\n");
    assert_eq!(container.container_id(), Some("abc123"));
    assert_eq!(
        container.stop_args(),
        Some(vec!["stop".to_string(), "abc123".to_string()])
    );
    container.record_stopped();
    assert_eq!(container.container_id(), None);
}

#[test]
fn inspect_output_true_means_running() {
    assert!(DockerContainer::reports_running("true\n"));
    assert!(DockerContainer::reports_running("  true "));
    assert!(!DockerContainer::reports_running("false\n"));
    assert!(!DockerContainer::reports_running(""));
}

#[test]
fn readiness_wait_steps() {
    assert_eq!(DockerContainer::next_poll_step(true, true), PollStep::Ready);
    assert_eq!(DockerContainer::next_poll_step(false, true), PollStep::TimedOut);
    assert_eq!(DockerContainer::next_poll_step(false, false), PollStep::Retry);
}

#[test]
fn readiness_timeout_is_at_least_one_second() {
    let zero = DockerContainer::new(ContainerConfig::new("redis", "7").with_wait_timeout(0));
    assert_eq!(zero.readiness_timeout_secs(), 1);
    let five = DockerContainer::new(ContainerConfig::new("redis", "7").with_wait_timeout(5));
    assert_eq!(five.readiness_timeout_secs(), 5);
    match five.readiness_timeout_error() {
        DockerError::StartFailed(m) => {
            assert_eq!(m, "container did not report running within wait_timeout_secs (5s)")
        }
        other => panic!("unexpected {:?}", other),
    }
    match DockerContainer::docker_missing_error() {
        DockerError::NotAvailable(m) => assert_eq!(m, "Docker not found. Please install Docker."),
        other => panic!("unexpected {:?}", other),
    }
}

#[test]
fn default_config_values() {
    let config = ContainerConfig::new("mongo", "7");
    assert_eq!(config.name, None);
    assert_eq!(config.wait_timeout_secs, 30);
    assert_eq!(config.image_name(), "mongo:7");
    assert_eq!(config.env.len(), 0);
    assert_eq!(config.ports.len(), 0);
}

#[test]
fn inspect_output_with_unicode_whitespace_is_trimmed() {
    assert!(DockerContainer::reports_running("\u{3000}true\u{a0}\t"));
    let mut container = DockerContainer::new(ContainerConfig::new("redis", "7"));
    container.record_started("\u{2003}id9\r\n");
    assert_eq!(container.container_id(), Some("id9"));
}

#[test]
fn start_steps_run_in_order_and_record_the_id_at_run() {
    let mut container = DockerContainer::new(ContainerConfig::new("redis", "7").with_wait_timeout(3));
    let step = DockerContainer::first_start_step();
    assert_eq!(step, StartStep::CheckDocker);
    let step = container.advance_start(step, StartOutcome::Available(true)).unwrap().unwrap();
    assert_eq!(step, StartStep::Pull);
    let step = container
        .advance_start(step, StartOutcome::Command(Ok("pulled\n".to_string())))
        .unwrap()
        .unwrap();
    assert_eq!(step, StartStep::Run);
    assert_eq!(container.container_id(), None);
    let step = container
        .advance_start(step, StartOutcome::Command(Ok("abc\n".to_string())))
        .unwrap()
        .unwrap();
    assert_eq!(step, StartStep::WaitReady);
    assert_eq!(container.container_id(), Some("abc"));
    match container.advance_start(step, StartOutcome::Ready(false)) {
        Err(DockerError::StartFailed(m)) => {
            assert_eq!(m, "container did not report running within wait_timeout_secs (3s)")
        }
        other => panic!("unexpected {:?}", other),
    }
    assert!(matches!(container.advance_start(StartStep::WaitReady, StartOutcome::Ready(true)), Ok(None)));
}

#[test]
fn start_failures_carry_their_step_error() {
    let mut container = DockerContainer::new(ContainerConfig::new("redis", "7"));
    assert!(matches!(
        container.advance_start(StartStep::CheckDocker, StartOutcome::Available(false)),
        Err(DockerError::NotAvailable(_))
    ));
    assert!(matches!(
        container.advance_start(StartStep::Pull, StartOutcome::Command(Err("no image".to_string()))),
        Err(DockerError::PullFailed(m)) if m == "no image"
    ));
    assert!(matches!(
        container.advance_start(StartStep::Run, StartOutcome::Command(Err("boom".to_string()))),
        Err(DockerError::StartFailed(m)) if m == "boom"
    ));
    assert_eq!(container.container_id(), None);
}
