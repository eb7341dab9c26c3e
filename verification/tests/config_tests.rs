use server_wrapper::config::default_min_restart_interval;
use server_wrapper::config::runtime_transform;
use server_wrapper::config::Config;
use server_wrapper::config::Destinations;
use server_wrapper::config::Source;
use server_wrapper::config::Transform as ConfiguredTransform;
use server_wrapper::config::Trigger;
use server_wrapper::executor::Executor;
use server_wrapper::status::AllowedMentions;
use server_wrapper::status::Payload;
use server_wrapper::status::StatusWriter;
use server_wrapper::transform::Pattern;
use server_wrapper::transform::Transform;

#[test]
fn the_default_config_runs_the_stock_server() {
    let config = Config::default();
    assert_eq!(config.run.len(), 1);
    assert_eq!(config.run[0], "java -jar fabric-server-launch.jar");
    assert!(config.status.webhook.is_none());
    assert!(config.tokens.github.is_none());
    assert_eq!(config.triggers.len(), 1);
    assert_eq!(config.triggers[0].0, "startup");
    assert!(matches!(config.triggers[0].1, Trigger::Startup));
    assert_eq!(config.min_restart_interval_seconds, 240);
    assert_eq!(default_min_restart_interval(), 240);
}

#[test]
fn the_default_destinations_seed_one_mods_directory() {
    let destinations = Destinations::default().destinations;
    assert_eq!(destinations.len(), 1);
    assert_eq!(destinations[0].0, "mods");
    let destination = &destinations[0].1;
    assert_eq!(destination.path, "mods");
    assert_eq!(destination.triggers, vec!["startup".to_string()]);
    assert_eq!(destination.sources.len(), 1);
    assert_eq!(destination.sources[0].0, "jars");
    let set = &destination.sources[0].1;
    assert!(set.transform.is_none());
    assert_eq!(set.sources.len(), 1);
    assert_eq!(set.sources[0].0, "fabric-api");
    match &set.sources[0].1 {
        Source::Url { url } => assert!(url.starts_with("https://github.com/FabricMC/fabric/")),
        _ => panic!("the seed source is a plain URL"),
    }
}

#[test]
fn a_missing_transform_runs_direct() {
    assert!(matches!(runtime_transform(&None), Transform::Direct));
}

#[test]
fn a_configured_unzip_keeps_its_rules() {
    let configured = ConfiguredTransform::Unzip {
        unzip: vec![Pattern::new("*.jar").expect("compiles"), Pattern::new("!t-*").expect("compiles")],
    };
    match runtime_transform(&Some(configured)) {
        Transform::Unzip { unzip } => {
            assert_eq!(unzip.len(), 2);
            assert!(!unzip[0].exclude);
            assert!(unzip[1].exclude);
            assert!(unzip[0].test("core.jar"));
            assert!(!unzip[0].test("core.txt"));
        },
        Transform::Direct => panic!("configured extraction must stay extraction"),
    }
}

#[test]
fn the_executor_keeps_its_tasks_in_order() {
    let executor = Executor::new(vec!["echo a".to_string(), "echo b".to_string()]);
    assert_eq!(executor.tasks().len(), 2);
    assert_eq!(executor.tasks()[0], "echo a");
    assert_eq!(executor.tasks()[1], "echo b");
}

#[test]
fn status_constructors_build_sanitized_messages() {
    let writer = StatusWriter::none();
    assert!(writer.webhook.is_none());
    let payload = Payload::new_sanitized("hello".to_string());
    assert_eq!(payload.content, "hello");
    assert!(payload.username.is_none());
    assert!(payload.avatar_url.is_none());
    assert!(payload.embeds.is_empty());
    let mentions = payload.allowed_mentions.expect("sanitized payloads pin mentions");
    assert!(mentions.parse.is_empty());
    assert!(AllowedMentions::sanitized().parse.is_empty());
}
