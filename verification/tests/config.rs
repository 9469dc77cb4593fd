use ecsctl::config::{split_target, Config, ConfigProblem, SchedulerConfig};
use ecsctl::service::{
    check_count, choose_source, clone_overrides, is_remote_source, waits, Source,
};

fn config(aliases: &[(&str, &str)]) -> Config {
    let mut cfg = Config::default();
    for (name, target) in aliases {
        cfg.aliases.insert(name.to_string(), target.to_string());
    }
    cfg
}

#[test]
fn nothing_is_set_at_first() {
    let cfg = Config::default();
    assert!(cfg.bucket.is_none() && cfg.cluster.is_none() && cfg.scheduler.is_none());
    assert_eq!(cfg.aliases.len(), 0);
    assert_eq!(cfg.presign_expiry_secs(), 60);
    assert_eq!(cfg.scheduler_group_name(), "ecsctl-schedules");
    assert_eq!(cfg.scheduler_role_arn(), None);
}

#[test]
fn settings_are_used() {
    let mut cfg = Config { presign_expiry: Some(5), ..Config::default() };
    cfg.scheduler = Some(SchedulerConfig {
        role_arn: Some("arn".to_string()),
        group_name: Some("mine".to_string()),
    });
    assert_eq!(cfg.presign_expiry_secs(), 5);
    assert_eq!(cfg.scheduler_group_name(), "mine");
    assert_eq!(cfg.scheduler_role_arn(), Some("arn"));
    assert_eq!(cfg.resolve_scheduler_role_arn(None).unwrap(), "arn");
    assert_eq!(cfg.resolve_scheduler_role_arn(Some("flag".to_string())).unwrap(), "flag");
}

#[test]
fn a_missing_role_is_explained() {
    let e = Config::default().resolve_scheduler_role_arn(None).unwrap_err();
    assert_eq!(e.kind, ConfigProblem::NoRoleArn);
    assert_eq!(
        e.to_string(),
        "scheduler role ARN required.\nProvide --role-arn or set [scheduler].role_arn in ~/.ecsctl/config.toml\n\nExample config:\n  [scheduler]\n  role_arn = \"arn:aws:iam::123456789012:role/ecsctl-scheduler-role\""
    );
}

#[test]
fn names_and_groups() {
    let mut cfg = config(&[]);
    cfg.groups.insert("all".to_string(), vec!["a".to_string(), "b".to_string()]);
    assert_eq!(cfg.resolve_targets("web"), vec!["web".to_string()]);
    assert_eq!(cfg.resolve_targets("@all"), vec!["a".to_string(), "b".to_string()]);
    assert_eq!(cfg.resolve_targets("@none"), Vec::<String>::new());
    assert_eq!(cfg.resolve_some_targets("@all").unwrap().len(), 2);
    let e = cfg.resolve_some_targets("@none").unwrap_err();
    assert_eq!(e.kind, ConfigProblem::EmptyGroup);
    assert_eq!(e.to_string(), "group '@none' is empty or not found");
}

#[test]
fn short_names_are_looked_up() {
    let cfg = config(&[("web", "prod/web/app/task/x"), ("bad", "prod")]);
    assert_eq!(cfg.resolve_alias("web").unwrap(), ("prod", "web"));
    let e = cfg.resolve_alias("nope").unwrap_err();
    assert_eq!(e.kind, ConfigProblem::AliasNotFound);
    assert_eq!(e.to_string(), "alias 'nope' not found");
    let e = cfg.resolve_alias("bad").unwrap_err();
    assert_eq!(e.kind, ConfigProblem::InvalidAlias);
    assert_eq!(
        e.to_string(),
        "invalid alias target for 'bad': expected 'cluster/service', got 'prod'"
    );
    assert_eq!(cfg.resolve_service("web").unwrap(), ("prod", "web"));
    assert_eq!(cfg.resolve_service("bad").unwrap_err().to_string(), "invalid alias target");
    assert_eq!(cfg.resolve_service("nope").unwrap_err().to_string(), "alias 'nope' not found");
}

#[test]
fn targets_are_split() {
    assert_eq!(split_target("a/b"), Some(("a", "b")));
    assert_eq!(split_target("a/b/c/d/e"), Some(("a", "b")));
    assert_eq!(split_target("/"), Some(("", "")));
    assert_eq!(split_target("a"), None);
}

#[test]
fn a_new_service_gets_a_short_name() {
    let mut cfg = config(&[("old", "prod/web")]);
    assert!(!cfg.register_service("prod", "web"));
    assert!(cfg.register_service("prod", "api"));
    assert_eq!(cfg.aliases.get("api").map(String::as_str), Some("prod/api"));
    assert_eq!(cfg.aliases.get("old").map(String::as_str), Some("prod/web"));
}

#[test]
fn short_names_are_set_and_removed() {
    let mut cfg = config(&[]);
    cfg.set_alias("web", "prod/web");
    assert_eq!(cfg.resolve_alias("web").unwrap(), ("prod", "web"));
    assert!(cfg.remove_alias("web"));
    assert!(!cfg.remove_alias("web"));
    assert!(cfg.resolve_alias("web").is_err());
}

#[test]
fn small_rules() {
    assert!(is_remote_source("http://x") && is_remote_source("https://x"));
    assert!(!is_remote_source("httpx") && !is_remote_source("spec.yaml"));
    assert!(check_count(0).is_ok());
    assert_eq!(check_count(-3).unwrap_err().to_string(), "count must be >= 0, got -3");
    assert_eq!(
        clone_overrides("new", &vec!["spec.cpu=512".to_string()]),
        vec!["metadata.name=new".to_string(), "spec.cpu=512".to_string()]
    );
    assert_eq!(choose_source(true, true).unwrap(), Source::Name);
    assert_eq!(choose_source(false, true).unwrap(), Source::File);
    assert_eq!(choose_source(false, false).unwrap_err().to_string(), "provide a name or -f <file>");
    assert!(waits(true, &vec!["a".to_string()]));
    assert!(!waits(true, &vec!["a".to_string(), "b".to_string()]));
    assert!(!waits(false, &vec!["a".to_string()]));
}
