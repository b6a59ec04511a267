use micro_proxy::config::{AppConfig, AppType};
use micro_proxy::deployment::{
    active_runtime_apps, candidate_container_name, deployment_state_path, image_reference,
    load_deployments_with_legacy_migration, plan_switch, runtime_apps_with_candidate, DeploymentState,
    DeploymentStore,
};
use micro_proxy::named_map::NamedMap;
use micro_proxy::ErrorKind;

fn app(name: &str, container_name: &str) -> AppConfig {
    AppConfig {
        name: name.to_string(),
        routes: vec![],
        container_name: container_name.to_string(),
        container_port: 3000,
        healthcheck_path: "/".to_string(),
        app_type: AppType::Api,
        description: None,
        nginx_extra_config: None,
        path: None,
        docker_volumes: vec![],
        run_as_user: None,
        proxy_connect_timeout: None,
        proxy_read_timeout: None,
        proxy_send_timeout: None,
    }
}

#[test]
fn test_image_reference_uses_immutable_short_hash() {
    assert_eq!(
        image_reference("api", "0123456789abcdef"),
        "api:sha-0123456789ab"
    );
}

#[test]
fn test_image_reference_short_hash_kept_whole() {
    assert_eq!(image_reference("web", "abc"), "web:sha-abc");
}

#[test]
fn test_image_reference_multibyte_hash_cut_at_twelve_bytes() {
    // "é" takes two bytes: six of them are exactly twelve bytes.
    assert_eq!(image_reference("x", "éééééééé"), "x:sha-éééééé");
}

#[test]
fn test_candidate_container_name_uses_image_version() {
    assert_eq!(
        candidate_container_name("api", "api:sha-0123456789ab"),
        "api--0123456789ab"
    );
}

#[test]
fn test_candidate_container_name_uses_last_marker() {
    assert_eq!(candidate_container_name("c", "sha-a:sha-b"), "c--b");
}

#[test]
fn test_candidate_container_name_without_version() {
    assert_eq!(candidate_container_name("web", "web:latest"), "web--candidate");
}

#[test]
fn test_activate_records_previous_version() {
    let mut store = DeploymentStore::new("unused.yml");
    store.migrate_legacy("api", "api", true);
    store
        .activate("api", "api:sha-new".to_string(), "api--new".to_string())
        .unwrap();
    let state = store.state("api").unwrap();
    assert_eq!(state.active_image.as_deref(), Some("api:sha-new"));
    assert_eq!(state.previous_image.as_deref(), Some("api:latest"));
}

#[test]
fn test_activate_moves_superseded_rollback_version_to_history() {
    let mut store = DeploymentStore::new("unused.yml");
    store.migrate_legacy("api", "api", true);
    store
        .activate("api", "api:sha-first".to_string(), "api--first".to_string())
        .unwrap();

    store
        .activate(
            "api",
            "api:sha-second".to_string(),
            "api--second".to_string(),
        )
        .unwrap();

    assert_eq!(store.history_images("api"), ["api:latest"]);
}

#[test]
fn test_activate_historical_image_removes_it_from_history() {
    let mut store = DeploymentStore::new("unused.yml");
    store.migrate_legacy("api", "api", true);
    store
        .activate("api", "api:sha-first".to_string(), "api--first".to_string())
        .unwrap();
    store
        .activate(
            "api",
            "api:sha-second".to_string(),
            "api--second".to_string(),
        )
        .unwrap();
    store
        .activate("api", "api:latest".to_string(), "api".to_string())
        .unwrap();

    let state = store.state("api").unwrap();
    assert_eq!(state.active_image.as_deref(), Some("api:latest"));
    assert_eq!(state.previous_image.as_deref(), Some("api:sha-second"));
    assert_eq!(state.history_images, ["api:sha-first"]);
}

#[test]
fn test_clear_history_images_keeps_active_and_previous_versions() {
    let mut store = DeploymentStore::new("unused.yml");
    store.migrate_legacy("api", "api", true);
    store
        .activate("api", "api:sha-first".to_string(), "api--first".to_string())
        .unwrap();
    store
        .activate(
            "api",
            "api:sha-second".to_string(),
            "api--second".to_string(),
        )
        .unwrap();

    store.clear_history_images();

    let state = store.state("api").unwrap();
    assert_eq!(state.active_image.as_deref(), Some("api:sha-second"));
    assert_eq!(state.previous_image.as_deref(), Some("api:sha-first"));
    assert!(state.history_images.is_empty());
}

#[test]
fn test_activate_rejects_current_active_image() {
    let mut store = DeploymentStore::new("unused.yml");
    store.migrate_legacy("api", "api", true);
    assert!(store
        .activate("api", "api:latest".to_string(), "api".to_string())
        .is_err());
}

#[test]
fn test_activate_rejection_message() {
    let mut store = DeploymentStore::new("unused.yml");
    store.migrate_legacy("api", "api", true);
    let e = store
        .activate("api", "api:latest".to_string(), "api".to_string())
        .unwrap_err();
    assert_eq!(e.kind(), ErrorKind::State);
    assert_eq!(e.message(), "应用 'api' 的镜像 'api:latest' 已是活动版本");
    assert_eq!(
        e.to_string(),
        "状态错误: 应用 'api' 的镜像 'api:latest' 已是活动版本"
    );
}

#[test]
fn test_migrate_legacy_registers_running_legacy_app() {
    let mut store = DeploymentStore::new("unused.yml");

    assert!(store.migrate_legacy("api", "api-container", true));

    let state = store.state("api").unwrap();
    assert_eq!(state.active_image.as_deref(), Some("api:latest"));
    assert_eq!(state.active_container.as_deref(), Some("api-container"));
    assert!(state.history_images.is_empty());
}

#[test]
fn test_migrate_legacy_without_image_changes_nothing() {
    let mut store = DeploymentStore::new("unused.yml");
    assert!(!store.migrate_legacy("api", "api", false));
    assert!(store.state("api").is_none());
}

#[test]
fn test_migrate_legacy_twice_changes_once() {
    let mut store = DeploymentStore::new("unused.yml");
    assert!(store.migrate_legacy("api", "api", true));
    assert!(!store.migrate_legacy("api", "api", true));
}

#[test]
fn test_rollback_swaps_active_and_previous() {
    let mut store = DeploymentStore::new("unused.yml");
    store.migrate_legacy("api", "api", true);
    store
        .activate("api", "api:sha-new".to_string(), "api--new".to_string())
        .unwrap();
    assert_eq!(
        store.rollback("api").unwrap(),
        ("api:latest".to_string(), "api".to_string())
    );
    assert_eq!(
        store.state("api").unwrap().active_image.as_deref(),
        Some("api:latest")
    );
}

#[test]
fn test_rollback_errors() {
    let mut store = DeploymentStore::new("unused.yml");
    let e = store.rollback("api").unwrap_err();
    assert_eq!(e.message(), "应用 'api' 没有部署状态");
    store.migrate_legacy("api", "api", true);
    let e = store.rollback("api").unwrap_err();
    assert_eq!(e.message(), "应用 'api' 没有可回滚镜像");
}

#[test]
fn test_rollback_twice_returns_to_activated_version() {
    let mut store = DeploymentStore::new("unused.yml");
    store.migrate_legacy("api", "api", true);
    store
        .activate("api", "api:sha-new".to_string(), "api--new".to_string())
        .unwrap();
    store.rollback("api").unwrap();
    assert_eq!(
        store.rollback("api").unwrap(),
        ("api:sha-new".to_string(), "api--new".to_string())
    );
    let state = store.state("api").unwrap();
    assert_eq!(state.active_image.as_deref(), Some("api:sha-new"));
    assert_eq!(state.previous_image.as_deref(), Some("api:latest"));
}

#[test]
fn test_active_runtime_apps_selects_active_image_and_container() {
    let mut config = app("api", "configured-name");
    config.healthcheck_path = "/".to_string();
    let mut states = NamedMap::new();
    states.insert(
        "api".to_string(),
        DeploymentState {
            active_image: Some("api:sha-abc".to_string()),
            active_container: Some("api--abc".to_string()),
            ..DeploymentState::default()
        },
    );
    let (apps, images) = active_runtime_apps(&[config], &states).unwrap();
    assert_eq!(apps[0].container_name, "api--abc");
    assert_eq!(images.get("api").unwrap(), "api:sha-abc");
}

#[test]
fn test_active_runtime_apps_reports_first_missing_state() {
    let states: NamedMap<DeploymentState> = NamedMap::new();
    let e = active_runtime_apps(&[app("web", "web"), app("api", "api")], &states).unwrap_err();
    assert_eq!(e.message(), "应用 'web' 没有活动部署状态");
}

#[test]
fn test_runtime_apps_with_candidate_allows_first_deployment() {
    let config = app("api", "api");
    let (apps, images, container) =
        runtime_apps_with_candidate(&[config], &NamedMap::new(), "api", "api:sha-abc").unwrap();
    assert_eq!(apps[0].container_name, "api--abc");
    assert_eq!(images.get("api").unwrap(), "api:sha-abc");
    assert_eq!(container, "api--abc");
}

#[test]
fn test_runtime_apps_with_candidate_keeps_other_active_versions() {
    let mut states = NamedMap::new();
    states.insert(
        "web".to_string(),
        DeploymentState {
            active_image: Some("web:sha-1".to_string()),
            active_container: Some("web--1".to_string()),
            ..DeploymentState::default()
        },
    );
    let (apps, images, _) = runtime_apps_with_candidate(
        &[app("web", "web"), app("api", "api"), app("db", "db")],
        &states,
        "api",
        "api:sha-2",
    )
    .unwrap();
    assert_eq!(apps[0].container_name, "web--1");
    assert_eq!(apps[1].container_name, "api--2");
    assert_eq!(apps[2].container_name, "db");
    assert_eq!(images.get("web").unwrap(), "web:sha-1");
    assert!(images.get("db").is_none());
}

#[test]
fn test_runtime_apps_with_candidate_unknown_app() {
    let e = runtime_apps_with_candidate(&[app("web", "web")], &NamedMap::new(), "api", "x")
        .unwrap_err();
    assert_eq!(e.message(), "未找到应用 'api'");
}

#[test]
fn test_legacy_migration_over_apps() {
    let store = DeploymentStore::new("state.yml");
    let (store, changed) =
        load_deployments_with_legacy_migration(store, &[app("web", "web-c"), app("api", "api")], &[true, false]);
    assert!(changed);
    assert_eq!(
        store.state("web").unwrap().active_container.as_deref(),
        Some("web-c")
    );
    assert!(store.state("api").is_none());
}

#[test]
fn test_deployment_state_path() {
    assert_eq!(deployment_state_path("./state"), "./state.deployments.yml");
}

#[test]
fn test_plan_switch_names_candidate_and_running_container() {
    let mut store = DeploymentStore::new("unused.yml");
    let (candidate, old) = plan_switch(&store, "api", "api", "api:sha-0123456789ab").unwrap();
    assert_eq!(candidate, "api--0123456789ab");
    assert_eq!(old, None);
    store
        .activate("api", "api:sha-0123456789ab".to_string(), "api--0123456789ab".to_string())
        .unwrap();
    let (candidate, old) = plan_switch(&store, "api", "api", "api:sha-fedcba987654").unwrap();
    assert_eq!(candidate, "api--fedcba987654");
    assert_eq!(old.as_deref(), Some("api--0123456789ab"));
}

#[test]
fn test_plan_switch_refuses_active_image() {
    let mut store = DeploymentStore::new("unused.yml");
    store
        .activate("api", "api:sha-0123456789ab".to_string(), "api--0123456789ab".to_string())
        .unwrap();
    let err = plan_switch(&store, "api", "api", "api:sha-0123456789ab").unwrap_err();
    assert_eq!(err.kind(), ErrorKind::State);
    assert_eq!(err.message(), "镜像 'api:sha-0123456789ab' 已是应用 'api' 的活动版本");
}

#[test]
fn test_rollback_succeeds_twice_and_restores() {
    let mut store = DeploymentStore::new("unused.yml");
    store.migrate_legacy("api", "api", true);
    store
        .activate("api", "api:sha-new".to_string(), "api--new".to_string())
        .unwrap();
    assert_eq!(store.rollback("api").unwrap(), ("api:latest".to_string(), "api".to_string()));
    assert_eq!(store.rollback("api").unwrap(), ("api:sha-new".to_string(), "api--new".to_string()));
    let state = store.state("api").unwrap();
    assert_eq!(state.active_image.as_deref(), Some("api:sha-new"));
    assert_eq!(state.previous_image.as_deref(), Some("api:latest"));
    assert_eq!(state.active_container.as_deref(), Some("api--new"));
    assert_eq!(state.previous_container.as_deref(), Some("api"));
}
