use micro_proxy::cli::{
    build_selection, calculate_relative_path, env_file_candidates, wait_for_healthy, HealthWait,
    HEALTH_CHECKS,
};
use micro_proxy::config::{AppConfig, AppType};
use micro_proxy::ErrorKind;

fn app(name: &str, path: Option<&str>) -> AppConfig {
    AppConfig {
        name: name.to_string(),
        routes: vec!["/".to_string()],
        container_name: format!("{}-container", name),
        container_port: 80,
        healthcheck_path: "/".to_string(),
        app_type: AppType::Static,
        description: None,
        nginx_extra_config: None,
        path: path.map(|p| p.to_string()),
        docker_volumes: vec![],
        run_as_user: None,
        proxy_connect_timeout: None,
        proxy_read_timeout: None,
        proxy_send_timeout: None,
    }
}

#[test]
fn test_relative_path_below_base() {
    assert_eq!(calculate_relative_path("/srv/proxy", "/srv/proxy/apps/web/.env").unwrap(), "apps/web/.env");
}

#[test]
fn test_relative_path_beside_base() {
    assert_eq!(calculate_relative_path("/srv/proxy", "/srv/apps/web/.env").unwrap(), "../apps/web/.env");
}

#[test]
fn test_relative_path_of_relative_target_fails() {
    let err = calculate_relative_path("/srv/proxy", "apps/web/.env").unwrap_err();
    assert_eq!(err.kind(), ErrorKind::Config);
    assert_eq!(err.message(), "无法计算相对路径");
}

#[test]
fn test_env_file_candidates_skip_apps_without_folder() {
    let apps = vec![app("web", Some("./apps/web")), app("db", None), app("api", Some("./apps/api/"))];
    assert_eq!(
        env_file_candidates(&apps),
        vec![
            ("web".to_string(), "./apps/web/.env".to_string()),
            ("api".to_string(), "./apps/api/.env".to_string()),
        ]
    );
}

#[test]
fn test_build_selection_without_names_builds_all() {
    let apps = vec![app("web", None), app("api", None)];
    let (selected, all_found) = build_selection(&apps, &[]);
    assert_eq!(selected, vec![true, true]);
    assert!(all_found);
}

#[test]
fn test_build_selection_with_names() {
    let apps = vec![app("web", None), app("api", None)];
    let (selected, all_found) = build_selection(&apps, &["api".to_string()]);
    assert_eq!(selected, vec![false, true]);
    assert!(all_found);
    let (selected, all_found) = build_selection(&apps, &["api".to_string(), "missing".to_string()]);
    assert_eq!(selected, vec![false, true]);
    assert!(!all_found);
}

#[test]
fn test_wait_for_healthy_steps() {
    assert_eq!(wait_for_healthy(1, true), HealthWait::Done(true));
    assert_eq!(wait_for_healthy(1, false), HealthWait::Retry);
    assert_eq!(wait_for_healthy(HEALTH_CHECKS - 1, false), HealthWait::Retry);
    assert_eq!(wait_for_healthy(HEALTH_CHECKS, false), HealthWait::Done(false));
    assert_eq!(HEALTH_CHECKS, 30);
}
