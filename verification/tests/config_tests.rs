use micro_proxy::config::{
    default_cert_dir, default_web_root, join_path, AppConfig, AppType, PathStatus, ProxyConfig,
};
use micro_proxy::ErrorKind;

fn app(
    name: &str,
    routes: &[&str],
    container_name: &str,
    container_port: u16,
    app_type: AppType,
    path: Option<&str>,
) -> AppConfig {
    AppConfig {
        name: name.to_string(),
        routes: routes.iter().map(|r| r.to_string()).collect(),
        container_name: container_name.to_string(),
        container_port,
        healthcheck_path: "/".to_string(),
        app_type,
        description: None,
        nginx_extra_config: None,
        path: path.map(|p| p.to_string()),
        docker_volumes: vec![],
        run_as_user: None,
        proxy_connect_timeout: None,
        proxy_read_timeout: None,
        proxy_send_timeout: None,
    }
}

fn config(scan_dirs: Vec<String>, apps: Vec<AppConfig>) -> ProxyConfig {
    ProxyConfig {
        scan_dirs,
        nginx_config_path: "./nginx.conf".to_string(),
        compose_config_path: "./docker-compose.yml".to_string(),
        state_file_path: "./state".to_string(),
        network_list_path: "./network.txt".to_string(),
        network_name: "test-network".to_string(),
        nginx_host_port: 8080,
        web_root: default_web_root(),
        cert_dir: default_cert_dir(),
        domain: None,
        apps,
    }
}

fn present(n: usize) -> Vec<PathStatus> {
    vec![
        PathStatus {
            exists: true,
            dockerfile_exists: true
        };
        n
    ]
}

#[test]
fn test_default_web_root() {
    let config = config(vec!["./apps".to_string()], vec![]);
    assert_eq!(config.web_root, "/var/www/html");
}

#[test]
fn test_default_cert_dir() {
    let config = config(vec!["./apps".to_string()], vec![]);
    assert_eq!(config.cert_dir, "/etc/nginx/certs");
}

#[test]
fn test_validate_empty_scan_dirs() {
    let config = config(vec![], vec![]);
    let result = config.validate(&[], &[]);
    assert!(result.is_err());
    assert_eq!(result.unwrap_err().message(), "scan_dirs 不能为空");
}

#[test]
fn test_validate_duplicate_app_names() {
    let config = config(
        vec!["./apps".to_string()],
        vec![
            app("test-app", &["/"], "test-container", 80, AppType::Static, None),
            app("test-app", &["/api"], "test-container-2", 8080, AppType::Api, None),
        ],
    );

    let result = config.validate(&["test-app".to_string()], &present(2));
    assert!(result.is_err());
    assert!(result.unwrap_err().to_string().contains("重复的应用名称"));
}

#[test]
fn test_validate_static_app_not_found() {
    let config = config(
        vec!["./apps".to_string()],
        vec![app("test-app", &["/"], "test-container", 80, AppType::Static, None)],
    );

    let result = config.validate(&[], &present(1));
    assert!(result.is_err());
    assert_eq!(result.unwrap_err().message(), "应用 'test-app' 未在扫描目录中找到");
}

#[test]
fn test_validate_internal_app_missing_path() {
    let config = config(
        vec!["./apps".to_string()],
        vec![app("redis", &[], "redis-container", 6379, AppType::Internal, None)],
    );

    let result = config.validate(&[], &present(1));
    assert!(result.is_err());
    assert_eq!(
        result.unwrap_err().message(),
        "Internal 应用 'redis' 必须配置 path 字段"
    );
}

#[test]
fn test_validate_success() {
    let config = config(
        vec!["./apps".to_string()],
        vec![
            app("test-app", &["/"], "test-container", 80, AppType::Static, None),
            app(
                "redis",
                &[],
                "redis-container",
                6379,
                AppType::Internal,
                Some("/tmp/redis"),
            ),
        ],
    );

    let result = config.validate(&["test-app".to_string()], &present(2));
    assert!(result.is_ok());
}

#[test]
fn test_validate_internal_path_missing_and_dockerfile_missing() {
    let config = config(
        vec!["./apps".to_string()],
        vec![app("redis", &[], "r", 6379, AppType::Internal, Some("./services/redis"))],
    );
    let missing = [PathStatus { exists: false, dockerfile_exists: false }];
    let e = config.validate(&[], &missing).unwrap_err();
    assert_eq!(e.kind(), ErrorKind::Config);
    assert_eq!(
        e.message(),
        "Internal 应用 'redis' 的路径不存在: \"./services/redis\""
    );
    let no_dockerfile = [PathStatus { exists: true, dockerfile_exists: false }];
    let e = config.validate(&[], &no_dockerfile).unwrap_err();
    assert_eq!(
        e.message(),
        "Internal 应用 'redis' 的路径中未找到 Dockerfile: \"./services/redis/Dockerfile\""
    );
}

#[test]
fn test_validate_empty_routes() {
    let config = config(
        vec!["./apps".to_string()],
        vec![app("web", &[], "web", 80, AppType::Static, None)],
    );
    let e = config.validate(&["web".to_string()], &present(1)).unwrap_err();
    assert_eq!(e.message(), "应用 'web' 的 routes 不能为空");
}

#[test]
fn test_get_app_config() {
    let config = config(
        vec!["./apps".to_string()],
        vec![
            app("test-app", &["/"], "test-container", 80, AppType::Static, None),
            app(
                "redis",
                &[],
                "redis-container",
                6379,
                AppType::Internal,
                Some("./services/redis"),
            ),
        ],
    );

    let app = config.get_app_config("test-app");
    assert!(app.is_some());
    assert_eq!(app.unwrap().name, "test-app");

    let app = config.get_app_config("redis");
    assert!(app.is_some());
    assert_eq!(app.unwrap().name, "redis");

    let app = config.get_app_config("non-existent");
    assert!(app.is_none());
}

#[test]
fn test_get_nginx_apps() {
    let config = config(
        vec!["./apps".to_string()],
        vec![
            app("test-app", &["/"], "test-container", 80, AppType::Static, None),
            app(
                "redis",
                &[],
                "redis-container",
                6379,
                AppType::Internal,
                Some("./services/redis"),
            ),
        ],
    );

    let nginx_apps = config.get_nginx_apps();
    assert_eq!(nginx_apps.len(), 1);
    assert_eq!(nginx_apps[0].name, "test-app");
}

#[test]
fn test_get_internal_apps() {
    let config = config(
        vec!["./apps".to_string()],
        vec![
            app("test-app", &["/"], "test-container", 80, AppType::Static, None),
            app(
                "redis",
                &[],
                "redis-container",
                6379,
                AppType::Internal,
                Some("./services/redis"),
            ),
        ],
    );

    let internal_apps = config.get_internal_apps();
    assert_eq!(internal_apps.len(), 1);
    assert_eq!(internal_apps[0].name, "redis");
}

#[test]
fn test_nginx_and_internal_apps_partition_all() {
    let config = config(
        vec!["./apps".to_string()],
        vec![
            app("a", &["/"], "a", 80, AppType::Static, None),
            app("b", &[], "b", 1, AppType::Internal, Some("./b")),
            app("c", &["/c"], "c", 81, AppType::Api, None),
        ],
    );
    assert_eq!(config.get_nginx_apps().len() + config.get_internal_apps().len(), 3);
}

#[test]
fn test_join_path() {
    assert_eq!(join_path("./a", "Dockerfile"), "./a/Dockerfile");
    assert_eq!(join_path("./a/", "Dockerfile"), "./a/Dockerfile");
    assert_eq!(join_path("", "Dockerfile"), "Dockerfile");
}

#[test]
fn test_get_nginx_apps_includes_routed_internal_app() {
    let config = config(
        vec!["./apps".to_string()],
        vec![
            app("minio", &["/minio"], "minio-container", 9000, AppType::Internal, Some("./services/minio")),
            app("redis", &[], "redis-container", 6379, AppType::Internal, Some("./services/redis")),
        ],
    );
    let nginx_apps = config.get_nginx_apps();
    assert_eq!(nginx_apps.len(), 1);
    assert_eq!(nginx_apps[0].name, "minio");
}
