use micro_proxy::compose::{generate_compose_config, generate_compose_config_with_images, ComposeConfig, ComposeService};
use micro_proxy::config::{AppConfig, AppType};
use micro_proxy::named_map::NamedMap;

fn app(name: &str, routes: &[&str], container_name: &str, container_port: u16, app_type: AppType, path: Option<&str>) -> AppConfig {
    AppConfig {
        name: name.to_string(),
        routes: routes.iter().map(|r| r.to_string()).collect(),
        container_name: container_name.to_string(),
        container_port,
        healthcheck_path: "/".to_string(),
        app_type,
        description: None,
        nginx_extra_config: None,
        path: path.map(|p| p.to_string()),
        docker_volumes: vec![],
        run_as_user: None,
        proxy_connect_timeout: None,
        proxy_read_timeout: None,
        proxy_send_timeout: None,
    }
}

fn service<'a>(config: &'a ComposeConfig, key: &str) -> &'a ComposeService {
    config.services.iter().find(|s| s.key == key).unwrap()
}

fn has_service(config: &ComposeConfig, key: &str) -> bool {
    config.services.iter().any(|s| s.key == key)
}

fn any_healthcheck_test(config: &ComposeConfig, text: &str) -> bool {
    config
        .services
        .iter()
        .any(|s| s.healthcheck.as_ref().map(|h| h.test.contains(text)).unwrap_or(false))
}

#[test]
fn test_generate_compose_config() {
    let apps = vec![
        app("main-app", &["/"], "main-container", 80, AppType::Static, None),
        app("api-service", &["/api"], "api-container", 3000, AppType::Api, None),
    ];

    let mut env_files = NamedMap::new();
    env_files.insert("main-app".to_string(), "./micro-apps/main-app/.env".to_string());
    env_files.insert("api-service".to_string(), "./micro-apps/api-service/.env".to_string());

    let config = generate_compose_config(&apps, "test-network", 8080, &env_files);

    assert!(has_service(&config, "nginx"));
    assert!(has_service(&config, "main-container"));
    assert!(has_service(&config, "api-container"));
    assert_eq!(config.network_name, "test-network");
    let nginx = service(&config, "nginx");
    assert_eq!(nginx.ports, vec!["8080:80"]);
    assert_eq!(nginx.depends_on, vec!["main-container", "api-container"]);
    assert_eq!(nginx.networks, vec!["test-network"]);
    assert_eq!(
        service(&config, "main-container").env_file.as_deref(),
        Some("./micro-apps/main-app/.env")
    );
    assert_eq!(
        service(&config, "api-container").env_file.as_deref(),
        Some("./micro-apps/api-service/.env")
    );
}

#[test]
fn test_generate_compose_config_with_internal() {
    let apps = vec![
        app("main-app", &["/"], "main-container", 80, AppType::Static, None),
        app("redis", &[], "redis-container", 6379, AppType::Internal, Some("./services/redis")),
        app("api-service", &["/api"], "api-container", 3000, AppType::Api, None),
    ];

    let mut env_files = NamedMap::new();
    env_files.insert("main-app".to_string(), "./micro-apps/main-app/.env".to_string());
    env_files.insert("redis".to_string(), "./services/redis/.env".to_string());
    env_files.insert("api-service".to_string(), "./micro-apps/api-service/.env".to_string());

    let config = generate_compose_config(&apps, "test-network", 8080, &env_files);

    assert!(has_service(&config, "nginx"));
    assert!(has_service(&config, "main-container"));
    assert!(has_service(&config, "redis-container"));
    assert!(has_service(&config, "api-container"));

    let nginx = service(&config, "nginx");
    assert_eq!(nginx.depends_on, vec!["main-container", "api-container"]);

    assert!(any_healthcheck_test(&config, "wget --quiet --tries=1 --spider http://localhost:80"));
    assert!(any_healthcheck_test(&config, "wget --quiet --tries=1 --spider http://localhost:3000"));
    assert!(!any_healthcheck_test(&config, "wget --quiet --tries=1 --spider http://localhost:6379"));
    assert!(service(&config, "redis-container").healthcheck.is_none());

    assert_eq!(
        service(&config, "redis-container").env_file.as_deref(),
        Some("./services/redis/.env")
    );
}

#[test]
fn compose_test_only_internal_apps() {
    let apps = vec![app("redis", &[], "redis-container", 6379, AppType::Internal, Some("./services/redis"))];

    let mut env_files = NamedMap::new();
    env_files.insert("redis".to_string(), "./services/redis/.env".to_string());

    let config = generate_compose_config(&apps, "test-network", 8080, &env_files);

    assert!(has_service(&config, "nginx"));
    assert!(has_service(&config, "redis-container"));
    assert!(service(&config, "nginx").depends_on.is_empty());
    assert!(config.services.iter().all(|s| s.healthcheck.is_none()));
    assert_eq!(
        service(&config, "redis-container").env_file.as_deref(),
        Some("./services/redis/.env")
    );
}

#[test]
fn test_compose_service_details() {
    let apps = vec![app("web", &["/"], "web-c", 8000, AppType::Static, None)];
    let config = generate_compose_config(&apps, "net", 80, &NamedMap::new());
    assert_eq!(config.services.len(), 2);
    assert_eq!(config.services[0].key, "nginx");
    let web = &config.services[1];
    assert_eq!(web.image, "web:latest");
    assert_eq!(web.restart, "unless-stopped");
    assert!(web.env_file.is_none());
    let h = web.healthcheck.as_ref().unwrap();
    assert_eq!(h.test, "CMD-SHELL, wget --quiet --tries=1 --spider http://localhost:8000 || exit 1");
    assert_eq!(h.retries, 3);
}

#[test]
fn test_compose_repeated_container_replaces_service() {
    let apps = vec![
        app("a", &["/a"], "same", 1, AppType::Api, None),
        app("b", &["/b"], "same", 2, AppType::Api, None),
    ];
    let config = generate_compose_config(&apps, "net", 80, &NamedMap::new());
    assert_eq!(config.services.len(), 2);
    assert_eq!(config.services[1].image, "b:latest");
}

#[test]
fn test_compose_services_run_given_images() {
    let apps = vec![
        app("web", &["/"], "web-c", 80, AppType::Static, None),
        app("api", &["/api"], "api-c", 3000, AppType::Api, None),
    ];
    let mut images = NamedMap::new();
    images.insert("api".to_string(), "api:sha-0123456789ab".to_string());
    let config = generate_compose_config_with_images(&apps, "net", 80, &NamedMap::new(), &images);
    assert_eq!(service(&config, "api-c").image, "api:sha-0123456789ab");
    assert_eq!(service(&config, "web-c").image, "web:latest");
}

#[test]
fn test_nginx_depends_on_routed_internal_app() {
    let apps = vec![
        app("minio", &["/minio"], "minio-c", 9000, AppType::Internal, Some("./minio")),
        app("redis", &[], "redis-c", 6379, AppType::Internal, Some("./redis")),
    ];
    let config = generate_compose_config(&apps, "net", 80, &NamedMap::new());
    assert_eq!(service(&config, "nginx").depends_on, vec!["minio-c".to_string()]);
}

#[test]
fn test_app_service_mounts_volumes_and_sets_user() {
    let mut db = app("db", &[], "db-c", 27017, AppType::Internal, Some("./db"));
    db.docker_volumes = vec!["./db/data:/data/db".to_string()];
    db.run_as_user = Some("999:999".to_string());
    let config = generate_compose_config(&[db], "net", 80, &NamedMap::new());
    let s = service(&config, "db-c");
    assert_eq!(s.volumes, vec!["./db/data:/data/db".to_string()]);
    assert_eq!(s.user.as_deref(), Some("999:999"));
    assert_eq!(service(&config, "nginx").user, None);
}
