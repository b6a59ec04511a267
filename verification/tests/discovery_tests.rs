use micro_proxy::config::{AppConfig, AppType};
use micro_proxy::discovery::{
    generate_unique_app_name, get_micro_app_info, get_micro_app_names, internal_micro_app,
    select_micro_apps, to_app_configs, DiscoveredDir, MicroApp, MicroAppSource,
};
use micro_proxy::micro_app_config::MicroAppConfig;
use micro_proxy::volumes_config::{VolumeConfig, VolumePermissions, VolumesConfig};
use micro_proxy::ErrorKind;

fn micro_config(routes: &[&str], container_name: &str, port: u16, app_type: &str) -> MicroAppConfig {
    MicroAppConfig {
        package_type: "source".to_string(),
        image_archive: None,
        registry_image: None,
        build_platform: None,
        routes: routes.iter().map(|r| r.to_string()).collect(),
        container_name: container_name.to_string(),
        container_port: port,
        healthcheck_path: "/".to_string(),
        app_type: app_type.to_string(),
        description: None,
        nginx_extra_config: None,
        proxy_connect_timeout: None,
        proxy_read_timeout: None,
        proxy_send_timeout: None,
    }
}

fn no_volumes() -> VolumesConfig {
    VolumesConfig { volumes: vec![], run_as_user: None }
}

fn loaded(name: &str, container: &str) -> MicroApp {
    MicroApp::from_directory(
        name.to_string(),
        format!("/scan/{}", name),
        micro_config(&["/"], container, 80, "static"),
        Ok(no_volumes()),
        false,
        false,
    )
    .unwrap()
}

fn found(name: &str, container: &str, dockerfile_exists: bool) -> DiscoveredDir {
    DiscoveredDir {
        name: Some(name.to_string()),
        app: Some(loaded(name, container)),
        dockerfile_exists,
    }
}

#[test]
fn test_generate_unique_app_name_same_level() {
    let name = generate_unique_app_name("/tmp/scan", "/tmp/scan/craftaidhub_front").unwrap();
    assert_eq!(name, "craftaidhub_front");
}

#[test]
fn test_generate_unique_app_name_nested() {
    let name = generate_unique_app_name("/tmp/scan", "/tmp/scan/apps/craftaidhub_front").unwrap();
    assert_eq!(name, "apps_craftaidhub_front");
}

#[test]
fn test_generate_unique_app_name_deeply_nested() {
    let name = generate_unique_app_name("/tmp/scan", "/tmp/scan/services/backend/api").unwrap();
    assert_eq!(name, "services_backend_api");
}

#[test]
fn test_generate_unique_app_name_outside_scan_dir() {
    let e = generate_unique_app_name("/tmp/scan", "/other/app").unwrap_err();
    assert_eq!(e.kind(), ErrorKind::Discovery);
    assert_eq!(
        e.message(),
        "无法计算相对路径：scan_dir=\"/tmp/scan\", app_dir=\"/other/app\", 错误：prefix not found"
    );
    let e = generate_unique_app_name("/tmp/scan", "/tmp/scan/..").unwrap_err();
    assert_eq!(e.message(), "无法获取应用目录名称：\"/tmp/scan/..\"");
}

#[test]
fn test_micro_app_from_directory() {
    let mut config = micro_config(&["/"], "test-container", 80, "static");
    config.description = Some("Test app".to_string());
    let micro_app = MicroApp::from_directory(
        "test-app".to_string(),
        "/tmp/x/test-app".to_string(),
        config,
        Ok(no_volumes()),
        true,
        false,
    )
    .unwrap();

    assert_eq!(micro_app.name, "test-app");
    assert_eq!(micro_app.path, "/tmp/x/test-app");
    assert_eq!(micro_app.dockerfile, "/tmp/x/test-app/Dockerfile");
    assert_eq!(micro_app.env_file, "/tmp/x/test-app/.env");
    assert_eq!(micro_app.config.container_name, "test-container");
    assert_eq!(micro_app.config.container_port, 80);
    assert_eq!(micro_app.config.app_type, "static");
    assert_eq!(micro_app.setup_script.as_deref(), Some("/tmp/x/test-app/setup.sh"));
    assert!(micro_app.clean_script.is_none());
    assert_eq!(micro_app.volumes_config.volumes.len(), 0);
    assert!(micro_app.volumes_config.run_as_user.is_none());
}

#[test]
fn test_micro_app_from_directory_checks_config_before_volumes() {
    let bad = micro_config(&["/"], "", 80, "static");
    let e = MicroApp::from_directory("a".to_string(), "/a".to_string(), bad, Ok(no_volumes()), false, false)
        .unwrap_err();
    assert_eq!(e.message(), "微应用 'a' 的 container_name 不能为空");
    let empty_user = VolumesConfig { volumes: vec![], run_as_user: Some(String::new()) };
    let e = MicroApp::from_directory(
        "a".to_string(),
        "/a".to_string(),
        micro_config(&["/"], "c", 80, "static"),
        Ok(empty_user),
        false,
        false,
    )
    .unwrap_err();
    assert_eq!(e.message(), "应用 'a' 的 run_as_user 不能为空字符串");
}

#[test]
fn test_micro_app_validate_success() {
    let micro_app = loaded("test-app", "test-container");
    assert!(micro_app.validate(true).is_ok());
}

#[test]
fn test_micro_app_validate_no_dockerfile() {
    let micro_app = loaded("test-app", "test-container");
    let result = micro_app.validate(false);
    assert!(result.is_err());
    assert_eq!(result.unwrap_err().message(), "微应用 'test-app' 缺少 Dockerfile");
}

#[test]
fn test_discover_micro_apps() {
    let found = vec![
        found("app1", "container1", true),
        found("app2", "container2", false),
        DiscoveredDir { name: None, app: None, dockerfile_exists: false },
    ];
    let apps = select_micro_apps(vec![], found).unwrap();
    assert_eq!(apps.len(), 1);
    assert_eq!(apps[0].name, "app1");
}

#[test]
fn test_discover_micro_apps_duplicate_name() {
    let first = select_micro_apps(vec![], vec![found("app1", "container1", true)]).unwrap();
    let result = select_micro_apps(first, vec![found("app1", "container2", true)]);
    assert!(result.is_err());
    assert!(result.unwrap_err().to_string().contains("重复的微应用名称"));
}

#[test]
fn test_discover_micro_apps_duplicate_container_name() {
    let result = select_micro_apps(
        vec![],
        vec![found("app1", "same-container", true), found("app2", "same-container", true)],
    );
    assert!(result.is_err());
    let e = result.unwrap_err();
    assert!(e.to_string().contains("重复的容器名称"));
    assert_eq!(e.message(), "发现重复的容器名称：'same-container', 微应用：'app2'");
}

#[test]
fn test_get_micro_app_names() {
    let apps = select_micro_apps(
        vec![],
        vec![found("app2", "container2", true), found("app1", "container1", true)],
    )
    .unwrap();
    let names = get_micro_app_names(&apps);
    assert_eq!(names, vec!["app2".to_string(), "app1".to_string()]);
}

#[test]
fn test_to_app_configs() {
    let mut config = micro_config(&["/"], "container1", 80, "static");
    config.description = Some("Test app".to_string());
    let volumes = VolumesConfig {
        volumes: vec![VolumeConfig {
            source: "./data".to_string(),
            target: "/app/data".to_string(),
            permissions: Some(VolumePermissions { uid: 999, gid: 999, recursive: true }),
        }],
        run_as_user: Some("999:999".to_string()),
    };
    let app = MicroApp::from_directory("app1".to_string(), "/scan/app1".to_string(), config, Ok(volumes), false, false)
        .unwrap();
    let app_configs = to_app_configs(&[app]);

    assert_eq!(app_configs.len(), 1);
    assert_eq!(app_configs[0].name, "app1");
    assert_eq!(app_configs[0].container_name, "container1");
    assert_eq!(app_configs[0].container_port, 80);
    assert_eq!(app_configs[0].routes, vec!["/"]);
    assert_eq!(app_configs[0].description, Some("Test app".to_string()));
    assert_eq!(app_configs[0].docker_volumes, vec!["./data:/app/data"]);
    assert_eq!(app_configs[0].run_as_user, Some("999:999".to_string()));
    assert!(app_configs[0].path.is_some());
    assert_eq!(app_configs[0].app_type, AppType::Static);
}

fn app_config(name: &str, app_type: AppType, path: Option<&str>) -> AppConfig {
    AppConfig {
        name: name.to_string(),
        routes: vec![],
        container_name: name.to_string(),
        container_port: 1,
        healthcheck_path: "/".to_string(),
        app_type,
        description: None,
        nginx_extra_config: None,
        path: path.map(|p| p.to_string()),
        docker_volumes: vec![],
        run_as_user: None,
        proxy_connect_timeout: None,
        proxy_read_timeout: None,
        proxy_send_timeout: None,
    }
}

#[test]
fn test_get_micro_app_info_cases() {
    let apps = vec![loaded("web", "web-c")];
    match get_micro_app_info(&app_config("web", AppType::Static, None), &apps).unwrap() {
        MicroAppSource::Discovered(a) => assert_eq!(a.config.container_name, "web-c"),
        MicroAppSource::InternalPath(_) => panic!("expected a discovered application"),
    }
    let e = get_micro_app_info(&app_config("api", AppType::Api, None), &apps).unwrap_err();
    assert_eq!(e.message(), "未找到微应用: api");
    match get_micro_app_info(&app_config("db", AppType::Internal, Some("./db")), &apps).unwrap() {
        MicroAppSource::InternalPath(p) => assert_eq!(p, "./db"),
        MicroAppSource::Discovered(_) => panic!("expected a path"),
    }
    let e = get_micro_app_info(&app_config("db", AppType::Internal, None), &apps).unwrap_err();
    assert_eq!(e.message(), "Internal 应用 'db' 必须配置 path 字段");
}

#[test]
fn test_internal_micro_app() {
    let app = internal_micro_app(
        "db".to_string(),
        "./services/db".to_string(),
        micro_config(&[], "db", 5432, "internal"),
        no_volumes(),
        false,
        true,
    )
    .unwrap();
    assert_eq!(app.dockerfile, "./services/db/Dockerfile");
    assert_eq!(app.clean_script.as_deref(), Some("./services/db/clean.sh"));
}
