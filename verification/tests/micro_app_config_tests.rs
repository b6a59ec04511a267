use micro_proxy::micro_app_config::{
    default_healthcheck_path, default_package_type, validate_build_platform,
    validate_healthcheck_path, validate_route_format, MicroAppConfig,
};

fn config(routes: &[&str], container_name: &str, container_port: u16, app_type: &str) -> MicroAppConfig {
    MicroAppConfig {
        package_type: "source".to_string(),
        image_archive: None,
        registry_image: None,
        build_platform: None,
        routes: routes.iter().map(|r| r.to_string()).collect(),
        container_name: container_name.to_string(),
        container_port,
        healthcheck_path: "/".to_string(),
        app_type: app_type.to_string(),
        description: None,
        nginx_extra_config: None,
        proxy_connect_timeout: None,
        proxy_read_timeout: None,
        proxy_send_timeout: None,
    }
}

#[test]
fn test_validate_build_platform_rejects_non_linux_or_incomplete_values() {
    assert!(validate_build_platform("amd64").is_err());
    assert!(validate_build_platform("darwin/arm64").is_err());
    assert!(validate_build_platform("linux/").is_err());
}

#[test]
fn test_validate_build_platform_accepts_arch_and_variant() {
    assert!(validate_build_platform("linux/amd64").is_ok());
    assert!(validate_build_platform("linux/arm64/v8").is_ok());
    assert_eq!(
        validate_build_platform("linux/a/b/c").unwrap_err().message(),
        "build_platform 'linux/a/b/c' 必须采用 linux/<arch> 或 linux/<arch>/<variant> 格式"
    );
    assert_eq!(
        validate_build_platform("linux/arm 64").unwrap_err().message(),
        "build_platform 'linux/arm 64' 包含无效的平台组件"
    );
}

#[test]
fn test_micro_app_config_rejects_image_package_without_archive() {
    let mut config = config(&["/"], "test-container", 80, "static");
    config.package_type = "image".to_string();

    assert!(config.validate("test-app").is_err());
}

#[test]
fn test_micro_app_config_package_rules() {
    let mut c = config(&["/"], "c", 80, "static");
    c.package_type = "zip".to_string();
    assert_eq!(
        c.validate("a").unwrap_err().message(),
        "微应用 'a' 的 package_type 'zip' 无效，必须是 source、image 或 registry"
    );
    let mut c = config(&["/"], "c", 80, "static");
    c.package_type = "registry".to_string();
    assert_eq!(
        c.validate("a").unwrap_err().message(),
        "微应用 'a' 使用 registry 包时必须配置 image"
    );
    c.registry_image = Some("postgres:15-alpine".to_string());
    assert!(c.validate("a").is_ok());
    let mut c = config(&["/"], "c", 80, "static");
    c.registry_image = Some("x".to_string());
    assert_eq!(
        c.validate("a").unwrap_err().message(),
        "微应用 'a' 仅 registry 包可以配置 image"
    );
    let mut c = config(&["/"], "c", 80, "static");
    c.package_type = "image".to_string();
    c.image_archive = Some("app.tar".to_string());
    c.build_platform = Some("linux/amd64".to_string());
    assert_eq!(
        c.validate("a").unwrap_err().message(),
        "微应用 'a' 使用 image 包时不能配置 build_platform"
    );
}

#[test]
fn test_micro_app_config_validate_success() {
    let config = config(&["/"], "test-container", 80, "static");
    let result = config.validate("test-app");
    assert!(result.is_ok());
}

#[test]
fn test_micro_app_config_validate_rejects_healthcheck_path_without_leading_slash() {
    let mut config = config(&["/"], "test-container", 80, "static");
    config.healthcheck_path = "healthz".to_string();

    let result = config.validate("test-app");
    assert!(result.is_err());
    assert!(result.unwrap_err().to_string().contains("healthcheck_path"));
}

#[test]
fn test_micro_app_config_validate_empty_container_name() {
    let config = config(&["/"], "", 80, "static");
    let result = config.validate("test-app");
    assert!(result.is_err());
    assert!(result.unwrap_err().to_string().contains("container_name 不能为空"));
}

#[test]
fn test_micro_app_config_validate_zero_port() {
    let config = config(&["/"], "test-container", 0, "static");
    let result = config.validate("test-app");
    assert!(result.is_err());
    assert!(result.unwrap_err().to_string().contains("container_port 不能为 0"));
}

#[test]
fn test_micro_app_config_validate_invalid_app_type() {
    let config = config(&["/"], "test-container", 80, "invalid");
    let result = config.validate("test-app");
    assert!(result.is_err());
    assert!(result.unwrap_err().to_string().contains("app_type"));
}

#[test]
fn test_micro_app_config_validate_empty_routes_for_static() {
    let config = config(&[], "test-container", 80, "static");
    let result = config.validate("test-app");
    assert!(result.is_err());
    assert!(result.unwrap_err().to_string().contains("routes 不能为空"));
}

#[test]
fn test_micro_app_config_validate_internal_with_routes() {
    let config = config(&["/"], "test-container", 6379, "internal");
    let result = config.validate("test-app");
    assert!(result.is_ok());
}

#[test]
fn test_validate_route_format_valid_root() {
    assert!(validate_route_format("/").is_ok());
}

#[test]
fn test_validate_route_format_valid_path() {
    assert!(validate_route_format("/api").is_ok());
    assert!(validate_route_format("/gg123_test").is_ok());
    assert!(validate_route_format("/a/b/c").is_ok());
}

#[test]
fn test_validate_route_format_trailing_slash() {
    let result = validate_route_format("/gg123_test/");
    assert!(result.is_err());
    assert!(result.unwrap_err().to_string().contains("/gg123_test/"));
}

#[test]
fn test_validate_route_format_trailing_slash_root() {
    assert!(validate_route_format("/").is_ok());
}

#[test]
fn test_validate_route_format_empty() {
    let result = validate_route_format("");
    assert!(result.is_err());
}

#[test]
fn test_validate_route_format_no_leading_slash() {
    let result = validate_route_format("api");
    assert!(result.is_err());
    assert_eq!(result.unwrap_err().message(), "路由 'api' 必须以 '/' 开头");
}

#[test]
fn test_validate_route_in_micro_app_config() {
    let config = config(&["/gg123_test/"], "test-container", 80, "static");
    let result = config.validate("test-app");
    assert!(result.is_err());
    assert!(result.unwrap_err().to_string().contains("/gg123_test/"));
}

#[test]
fn test_validate_healthcheck_path_messages() {
    assert!(validate_healthcheck_path("/health").is_ok());
    assert_eq!(
        validate_healthcheck_path("").unwrap_err().message(),
        "healthcheck_path 不能为空"
    );
}

#[test]
fn test_defaults() {
    assert_eq!(default_healthcheck_path(), "/");
    assert_eq!(default_package_type(), "source");
}
