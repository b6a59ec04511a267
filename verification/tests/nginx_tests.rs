use micro_proxy::config::{AppConfig, AppType};
use micro_proxy::nginx::{
    certificate_paths, check_ssl_certificates, format_app_type, generate_header,
    generate_location_config, generate_nginx_config, CertFiles,
};

const T: &str = "2024-01-01T00:00:00+00:00";

fn app(
    name: &str,
    routes: &[&str],
    container_name: &str,
    container_port: u16,
    app_type: AppType,
    nginx_extra_config: Option<&str>,
    path: Option<&str>,
) -> AppConfig {
    AppConfig {
        name: name.to_string(),
        routes: routes.iter().map(|r| r.to_string()).collect(),
        container_name: container_name.to_string(),
        container_port,
        healthcheck_path: "/".to_string(),
        app_type,
        description: None,
        nginx_extra_config: nginx_extra_config.map(|e| e.to_string()),
        path: path.map(|p| p.to_string()),
        docker_volumes: vec![],
        run_as_user: None,
        proxy_connect_timeout: None,
        proxy_read_timeout: None,
        proxy_send_timeout: None,
    }
}

fn no_certs() -> CertFiles {
    CertFiles { cer: false, crt: false, key: false }
}

#[test]
fn test_generate_header() {
    let header = generate_header("2024-01-01T00:00:00+00:00");
    assert!(header.contains("worker_processes auto;"));
    assert!(header.contains("resolver 127.0.0.11 valid=30s ipv6=off;"));
}

#[test]
fn test_generate_header_stamps_time() {
    let header = generate_header("2024-01-01T00:00:00+00:00");
    assert!(header.starts_with("# Nginx配置文件\n# 由proxy-config自动生成\n# 生成时间: 2024-01-01T00:00:00+00:00\n\nworker_processes auto;"));
    assert!(header.ends_with("    resolver 127.0.0.11 valid=30s ipv6=off;\n\n"));
}

#[test]
fn test_generate_location_config_static_root() {
    let app = app("test-app", &["/"], "test-container", 80, AppType::Static, None, None);

    let location = generate_location_config(&app, "/");
    assert!(location.contains("location /"));
    assert!(location.contains("proxy_pass http://${test-app_upstream_host}:80;"));
    assert!(!location.contains("proxy_pass http://${test-app_upstream_host}:80/;"));
    assert!(!location.contains("rewrite"));
    assert!(location.contains("expires 7d;"));
}

#[test]
fn test_generate_location_config_static_subpath() {
    let app = app("resume-app", &["/resume_app"], "resume-container", 80, AppType::Static, None, None);

    let location = generate_location_config(&app, "/resume_app");
    assert!(location.contains("location /resume_app"));
    assert!(location.contains("proxy_pass http://${resume-app_upstream_host}:80;"));
    assert!(!location.contains("proxy_pass http://${resume-app_upstream_host}:80/;"));
    assert!(location.contains("rewrite ^/resume_app(/.*)?$ /$1 break;"));
    assert!(location.contains("expires 7d;"));
}

#[test]
fn test_generate_location_config_api() {
    let app = app(
        "api-service",
        &["/api"],
        "api-container",
        3000,
        AppType::Api,
        Some("add_header 'Access-Control-Allow-Origin' '*';"),
        None,
    );

    let location = generate_location_config(&app, "/api");
    assert!(location.contains("location /api"));
    assert!(location.contains("proxy_pass http://${api-service_upstream_host}:3000;"));
    assert!(!location.contains("proxy_pass http://${api-service_upstream_host}:3000/;"));
    assert!(location.contains("expires off;"));
    assert!(location.contains("add_header 'Access-Control-Allow-Origin' '*';"));
}

#[test]
fn test_generate_location_config_api_extra_lines_indented() {
    let app = app("a", &["/a"], "c", 1, AppType::Api, Some("x on;\ny off;"), None);
    let location = generate_location_config(&app, "/a");
    assert!(location.ends_with("            x on;\n            y off;\n        }\n\n"));
}

#[test]
fn test_generate_location_config_internal_with_route_strips_prefix() {
    let app = app("minio", &["/minio"], "minio-container", 9000, AppType::Internal, Some("client_max_body_size 0;"), Some("./services/minio"));
    assert_eq!(
        generate_location_config(&app, "/minio"),
        "        # 内部服务: minio\n        location /minio {\n            rewrite ^/minio(/.*)?$ /$1 break;\n            proxy_pass http://${minio_upstream_host}:9000;\n            proxy_set_header Host $host;\n            proxy_set_header X-Real-IP $remote_addr;\n            proxy_set_header X-Forwarded-For $proxy_add_x_forwarded_for;\n            proxy_set_header X-Forwarded-Proto $scheme;\n\n            # 代理超时设置\n            proxy_connect_timeout 60s;\n            proxy_send_timeout 60s;\n            proxy_read_timeout 60s;\n            client_max_body_size 0;\n        }\n\n"
    );
}

#[test]
fn test_generate_location_config_api_configured_timeouts() {
    let mut app = app("api", &["/api"], "api-container", 3000, AppType::Api, None, None);
    app.proxy_read_timeout = Some(120);
    app.proxy_send_timeout = Some(30);
    let location = generate_location_config(&app, "/api");
    assert!(location.contains("proxy_connect_timeout 60s;"));
    assert!(location.contains("proxy_send_timeout 30s;"));
    assert!(location.contains("proxy_read_timeout 120s;"));
}

#[test]
fn test_generate_nginx_config_routed_internal_app() {
    let apps = vec![app("minio", &["/minio"], "minio-container", 9000, AppType::Internal, None, Some("./services/minio"))];
    let config = generate_nginx_config(&apps, "/var/www/html", "/etc/nginx/certs", &None, &no_certs(), T).unwrap();
    assert!(config.contains("set $minio_upstream_host minio-container;"));
    assert!(config.contains("location /minio {"));
    assert!(config.contains("rewrite ^/minio(/.*)?$ /$1 break;"));
    assert!(config.contains("proxy_pass http://${minio_upstream_host}:9000;"));
}

fn main_and_api() -> Vec<AppConfig> {
    vec![
        app("main-app", &["/"], "main-container", 80, AppType::Static, None, None),
        app("api-service", &["/api"], "api-container", 3000, AppType::Api, None, None),
    ]
}

#[test]
fn test_generate_nginx_config_http_only() {
    let apps = main_and_api();

    let config = generate_nginx_config(&apps, "/var/www/html", "/etc/nginx/certs", &None, &no_certs(), T).unwrap();

    println!("=== 完整生成的配置 (HTTP Only) ===");
    println!("{}", config);
    println!("=== 配置结束 ===");

    assert!(config.contains("worker_processes auto;"));
    assert!(config.contains("listen 80;"));
    assert!(!config.contains("listen 8080;"));
    assert!(!config.contains("listen 443 ssl;"));
    assert!(config.contains("location /"));
    assert!(config.contains("location /api"));

    assert!(config.contains("location /.well-known/acme-challenge/"));
    assert!(config.contains("root /var/www/html;"));

    assert!(config.contains("resolver 127.0.0.11 valid=30s ipv6=off;"));

    assert!(config.contains("set $main-app_upstream_host main-container;"));
    assert!(config.contains("set $api-service_upstream_host api-container;"));

    assert!(config.contains("proxy_pass http://${main-app_upstream_host}:80;"));
    assert!(config.contains("proxy_pass http://${api-service_upstream_host}:3000;"));

    assert!(!config.contains("upstream "));
    assert!(!config.contains("upstream {"));

    assert!(!config.contains("resolve "));

    assert!(!config.contains("return 404;"));

    let acme_pos = config
        .find("location /.well-known/acme-challenge/")
        .unwrap();
    let api_pos = config.find("location /api ").unwrap();
    let root_pos = config.find("location / ").unwrap();
    assert!(acme_pos < api_pos, "ACME location 应该在最前面");
    assert!(api_pos < root_pos, "location /api 应该在 location / 之前");

    assert!(config.ends_with("}\n"));
}

#[test]
fn test_generate_nginx_config_https() {
    let apps = main_and_api();
    let cert_dir = "/etc/ssl/site";
    let domain = "example.com";
    let certs = CertFiles { cer: true, crt: false, key: true };

    let config =
        generate_nginx_config(&apps, "/var/www/html", cert_dir, &Some(domain.to_string()), &certs, T).unwrap();

    println!("=== 完整生成的配置 (HTTPS) ===");
    println!("{}", config);
    println!("=== 配置结束 ===");

    assert!(config.contains("worker_processes auto;"));
    assert!(config.contains("listen 80;"));
    assert!(!config.contains("listen 8080;"));
    assert!(config.contains("return 301 https://$host$request_uri;"));
    assert!(config.contains("listen 443 ssl;"));
    assert!(config.contains(&format!("ssl_certificate {}/{}.cer", cert_dir, domain)));
    assert!(config.contains(&format!("ssl_certificate_key {}/{}.key", cert_dir, domain)));
    assert!(config.contains("location /"));
    assert!(config.contains("location /api"));
    assert!(config.contains("location /.well-known/acme-challenge/"));
    let acme_count = config.matches("location /.well-known/acme-challenge/").count();
    assert_eq!(acme_count, 1, "应该只有一个 ACME location (在 HTTP 块中)");
    assert!(config.contains("server_name example.com;"));
    assert!(config.ends_with("}\n"));
}

#[test]
fn test_https_needs_key_and_uses_crt_otherwise() {
    let apps = main_and_api();
    let no_key = CertFiles { cer: true, crt: false, key: false };
    let config = generate_nginx_config(&apps, "/w", "/c", &Some("d.io".to_string()), &no_key, T).unwrap();
    assert!(!config.contains("listen 443 ssl;"));
    let crt = CertFiles { cer: false, crt: true, key: true };
    let config = generate_nginx_config(&apps, "/w", "/c", &Some("d.io".to_string()), &crt, T).unwrap();
    assert!(config.contains("ssl_certificate /c/d.io.crt;"));
}

#[test]
fn test_generate_nginx_config_with_internal() {
    let apps = vec![
        app("main-app", &["/"], "main-container", 80, AppType::Static, None, None),
        app("redis", &[], "redis-container", 6379, AppType::Internal, None, Some("./services/redis")),
        app("api-service", &["/api"], "api-container", 3000, AppType::Api, None, None),
    ];

    let config = generate_nginx_config(&apps, "/var/www/html", "/etc/nginx/certs", &None, &no_certs(), T).unwrap();

    println!("=== 完整生成的配置 ===");
    println!("{}", config);
    println!("=== 配置结束 ===");

    assert!(config.contains("worker_processes auto;"));
    assert!(config.contains("listen 80;"));
    assert!(!config.contains("listen 8080;"));
    assert!(config.contains("location /"));
    assert!(config.contains("location /api"));

    assert!(config.contains("location /.well-known/acme-challenge/"));
    assert!(config.contains("root /var/www/html;"));

    assert!(config.contains("resolver 127.0.0.11 valid=30s ipv6=off;"));

    assert!(config.contains("set $main-app_upstream_host main-container;"));
    assert!(config.contains("set $api-service_upstream_host api-container;"));
    assert!(!config.contains("set $redis_upstream_host"));

    assert!(config.contains("proxy_pass http://${main-app_upstream_host}:80;"));
    assert!(config.contains("proxy_pass http://${api-service_upstream_host}:3000;"));

    assert!(!config.contains("upstream "));
    assert!(!config.contains("upstream {"));

    assert!(!config.contains("resolve "));

    assert!(!config.contains("return 404;"));

    let acme_pos = config
        .find("location /.well-known/acme-challenge/")
        .unwrap();
    let api_pos = config.find("location /api ").unwrap();
    let root_pos = config.find("location / ").unwrap();
    assert!(acme_pos < api_pos, "ACME location 应该在最前面");
    assert!(api_pos < root_pos, "location /api 应该在 location / 之前");

    assert!(config.ends_with("}\n"));
}

#[test]
fn test_generate_nginx_config_without_root_route() {
    let apps = vec![app("api-service", &["/api"], "api-container", 3000, AppType::Api, None, None)];

    let config = generate_nginx_config(&apps, "/var/www/html", "/etc/nginx/certs", &None, &no_certs(), T).unwrap();
    assert!(config.contains("return 404;"));
    assert!(config.contains("location /.well-known/acme-challenge/"));
    assert!(config.ends_with("}\n"));
}

#[test]
fn test_location_ordering() {
    let apps = vec![
        app("root-app", &["/"], "root-container", 80, AppType::Static, None, None),
        app("resume-app", &["/resume_app"], "resume-container", 80, AppType::Static, None, None),
        app("api-service", &["/api"], "api-container", 3000, AppType::Api, None, None),
    ];

    let config = generate_nginx_config(&apps, "/var/www/html", "/etc/nginx/certs", &None, &no_certs(), T).unwrap();

    let acme_pos = config
        .find("location /.well-known/acme-challenge/")
        .unwrap();
    let resume_pos = config.find("location /resume_app ").unwrap();
    let api_pos = config.find("location /api ").unwrap();
    let root_pos = config.find("location / ").unwrap();

    assert!(acme_pos < resume_pos, "ACME location 应该在最前面");
    assert!(
        resume_pos < api_pos,
        "location /resume_app 应该在 location /api 之前"
    );
    assert!(api_pos < root_pos, "location /api 应该在 location / 之前");

    assert!(config.ends_with("}\n"));
}

#[test]
fn test_location_ordering_keeps_equal_lengths_in_order() {
    let apps = vec![
        app("b", &["/bb"], "b", 1, AppType::Api, None, None),
        app("a", &["/aa"], "a", 1, AppType::Api, None, None),
    ];
    let config = generate_nginx_config(&apps, "/w", "/c", &None, &no_certs(), "t").unwrap();
    assert!(config.find("location /bb ").unwrap() < config.find("location /aa ").unwrap());
}

#[test]
fn test_static_rewrite_rule() {
    let app = app("resume-app", &["/resume_app"], "resume-container", 80, AppType::Static, None, None);

    let location = generate_location_config(&app, "/resume_app");

    assert!(location.contains("rewrite ^/resume_app(/.*)?$ /$1 break;"));
    assert!(location.contains("proxy_pass http://${resume-app_upstream_host}:80;"));
    assert!(!location.contains("proxy_pass http://${resume-app_upstream_host}:80/;"));
}

#[test]
fn test_api_preserves_path() {
    let app = app("api-service", &["/api"], "api-container", 3000, AppType::Api, None, None);

    let location = generate_location_config(&app, "/api");

    assert!(location.contains("proxy_pass http://${api-service_upstream_host}:3000;"));
    assert!(!location.contains("proxy_pass http://${api-service_upstream_host}:3000/;"));
    assert!(!location.contains("rewrite"));
}

#[test]
fn nginx_test_only_internal_apps() {
    let apps = vec![app("redis", &[], "redis-container", 6379, AppType::Internal, None, Some("./services/redis"))];

    let config = generate_nginx_config(&apps, "/var/www/html", "/etc/nginx/certs", &None, &no_certs(), T).unwrap();

    assert!(config.contains("worker_processes auto;"));
    assert!(config.contains("listen 80;"));
    assert!(!config.contains("listen 8080;"));
    assert!(config.contains("location /.well-known/acme-challenge/"));
    assert!(config.contains("return 404;"));
    assert!(!config.contains("set $"));

    assert!(config.ends_with("}\n"));
}

#[test]
fn test_unrouted_internal_apps_do_not_change_config() {
    let with = vec![
        app("a", &["/"], "a", 80, AppType::Static, None, None),
        app("r", &[], "r", 1, AppType::Internal, None, Some("./r")),
    ];
    let without = vec![app("a", &["/"], "a", 80, AppType::Static, None, None)];
    assert_eq!(
        generate_nginx_config(&with, "/w", "/c", &None, &no_certs(), "t").unwrap(),
        generate_nginx_config(&without, "/w", "/c", &None, &no_certs(), "t").unwrap()
    );
}

#[test]
fn test_acme_location() {
    let apps = vec![];

    let config = generate_nginx_config(&apps, "/custom/web/root", "/etc/nginx/certs", &None, &no_certs(), T).unwrap();

    assert!(config.contains("location /.well-known/acme-challenge/"));
    assert!(config.contains("root /custom/web/root;"));
    assert!(config.contains("default_type \"text/plain\";"));

    assert!(config.ends_with("}\n"));
}

#[test]
fn test_certificate_checks() {
    assert!(check_ssl_certificates(&CertFiles { cer: false, crt: true, key: true }));
    assert!(!check_ssl_certificates(&CertFiles { cer: true, crt: true, key: false }));
    let (cer, crt, key) = certificate_paths("/etc/certs", "a.io");
    assert_eq!(cer, "/etc/certs/a.io.cer");
    assert_eq!(crt, "/etc/certs/a.io.crt");
    assert_eq!(key, "/etc/certs/a.io.key");
    assert_eq!(format_app_type(&AppType::Internal), "Internal");
}

#[test]
fn test_generate_location_config_static_extra_lines() {
    let app = app("main-app", &["/"], "main-container", 80, AppType::Static, Some("add_header 'X-Custom-Header' 'value';"), None);
    let location = generate_location_config(&app, "/");
    assert!(location.ends_with(
        "            add_header Cache-Control \"public, immutable\";\n            add_header 'X-Custom-Header' 'value';\n        }\n\n"
    ));
}
