use micro_proxy::config::AppType;
use micro_proxy::network::{generate_network_list, network_in_listing, NetworkAddressInfo};

#[test]
fn test_network_address_info_new_static() {
    let info = NetworkAddressInfo::new(
        "test-app".to_string(),
        "test-container".to_string(),
        80,
        &["/".to_string(), "/api".to_string()],
        8080,
        &AppType::Static,
    );

    assert_eq!(info.app_name, "test-app");
    assert_eq!(info.container_name, "test-container");
    assert_eq!(info.network_address, "test-app");
    assert_eq!(info.container_port, 80);
    assert_eq!(info.accessible_urls.len(), 2);
    assert_eq!(info.accessible_urls[0], "http://localhost:8080");
    assert_eq!(info.accessible_urls[1], "http://localhost:8080/api");
}

#[test]
fn test_network_address_info_new_internal() {
    let info = NetworkAddressInfo::new(
        "redis".to_string(),
        "redis-container".to_string(),
        6379,
        &[],
        8080,
        &AppType::Internal,
    );

    assert_eq!(info.app_name, "redis");
    assert_eq!(info.container_name, "redis-container");
    assert_eq!(info.network_address, "redis");
    assert_eq!(info.container_port, 6379);
    assert_eq!(info.accessible_urls.len(), 0);
}

#[test]
fn test_network_address_info_format_static() {
    let info = NetworkAddressInfo::new(
        "test-app".to_string(),
        "test-container".to_string(),
        80,
        &["/".to_string()],
        8080,
        &AppType::Static,
    );

    let formatted = info.format();
    assert!(formatted.contains("微应用名称: test-app"));
    assert!(formatted.contains("容器名称: test-container"));
    assert!(formatted.contains("网络地址: test-app"));
    assert!(formatted.contains("容器端口: 80"));
    assert!(formatted.contains("访问地址:"));
    assert!(formatted.contains("http://localhost:8080"));
}

#[test]
fn test_network_address_info_format_exact() {
    let info = NetworkAddressInfo::new(
        "a".to_string(),
        "c".to_string(),
        80,
        &["/x".to_string()],
        8080,
        &AppType::Api,
    );
    assert_eq!(
        info.format(),
        "微应用名称: a\n容器名称: c\n网络地址: a\n容器端口: 80\n访问地址:\n  - http://localhost:8080/x\n"
    );
}

#[test]
fn test_network_address_info_format_internal() {
    let info = NetworkAddressInfo::new(
        "redis".to_string(),
        "redis-container".to_string(),
        6379,
        &[],
        8080,
        &AppType::Internal,
    );

    let formatted = info.format();
    assert!(formatted.contains("微应用名称: redis"));
    assert!(formatted.contains("容器名称: redis-container"));
    assert!(formatted.contains("网络地址: redis"));
    assert!(formatted.contains("容器端口: 6379"));
    assert!(formatted.contains("访问地址: 无（内部服务）"));
}

fn two_infos() -> Vec<NetworkAddressInfo> {
    vec![
        NetworkAddressInfo::new(
            "app1".to_string(),
            "container1".to_string(),
            80,
            &["/".to_string()],
            8080,
            &AppType::Static,
        ),
        NetworkAddressInfo::new(
            "redis".to_string(),
            "redis-container".to_string(),
            6379,
            &[],
            8080,
            &AppType::Internal,
        ),
    ]
}

#[test]
fn test_generate_network_list() {
    let infos = two_infos();
    let content = generate_network_list(&infos, "test-network", 8080, "2024-01-01T00:00:00+00:00");
    assert!(content.contains("微应用网络地址列表"));
    assert!(content.contains("网络名称: test-network"));
    assert!(content.contains("微应用名称: app1"));
    assert!(content.contains("微应用名称: redis"));
    assert!(content.contains("微应用间通信示例"));
    assert!(content.contains("访问地址: 无（内部服务）"));
}

#[test]
fn test_generate_network_list_exact() {
    let infos = two_infos();
    let content = generate_network_list(&infos, "net", 8080, "T");
    let expected = "# 微应用网络地址列表\n# 生成时间: T\n# 网络名称: net\n# Nginx统一入口: http://localhost:8080\n\n\
微应用名称: app1\n容器名称: container1\n网络地址: app1\n容器端口: 80\n访问地址:\n  - http://localhost:8080\n\n\
微应用名称: redis\n容器名称: redis-container\n网络地址: redis\n容器端口: 6379\n访问地址: 无（内部服务）\n\n\
# 微应用间通信示例\n\
# app1 可以通过 http://redis:6379 访问 redis\n\
# redis 可以通过 http://app1:80 访问 app1\n";
    assert_eq!(content, expected);
}

#[test]
fn test_network_list_single_app_has_no_examples() {
    let infos = vec![NetworkAddressInfo::new("a".to_string(), "c".to_string(), 1, &[], 2, &AppType::Internal)];
    let content = generate_network_list(&infos, "n", 2, "t");
    assert!(content.ends_with("# 微应用间通信示例\n"));
}

#[test]
fn test_network_in_listing_matches_whole_lines() {
    assert!(network_in_listing("my-net-2\n  my-net  \n", "my-net"));
    assert!(!network_in_listing("my-net-2\nother\n", "my-net"));
    assert!(!network_in_listing("", "my-net"));
}

#[test]
fn test_network_address_info_routed_internal_has_url() {
    let info = NetworkAddressInfo::new(
        "minio".to_string(),
        "minio-container".to_string(),
        9000,
        &["/minio".to_string()],
        8080,
        &AppType::Internal,
    );
    assert_eq!(info.accessible_urls, vec!["http://localhost:8080/minio".to_string()]);
}
