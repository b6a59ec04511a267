use micro_proxy::volumes_config::{default_recursive, VolumeConfig, VolumePermissions, VolumesConfig};

fn volume(source: &str, target: &str, permissions: Option<VolumePermissions>) -> VolumeConfig {
    VolumeConfig {
        source: source.to_string(),
        target: target.to_string(),
        permissions,
    }
}

#[test]
fn test_volumes_config_validate_success() {
    let config = VolumesConfig {
        volumes: vec![volume(
            "./data",
            "/app/data",
            Some(VolumePermissions {
                uid: 999,
                gid: 999,
                recursive: true,
            }),
        )],
        run_as_user: Some("999:999".to_string()),
    };

    let result = config.validate("test-app");
    assert!(result.is_ok());
}

#[test]
fn test_volumes_config_validate_empty_source() {
    let config = VolumesConfig {
        volumes: vec![volume("", "/app/data", None)],
        run_as_user: None,
    };

    let result = config.validate("test-app");
    assert!(result.is_err());
    assert!(result.unwrap_err().to_string().contains("source 不能为空"));
}

#[test]
fn test_volumes_config_validate_empty_target() {
    let config = VolumesConfig {
        volumes: vec![volume("./data", "", None)],
        run_as_user: None,
    };

    let result = config.validate("test-app");
    assert!(result.is_err());
    assert!(result.unwrap_err().to_string().contains("target 不能为空"));
}

#[test]
fn test_volumes_config_validate_reports_position() {
    let config = VolumesConfig {
        volumes: vec![volume("./a", "/a", None), volume("./b", "", None)],
        run_as_user: None,
    };
    assert_eq!(
        config.validate("app").unwrap_err().message(),
        "应用 'app' 的第 2 个卷配置中 target 不能为空"
    );
}

#[test]
fn test_volumes_config_validate_empty_run_as_user() {
    let config = VolumesConfig {
        volumes: vec![],
        run_as_user: Some("".to_string()),
    };

    let result = config.validate("test-app");
    assert!(result.is_err());
    assert!(result.unwrap_err().to_string().contains("run_as_user 不能为空"));
}

#[test]
fn test_generate_permission_init_script() {
    let config = VolumesConfig {
        volumes: vec![
            volume(
                "./data",
                "/app/data",
                Some(VolumePermissions {
                    uid: 999,
                    gid: 999,
                    recursive: true,
                }),
            ),
            volume(
                "./logs",
                "/var/log/app",
                Some(VolumePermissions {
                    uid: 1000,
                    gid: 1000,
                    recursive: false,
                }),
            ),
        ],
        run_as_user: Some("999:999".to_string()),
    };

    let script = config.generate_permission_init_script().unwrap();
    assert!(script.contains("#!/bin/sh"));
    assert!(script.contains("chown -R 999:999 \"./data\""));
    assert!(script.contains("chown 1000:1000 \"./logs\""));
}

#[test]
fn test_generate_permission_init_script_exact() {
    let config = VolumesConfig {
        volumes: vec![
            volume("./a", "/a", Some(VolumePermissions { uid: 1, gid: 2, recursive: true })),
            volume("./b", "/b", None),
            volume("./c", "/c", Some(VolumePermissions { uid: 0, gid: 0, recursive: false })),
        ],
        run_as_user: None,
    };
    let expected = "#!/bin/sh\n# Docker 容器权限初始化脚本\n# 由 proxy-config 自动生成\n\nset -e\n\necho \"开始设置卷权限...\"\n\nchown -R 1:2 \"./a\"\nchown 0:0 \"./c\"\n\necho \"卷权限设置完成\"\n";
    assert_eq!(config.generate_permission_init_script().unwrap(), expected);
}

#[test]
fn test_generate_permission_init_script_no_volumes() {
    let config = VolumesConfig {
        volumes: vec![],
        run_as_user: None,
    };

    let script = config.generate_permission_init_script();
    assert!(script.is_none());
}

#[test]
fn test_generate_permission_init_script_no_permissions() {
    let config = VolumesConfig {
        volumes: vec![volume("./data", "/app/data", None)],
        run_as_user: None,
    };

    let script = config.generate_permission_init_script();
    assert!(script.is_none());
}

#[test]
fn test_to_docker_compose_volumes() {
    let config = VolumesConfig {
        volumes: vec![
            volume("./data", "/app/data", None),
            volume("./logs", "/var/log/app", None),
        ],
        run_as_user: None,
    };

    let volumes = config.to_docker_compose_volumes();
    assert_eq!(volumes.len(), 2);
    assert_eq!(volumes[0], "./data:/app/data");
    assert_eq!(volumes[1], "./logs:/var/log/app");
}

#[test]
fn test_default_recursive() {
    let config = VolumesConfig {
        volumes: vec![volume(
            "./data",
            "/app/data",
            Some(VolumePermissions {
                uid: 999,
                gid: 999,
                recursive: default_recursive(),
            }),
        )],
        run_as_user: None,
    };

    assert!(config.volumes[0].permissions.as_ref().unwrap().recursive);
}
