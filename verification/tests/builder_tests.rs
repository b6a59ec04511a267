use micro_proxy::builder::{build_image_args, image_listed, loaded_image_references};
use micro_proxy::container::{container_listed, container_status, create_container_args};

#[test]
fn test_loaded_image_references_extracts_tagged_images_only() {
    let output = "Loaded image: my-api:sha-a1b2c3\nLoaded image ID: sha256:abc\nLoaded image: helper:1.0\n";
    assert_eq!(
        loaded_image_references(output),
        vec!["my-api:sha-a1b2c3", "helper:1.0"]
    );
}

#[test]
fn test_loaded_image_references_trims_lines() {
    assert_eq!(loaded_image_references("  Loaded image: a:1  \r\n"), vec!["a:1"]);
    assert!(loaded_image_references("").is_empty());
}

#[test]
fn test_build_image_args_with_env_file() {
    let env = "# comment\nKEY=value\n\n  OTHER = x=y  \nNOEQUALS\n";
    let args = build_image_args("img:1", "./Dockerfile", ".", Some(env), true);
    assert_eq!(
        args,
        vec![
            "build",
            "-t",
            "img:1",
            "-f",
            "./Dockerfile",
            "--no-cache",
            "--build-arg",
            "KEY=value",
            "--build-arg",
            "OTHER = x=y",
            "."
        ]
    );
}

#[test]
fn test_build_image_args_plain() {
    let args = build_image_args("img", "D", "ctx", None, false);
    assert_eq!(args, vec!["build", "-t", "img", "-f", "D", "ctx"]);
}

#[test]
fn test_image_listed() {
    assert!(image_listed("abc123\n"));
    assert!(!image_listed(" \n\t"));
}

#[test]
fn test_create_container_args() {
    let args = create_container_args(
        "web",
        "web:1",
        "net",
        Some(vec![(8080, 80)]),
        Some(vec!["A=1".to_string()]),
    );
    assert_eq!(
        args,
        vec!["create", "--name", "web", "--network", "net", "-p", "8080:80", "-e", "A=1", "web:1"]
    );
    assert_eq!(
        create_container_args("a", "b", "c", None, None),
        vec!["create", "--name", "a", "--network", "c", "b"]
    );
}

#[test]
fn test_container_status_and_listing() {
    assert_eq!(container_status("  Up 2 hours \n"), Some("Up 2 hours".to_string()));
    assert_eq!(container_status("\n"), None);
    assert!(container_listed("api-1\nweb\n", "web"));
    assert!(!container_listed("api-1\n", "web"));
}
