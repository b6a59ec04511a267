use micro_proxy::{Error, ErrorKind};

#[test]
fn test_error_text_has_kind_heading() {
    assert_eq!(Error::Config("x".to_string()).to_string(), "配置错误: x");
    assert_eq!(Error::Dockerfile("y".to_string()).to_string(), "Dockerfile解析错误: y");
    assert_eq!(Error::Compose("z".to_string()).kind(), ErrorKind::Compose);
    assert_eq!(Error::Network("n".to_string()).message(), "n");
}
