use micro_proxy::dockerfile::{has_expose_instruction, parse_dockerfile_content};

#[test]
fn test_parse_dockerfile_content_with_expose() {
    let content = r#"
FROM nginx:alpine
EXPOSE 80 443
COPY . /usr/share/nginx/html
"#;

    let result = parse_dockerfile_content(content).unwrap();
    assert_eq!(result.exposed_ports, vec![80, 443]);
}

#[test]
fn test_parse_dockerfile_content_without_expose() {
    let content = r#"
FROM nginx:alpine
COPY . /usr/share/nginx/html
"#;

    let result = parse_dockerfile_content(content).unwrap();
    assert!(result.exposed_ports.is_empty());
}

#[test]
fn test_parse_dockerfile_content_case_insensitive() {
    let content = r#"
FROM nginx:alpine
expose 80
Expose 443
COPY . /usr/share/nginx/html
"#;

    let result = parse_dockerfile_content(content).unwrap();
    assert_eq!(result.exposed_ports, vec![80, 443]);
}

#[test]
fn test_parse_dockerfile_content_with_whitespace() {
    let content = r#"
FROM nginx:alpine
  EXPOSE   80   443  
COPY . /usr/share/nginx/html
"#;

    let result = parse_dockerfile_content(content).unwrap();
    assert_eq!(result.exposed_ports, vec![80, 443]);
}

#[test]
fn test_parse_dockerfile_skips_what_is_no_port() {
    // A port out of range is skipped; text after the digits ends the list;
    // a keyword glued to the digits is no instruction.
    let content = "EXPOSE 70000 8080\nEXPOSE 22/tcp 23\nEXPOSE80\nEXPOSE 0080\r\nRUN EXPOSE 9\n";
    let result = parse_dockerfile_content(content).unwrap();
    assert_eq!(result.exposed_ports, vec![8080, 22, 80]);
}

#[test]
fn test_parse_dockerfile_long_s_matches_ignoring_case() {
    let result = parse_dockerfile_content("EXPOſE 81\n").unwrap();
    assert_eq!(result.exposed_ports, vec![81]);
}

#[test]
fn test_has_expose_instruction_true() {
    let content = "\nFROM nginx:alpine\nEXPOSE 80\n\n";
    let result = has_expose_instruction(content).unwrap();
    assert!(result);
}

#[test]
fn test_has_expose_instruction_false() {
    let content = "\nFROM nginx:alpine\n\n";
    let result = has_expose_instruction(content).unwrap();
    assert!(!result);
}
