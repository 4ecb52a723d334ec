use lush::string_utils::remove_shebang;

#[test]
fn test_remove_shebang_with_shebang() {
    let script = "#!/usr/bin/env lush\n echo Hello, world!".to_string();
    let result = remove_shebang(script);
    assert_eq!(result, "-- #!/usr/bin/env lush\n echo Hello, world!");
    let script = "#!/usr/bin/env lush\r\n echo Hello, world!".to_string();
    let result = remove_shebang(script);
    assert_eq!(result, "-- #!/usr/bin/env lush\r\n echo Hello, world!");
    let script = "#!/usr/bin/env lush\r echo Hello, world!".to_string();
    let result = remove_shebang(script);
    assert_eq!(result, "-- #!/usr/bin/env lush\r echo Hello, world!");
}

#[test]
fn test_remove_shebang_with_shebang_and_blank_lines() {
    let script = "\n\n#!/usr/bin/env lush\nprint('Hello, world!')".to_string();
    let result = remove_shebang(script);
    assert_eq!(result, "\n\n-- #!/usr/bin/env lush\nprint('Hello, world!')");
}

#[test]
fn test_remove_shebang_with_no_shebang() {
    let script = "echo Hello, world!".to_string();
    let result = remove_shebang(script);
    assert_eq!(result, "echo Hello, world!");
}

#[test]
fn test_remove_shebang_with_blank_lines_no_shebang() {
    let script = "\n\n  echo Hello, world!".to_string();
    let result = remove_shebang(script);
    assert_eq!(result, "\n\n  echo Hello, world!");
}

#[test]
fn remove_shebang_on_blank_script() {
    assert_eq!(remove_shebang(String::new()), "-- ");
    assert_eq!(remove_shebang("  ".to_string()), "  -- ");
}
