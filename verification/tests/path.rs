use session_reader::utils::path::{decode_project_path, decode_with_separator};

#[test]
fn test_decode_project_path_windows() {
    let decoded = decode_project_path("G--ClaudeProjects-Test");
    assert_eq!(decoded, r"G:\ClaudeProjects\Test");
}

#[test]
fn test_decode_project_path_simple() {
    let decoded = decode_project_path("home-user-projects-myapp");
    let sep = std::path::MAIN_SEPARATOR;
    let expected = format!("home{sep}user{sep}projects{sep}myapp");
    assert_eq!(decoded, expected);
}

#[test]
fn decode_with_given_separator() {
    assert_eq!(decode_with_separator("-home-user--deep", '/'), "/home/user/deep");
    assert_eq!(decode_with_separator("", '/'), "");
    assert_eq!(decode_with_separator("_\0b", '|'), "_|b");
    assert_eq!(decode_with_separator("---", '/'), "//");
}

#[test]
fn decode_drive_names_use_backslashes() {
    assert_eq!(decode_with_separator("c-Users-me", '/'), r"c:\Users\me");
    assert_eq!(decode_with_separator("G--", '/'), "G:\\");
    assert_eq!(decode_with_separator("G", '/'), "G");
    assert_eq!(decode_with_separator("9-x", '/'), "9/x");
}
