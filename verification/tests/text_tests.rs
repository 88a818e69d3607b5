use clipture::text::{
    canon_path_chars, chars_contain, chars_end_with, chars_start_with, lower_chars, to_chars,
    trim_chars,
};

fn chars(s: &str) -> Vec<char> {
    s.chars().collect()
}

#[test]
fn conversion_preserves_characters() {
    assert_eq!(to_chars("abcé"), vec!['a', 'b', 'c', 'é']);
    assert_eq!(to_chars(""), Vec::<char>::new());
}

#[test]
fn folding_touches_only_ascii_letters() {
    assert_eq!(lower_chars(&chars("AbC-9é")), chars("abc-9é"));
}

#[test]
fn canonical_paths_use_lower_case_and_forward_slashes() {
    assert_eq!(
        canon_path_chars(&chars("C:\\Games\\GAME.exe")),
        chars("c:/games/game.exe")
    );
}

#[test]
fn suffix_prefix_and_substring_tests() {
    assert!(chars_end_with(&chars("c:/games/game.exe"), &chars("game.exe")));
    assert!(!chars_end_with(&chars("game.exe"), &chars("c:/game.exe")));
    assert!(chars_start_with(&chars("/login/done"), &chars("/login")));
    assert!(!chars_start_with(&chars("/log"), &chars("/login")));
    assert!(chars_contain(&chars("run --server map"), &chars("--server")));
    assert!(!chars_contain(&chars("run --client"), &chars("--server")));
    assert!(chars_contain(&chars("anything"), &chars("")));
}

#[test]
fn trimming_removes_surrounding_whitespace_only() {
    assert_eq!(trim_chars(&chars("  a b\t\n")), chars("a b"));
    assert_eq!(trim_chars(&chars("\t \r\n")), Vec::<char>::new());
    assert_eq!(trim_chars(&chars("token")), chars("token"));
}
