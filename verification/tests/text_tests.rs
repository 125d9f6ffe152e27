use win_canvas::text::{chars_of, is_system_window, str_equals, wide_string};

#[test]
fn wide_string_ascii_is_terminated() {
    assert_eq!(wide_string("Hi"), vec![72u16, 105, 0]);
}

#[test]
fn wide_string_empty_is_just_the_terminator() {
    assert_eq!(wide_string(""), vec![0u16]);
}

#[test]
fn wide_string_class_name() {
    let expected: Vec<u16> = "WinCanvasClass".encode_utf16().chain(std::iter::once(0)).collect();
    assert_eq!(wide_string("WinCanvasClass"), expected);
}

#[test]
fn wide_string_uses_surrogate_pairs_outside_the_basic_plane() {
    assert_eq!(wide_string("\u{1F600}"), vec![0xD83Du16, 0xDE00, 0]);
    assert_eq!(wide_string("é€"), vec![0x00E9u16, 0x20AC, 0]);
}

#[test]
fn wide_string_matches_std_encoding() {
    for s in ["Segoe UI", "WC HUD", "Win Canvas", "a\u{10FFFF}b\u{10000}", "ünïcödé ✓"] {
        let expected: Vec<u16> = s.encode_utf16().chain(std::iter::once(0)).collect();
        assert_eq!(wide_string(s), expected);
    }
}

#[test]
fn system_windows_are_the_shell_classes() {
    assert!(is_system_window("Shell_TrayWnd"));
    assert!(is_system_window("Shell_SecondaryTrayWnd"));
    assert!(is_system_window("Progman"));
    assert!(is_system_window("WorkerW"));
}

#[test]
fn other_windows_are_not_system_windows() {
    assert!(!is_system_window("Notepad"));
    assert!(!is_system_window(""));
    assert!(!is_system_window("Shell_TrayWn"));
    assert!(!is_system_window("Shell_TrayWndX"));
    assert!(!is_system_window("progman"));
}

#[test]
fn str_equals_compares_characters() {
    assert!(str_equals("abc", "abc"));
    assert!(!str_equals("abc", "abd"));
    assert!(!str_equals("abc", "ab"));
    assert!(str_equals("", ""));
}

#[test]
fn chars_of_lists_characters() {
    assert_eq!(chars_of("aé😀"), vec!['a', 'é', '😀']);
}
