use commandbar_core::clipboard_history::source_app::{display_name_of, get_foreground_app_name};

#[test]
fn display_name_is_the_file_name_without_extension() {
    assert_eq!(display_name_of("C:\\Program Files\\Editor\\editor.exe"), "editor");
    assert_eq!(display_name_of("C:\\Windows\\NOTEPAD.EXE"), "NOTEPAD");
    assert_eq!(display_name_of("tool"), "tool");
    assert_eq!(display_name_of("dir\\tool.bin"), "tool.bin");
    assert_eq!(display_name_of("dir/sub\\my app.exe"), "my app");
}

#[test]
fn display_name_strips_repeated_extensions() {
    assert_eq!(display_name_of("a.exe.exe"), "a");
    assert_eq!(display_name_of("x.EXE.exe"), "x");
    assert_eq!(display_name_of("x.exe.EXE"), "x.exe");
    assert_eq!(display_name_of("x.Exe"), "x.Exe");
    assert_eq!(display_name_of(".exe"), "");
}

#[test]
fn display_name_of_a_directory_is_empty() {
    assert_eq!(display_name_of("C:\\dir\\"), "");
    assert_eq!(display_name_of(""), "");
}

#[test]
fn unknown_application_has_a_name() {
    assert_eq!(get_foreground_app_name(None), "Unknown");
    assert_eq!(get_foreground_app_name(Some("C:\\a\\b.exe")), "b");
}
