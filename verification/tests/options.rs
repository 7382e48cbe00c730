use quickshot::options::{save_folder, Folder};
use quickshot::hotkey::launch_command;
use quickshot::options::{full_targets, gui_options_error, ratio_choice, ratio_position, settings_error, Targets};

#[test]
fn gui_options_accepted() {
    assert_eq!(gui_options_error(None, None), None);
    assert_eq!(gui_options_error(Some("16:9"), Some("#00ff00")), None);
    assert_eq!(gui_options_error(Some(" Square "), None), None);
}

#[test]
fn gui_options_refused() {
    assert_eq!(
        gui_options_error(Some("5:4"), Some("#00ff00")).as_deref(),
        Some("tỉ lệ không hợp lệ: 5:4 (dùng free, 1:1, 4:3, 16:9, 3:2, 9:16)")
    );
    assert_eq!(gui_options_error(Some("5:4"), Some("red")).as_deref(), Some("tỉ lệ không hợp lệ: 5:4 (dùng free, 1:1, 4:3, 16:9, 3:2, 9:16)"));
    assert_eq!(gui_options_error(None, Some("red")).as_deref(), Some("màu không hợp lệ: red (dạng #RRGGBB)"));
}

#[test]
fn settings_checks() {
    assert_eq!(settings_error("#FF0000", "Screenshot_%Y.png"), None);
    assert_eq!(settings_error("#FF00", "x.png").as_deref(), Some("Màu không hợp lệ: #FF00 (cần dạng #RRGGBB)"));
    assert_eq!(settings_error("#FF0000", "   ").as_deref(), Some("Mẫu tên file không được để trống."));
}

#[test]
fn settings_ratio_list() {
    let names: Vec<&str> = (0..6).map(ratio_choice).collect();
    assert_eq!(names, vec!["free", "1:1", "4:3", "16:9", "3:2", "9:16"]);
    assert_eq!(ratio_choice(6), "free");
    assert_eq!(ratio_choice(u32::MAX), "free");
    assert_eq!(ratio_position("16:9"), Some(3));
    assert_eq!(ratio_position("free"), Some(0));
    assert_eq!(ratio_position("16x9"), None);
}

#[test]
fn capture_targets() {
    assert_eq!(full_targets(None, false), Targets { stdout: false, file: true, clipboard: false });
    assert_eq!(full_targets(None, true), Targets { stdout: false, file: false, clipboard: true });
    assert_eq!(full_targets(Some("a.png"), true), Targets { stdout: false, file: true, clipboard: true });
    assert_eq!(full_targets(Some("-"), false), Targets { stdout: true, file: false, clipboard: false });
    assert_eq!(full_targets(Some("-"), true), Targets { stdout: true, file: false, clipboard: true });
}

#[test]
fn shortcut_command() {
    let id = "dev.quickshot.QuickShot";
    assert_eq!(launch_command(id, true, true, Some("/usr/bin/quickshot".to_string())), "gtk-launch dev.quickshot.QuickShot");
    assert_eq!(launch_command(id, true, false, Some("/usr/bin/quickshot".to_string())), "/usr/bin/quickshot");
    assert_eq!(launch_command(id, false, true, None), "quickshot");
}

#[test]
fn colors_must_be_six_hex_digits() {
    assert_eq!(gui_options_error(None, Some("#+12345")).as_deref(), Some("màu không hợp lệ: #+12345 (dạng #RRGGBB)"));
    assert_eq!(settings_error("#+12345", "x.png").as_deref(), Some("Màu không hợp lệ: #+12345 (cần dạng #RRGGBB)"));
}

#[test]
fn save_folder_choice() {
    match save_folder(Some("~/Pictures/Shots"), Some("/tmp/x")) {
        Folder::UnderHome { rest, written } => {
            assert_eq!(rest, "Pictures/Shots");
            assert_eq!(written, "~/Pictures/Shots");
        }
        _ => panic!("expected a folder under home"),
    }
    assert!(matches!(save_folder(None, Some("/tmp/x")), Folder::Path(p) if p == "/tmp/x"));
    assert!(matches!(save_folder(Some("~x"), None), Folder::Path(p) if p == "~x"));
    assert!(matches!(save_folder(None, None), Folder::Pictures));
}
