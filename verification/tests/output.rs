use quickshot::capture::{capture_failure, external_commands};
use quickshot::output::{notice, png_copy_candidates, size_text, text_copy_candidates, wl_copy_opens_window, WindowPolicy};

#[test]
fn desktops_where_wl_copy_opens_a_window() {
    assert!(wl_copy_opens_window("GNOME"));
    assert!(wl_copy_opens_window("ubuntu:GNOME"));
    assert!(wl_copy_opens_window("unity"));
    assert!(wl_copy_opens_window("x:gnome:"));
    assert!(!wl_copy_opens_window("KDE"));
    assert!(!wl_copy_opens_window(""));
    assert!(!wl_copy_opens_window("GNOME-Flashback"));
}

fn names(c: &[quickshot::output::Candidate]) -> Vec<(String, Vec<String>)> {
    c.iter()
        .map(|c| (c.program.to_string(), c.args.iter().map(|a| a.to_string()).collect()))
        .collect()
}

#[test]
fn png_candidates() {
    let all = names(&png_copy_candidates(true, WindowPolicy::Allow, true));
    assert_eq!(all.len(), 2);
    assert_eq!(all[0], ("wl-copy".to_string(), vec!["--type".to_string(), "image/png".to_string()]));
    assert_eq!(all[1].0, "xclip");
    assert_eq!(all[1].1, vec!["-selection", "clipboard", "-t", "image/png", "-i"]);
    let avoid = names(&png_copy_candidates(true, WindowPolicy::Avoid, true));
    assert_eq!(avoid.len(), 1);
    assert_eq!(avoid[0].0, "xclip");
    assert_eq!(names(&png_copy_candidates(false, WindowPolicy::Avoid, true)).len(), 2);
    assert_eq!(names(&png_copy_candidates(true, WindowPolicy::Avoid, false)).len(), 2);
}

#[test]
fn text_candidates() {
    let all = names(&text_copy_candidates());
    assert_eq!(all[0], ("wl-copy".to_string(), vec![]));
    assert_eq!(all[1].1, vec!["-selection", "clipboard", "-i"]);
}

#[test]
fn notices() {
    assert_eq!(size_text(1920, 1080), "1920×1080");
    assert_eq!(
        notice(Some("/tmp/a.png"), true, 10, 20),
        Some(("Đã lưu và copy ảnh".to_string(), "10×20 — /tmp/a.png".to_string()))
    );
    assert_eq!(
        notice(Some("/tmp/a.png"), false, 3, 4),
        Some(("Đã lưu ảnh".to_string(), "3×4 — /tmp/a.png".to_string()))
    );
    assert_eq!(notice(None, true, 0, 7), Some(("Đã copy ảnh vào clipboard".to_string(), "0×7".to_string())));
    assert_eq!(notice(None, false, 1, 1), None);
}

#[test]
fn screenshot_programs() {
    let cmds = external_commands("/run/user/1000/quickshot-42.png");
    let got: Vec<(&str, Vec<String>)> = cmds.into_iter().collect();
    assert_eq!(got.len(), 5);
    assert_eq!(got[0], ("gnome-screenshot", vec!["-f".to_string(), "/run/user/1000/quickshot-42.png".to_string()]));
    assert_eq!(got[1].0, "grim");
    assert_eq!(got[2].1, vec!["-window", "root", "/run/user/1000/quickshot-42.png"]);
    assert_eq!(got[3].1, vec!["-o", "/run/user/1000/quickshot-42.png"]);
    assert_eq!(got[4].1, vec!["-b", "-n", "-f", "-o", "/run/user/1000/quickshot-42.png"]);
}

#[test]
fn failure_report() {
    let r = capture_failure(&vec!["portal: denied".to_string(), "grim: exit 1".to_string()]);
    assert_eq!(
        r,
        "Không chụp được màn hình. Chi tiết:\n  portal: denied\n  grim: exit 1\nGợi ý: trên GNOME/Wayland cần gói xdg-desktop-portal-gnome; nếu đã từng từ chối quyền,\nchạy: flatpak permission-reset screenshot  (hoặc xoá mục 'screenshot' trong Settings > Apps)."
    );
}
