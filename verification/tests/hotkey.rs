use quickshot::hotkey::{current_binding, entry_binding, entry_name, install, list_paths, remove, Entry, Plan};

const BASE: &str = "/org/gnome/settings-daemon/plugins/media-keys/custom-keybindings/";
const SCHEMA: &str = "org.gnome.settings-daemon.plugins.media-keys";

fn entry(slot: u32, name: &str, binding: &str) -> Entry {
    Entry {
        path: format!("{BASE}custom{slot}/"),
        name: name.to_string(),
        binding: binding.to_string(),
    }
}

fn writes(plan: &Plan) -> Vec<(Vec<String>, bool)> {
    plan.writes.iter().map(|w| (w.args.clone(), w.required)).collect()
}

fn args(a: &[&str]) -> Vec<String> {
    a.iter().map(|s| s.to_string()).collect()
}

#[test]
fn list_paths_reads_the_gsettings_array() {
    let raw = format!("['{BASE}custom0/', '{BASE}custom3/']");
    let got = list_paths(Ok(raw)).unwrap();
    assert_eq!(got, vec![format!("{BASE}custom0/"), format!("{BASE}custom3/")]);
}

#[test]
fn list_paths_of_an_empty_array() {
    assert_eq!(list_paths(Ok("@as []".to_string())).unwrap(), Vec::<String>::new());
}

#[test]
fn list_paths_keeps_the_error() {
    assert_eq!(list_paths(Err("no gsettings".to_string())), Err("no gsettings".to_string()));
}

#[test]
fn list_paths_skips_pieces_that_are_not_paths() {
    let got = list_paths(Ok("['/a/', 'b', '/c/']".to_string())).unwrap();
    assert_eq!(got, vec!["/a/".to_string(), "/c/".to_string()]);
}

#[test]
fn entry_values_lose_their_quotes() {
    assert_eq!(entry_name(Ok("'quickshot'".to_string())), "quickshot");
    assert_eq!(entry_binding(Ok("'<Shift>Print'".to_string())), "<Shift>Print");
    assert_eq!(entry_binding(Ok("''".to_string())), "");
    assert_eq!(entry_name(Err("failed".to_string())), "");
}

#[test]
fn current_binding_finds_the_quickshot_entry() {
    let es = vec![entry(0, "flameshot", "Print"), entry(1, "quickshot", "<Super>s")];
    assert_eq!(current_binding(Ok(es)), Some("<Super>s".to_string()));
}

#[test]
fn current_binding_none_when_unbound_or_missing() {
    assert_eq!(current_binding(Ok(vec![entry(0, "quickshot", "")])), None);
    assert_eq!(current_binding(Ok(vec![entry(0, "flameshot", "Print")])), None);
    assert_eq!(current_binding(Err("x".to_string())), None);
}

#[test]
fn install_print_on_an_empty_list() {
    let plan = install("Print", "/usr/bin/quickshot", Ok(vec![])).unwrap();
    let path = format!("{BASE}custom0/");
    let sub = format!("{SCHEMA}.custom-keybinding:{path}");
    assert_eq!(
        writes(&plan),
        vec![
            (args(&["set", SCHEMA, "custom-keybindings", &format!("['{path}']")]), true),
            (args(&["set", &sub, "name", "'quickshot'"]), true),
            (args(&["set", &sub, "command", "'/usr/bin/quickshot'"]), true),
            (args(&["set", &sub, "binding", "'Print'"]), true),
            (args(&["set", "org.gnome.shell.keybindings", "show-screenshot-ui", "[]"]), false),
        ]
    );
    assert_eq!(
        plan.message,
        "Đã gán phím [Print] → /usr/bin/quickshot\nĐã tắt phím tắt GNOME 'show-screenshot-ui' để nhường [Print] cho quickshot.\nKhôi phục: gsettings reset org.gnome.shell.keybindings show-screenshot-ui"
    );
}

#[test]
fn install_takes_the_first_free_slot_and_unbinds_the_other_shortcut() {
    let es = vec![entry(0, "flameshot", "print"), entry(2, "terminal", "<Super>t")];
    let plan = install("Print", "quickshot", Ok(es)).unwrap();
    let other = format!("{BASE}custom0/");
    let path = format!("{BASE}custom1/");
    let sub = format!("{SCHEMA}.custom-keybinding:{path}");
    let other_sub = format!("{SCHEMA}.custom-keybinding:{other}");
    let list = format!("['{BASE}custom0/', '{BASE}custom2/', '{path}']");
    assert_eq!(
        writes(&plan),
        vec![
            (args(&["set", SCHEMA, "custom-keybindings", &list]), true),
            (args(&["set", &sub, "name", "'quickshot'"]), true),
            (args(&["set", &sub, "command", "'quickshot'"]), true),
            (args(&["set", &sub, "binding", "'Print'"]), true),
            (args(&["set", &other_sub, "binding", "''"]), false),
            (args(&["set", "org.gnome.shell.keybindings", "show-screenshot-ui", "[]"]), false),
        ]
    );
    let expected = format!(
        "Đã gán phím [Print] → quickshot\nĐã gỡ phím [Print] khỏi custom shortcut 'flameshot' (đang chiếm phím này).\nKhôi phục: gsettings set {other_sub} binding \"'Print'\"\nĐã tắt phím tắt GNOME 'show-screenshot-ui' để nhường [Print] cho quickshot.\nKhôi phục: gsettings reset org.gnome.shell.keybindings show-screenshot-ui"
    );
    assert_eq!(plan.message, expected);
}

#[test]
fn install_again_reuses_the_entry() {
    let es = vec![entry(0, "quickshot", "Print")];
    let plan = install("<Super>s", "qs", Ok(es)).unwrap();
    let sub = format!("{SCHEMA}.custom-keybinding:{BASE}custom0/");
    assert_eq!(
        writes(&plan),
        vec![
            (args(&["set", &sub, "name", "'quickshot'"]), true),
            (args(&["set", &sub, "command", "'qs'"]), true),
            (args(&["set", &sub, "binding", "'<Super>s'"]), true),
        ]
    );
    assert_eq!(plan.message, "Đã gán phím [<Super>s] → qs");
}

#[test]
fn install_shift_print_takes_the_gnome_screenshot_key() {
    let plan = install("<Shift>Print", "qs", Ok(vec![entry(0, "quickshot", "")])).unwrap();
    let last = writes(&plan).pop().unwrap();
    assert_eq!(last, (args(&["set", "org.gnome.shell.keybindings", "screenshot", "[]"]), false));
}

#[test]
fn install_keeps_the_listing_error() {
    assert!(matches!(install("Print", "qs", Err("denied".to_string())), Err(e) if e == "denied"));
}

#[test]
fn remove_without_shortcut() {
    let plan = remove(Ok(vec![entry(0, "flameshot", "Print")])).unwrap();
    assert!(plan.writes.is_empty());
    assert_eq!(plan.message, "Chưa có phím tắt quickshot nào.");
}

#[test]
fn remove_the_only_shortcut() {
    let plan = remove(Ok(vec![entry(0, "quickshot", "Print")])).unwrap();
    let sub = format!("{SCHEMA}.custom-keybinding:{BASE}custom0/");
    assert_eq!(
        writes(&plan),
        vec![
            (args(&["set", SCHEMA, "custom-keybindings", "@as []"]), true),
            (args(&["reset", &sub, "name"]), false),
            (args(&["reset", &sub, "command"]), false),
            (args(&["reset", &sub, "binding"]), false),
            (args(&["reset", "org.gnome.shell.keybindings", "show-screenshot-ui"]), false),
            (args(&["reset", "org.gnome.shell.keybindings", "screenshot"]), false),
            (args(&["reset", "org.gnome.shell.keybindings", "screenshot-window"]), false),
        ]
    );
    assert_eq!(plan.message, "Đã gỡ phím tắt quickshot và khôi phục phím Print của GNOME.");
}

#[test]
fn remove_keeps_the_other_shortcuts() {
    let es = vec![entry(0, "flameshot", "Print"), entry(1, "quickshot", "Print"), entry(2, "term", "<Super>t")];
    let plan = remove(Ok(es)).unwrap();
    let list = format!("['{BASE}custom0/', '{BASE}custom2/']");
    assert_eq!(writes(&plan)[0], (args(&["set", SCHEMA, "custom-keybindings", &list]), true));
}

#[test]
fn written_list_reads_back() {
    let es = vec![entry(0, "a", "x"), entry(4, "b", "y")];
    let plan = install("<Alt>q", "qs", Ok(es)).unwrap();
    let list = plan.writes[0].args[3].clone();
    let back = list_paths(Ok(list)).unwrap();
    assert_eq!(back, vec![format!("{BASE}custom0/"), format!("{BASE}custom4/"), format!("{BASE}custom1/")]);
}

#[test]
fn remove_error_is_kept() {
    assert!(matches!(remove(Err("e".to_string())), Err(e) if e == "e"));
}
