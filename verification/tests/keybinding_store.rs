use quickshot::hotkey::{
    after_write, current_binding, entry_binding, entry_name, first_step, install, list_paths, remove, Entry, Plan, Step,
};
use std::collections::HashMap;

const SCHEMA: &str = "org.gnome.settings-daemon.plugins.media-keys";
const LIST: &str = "custom-keybindings";
const BASE: &str = "/org/gnome/settings-daemon/plugins/media-keys/custom-keybindings/";

/// A stand-in for `gsettings`: each (schema, key) keeps the text written to it.
struct Store(HashMap<(String, String), String>);

impl Store {
    fn get(&self, schema: &str, key: &str) -> Result<String, String> {
        self.0.get(&(schema.to_string(), key.to_string())).cloned().ok_or_else(|| "No such key".to_string())
    }
    fn set(&mut self, schema: &str, key: &str, value: &str) {
        self.0.insert((schema.to_string(), key.to_string()), value.to_string());
    }
    fn apply(&mut self, plan: &Plan) {
        for w in &plan.writes {
            match w.args[0].as_str() {
                "set" => self.set(&w.args[1], &w.args[2], &w.args[3]),
                "reset" => {
                    self.0.remove(&(w.args[1].clone(), w.args[2].clone()));
                }
                _ => panic!("unexpected write"),
            }
        }
    }
    fn listing(&self) -> Result<Vec<Entry>, String> {
        let paths = match self.get(SCHEMA, LIST) {
            Ok(raw) => list_paths(Ok(raw))?,
            Err(_) => Vec::new(),
        };
        Ok(paths
            .into_iter()
            .map(|path| {
                let sub = format!("{SCHEMA}.custom-keybinding:{path}");
                Entry { name: entry_name(self.get(&sub, "name")), binding: entry_binding(self.get(&sub, "binding")), path }
            })
            .collect())
    }
}

fn store_with(entries: &[(u32, &str, &str)]) -> Store {
    let mut st = Store(HashMap::new());
    let paths: Vec<String> = entries.iter().map(|(n, _, _)| format!("'{BASE}custom{n}/'")).collect();
    st.set(SCHEMA, LIST, &format!("[{}]", paths.join(", ")));
    for (n, name, binding) in entries {
        let sub = format!("{SCHEMA}.custom-keybinding:{BASE}custom{n}/");
        st.set(&sub, "name", &format!("'{name}'"));
        st.set(&sub, "binding", &format!("'{binding}'"));
    }
    st
}

#[test]
fn installed_key_reads_back_on_a_fresh_desktop() {
    let mut st = Store(HashMap::new());
    let plan = install("Print", "quickshot", st.listing()).unwrap();
    st.apply(&plan);
    assert_eq!(current_binding(st.listing()), Some("Print".to_string()));
    assert_eq!(st.get("org.gnome.shell.keybindings", "show-screenshot-ui"), Ok("[]".to_string()));
}

#[test]
fn installed_key_reads_back_next_to_other_shortcuts() {
    let mut st = store_with(&[(0, "flameshot", "Print"), (2, "terminal", "<Super>t")]);
    let plan = install("Print", "gtk-launch dev.quickshot.QuickShot", st.listing()).unwrap();
    st.apply(&plan);
    let es = st.listing().unwrap();
    assert_eq!(es.len(), 3);
    assert_eq!(es[2].path, format!("{BASE}custom1/"));
    assert_eq!(es[0].binding, "");
    assert_eq!(current_binding(st.listing()), Some("Print".to_string()));
}

#[test]
fn reinstalled_key_replaces_the_old_one() {
    let mut st = store_with(&[(0, "quickshot", "Print"), (1, "terminal", "<Super>t")]);
    let plan = install("<Super>s", "quickshot", st.listing()).unwrap();
    st.apply(&plan);
    assert_eq!(st.listing().unwrap().len(), 2);
    assert_eq!(current_binding(st.listing()), Some("<Super>s".to_string()));
}

#[test]
fn removed_shortcut_reads_back_unbound() {
    let mut st = store_with(&[(0, "terminal", "<Super>t"), (1, "quickshot", "Print")]);
    st.set("org.gnome.shell.keybindings", "show-screenshot-ui", "[]");
    let plan = remove(st.listing()).unwrap();
    st.apply(&plan);
    assert_eq!(current_binding(st.listing()), None);
    assert_eq!(st.listing().unwrap().len(), 1);
    assert!(st.get("org.gnome.shell.keybindings", "show-screenshot-ui").is_err());
}

/// Runs a plan step by step; `fails` names the places of the writes that fail.
fn run(plan: &Plan, fails: &[usize]) -> (Result<String, String>, Vec<usize>) {
    let mut made = Vec::new();
    let mut step = first_step(plan);
    loop {
        match step {
            Step::Finish(r) => return (r, made),
            Step::Write(i) => {
                made.push(i);
                let outcome = if fails.contains(&i) { Err(format!("write {i} failed")) } else { Ok(()) };
                step = after_write(plan, i, outcome);
            }
        }
    }
}

#[test]
fn failed_required_write_ends_the_install() {
    let st = store_with(&[(0, "flameshot", "Print")]);
    let plan = install("Print", "quickshot", st.listing()).unwrap();
    // list, name, command, binding are required; the unbinding and the shell key are not
    let flags: Vec<bool> = plan.writes.iter().map(|w| w.required).collect();
    assert_eq!(flags, vec![true, true, true, true, false, false]);
    let (r, made) = run(&plan, &[2]);
    assert_eq!(r, Err("write 2 failed".to_string()));
    assert_eq!(made, vec![0, 1, 2]);
}

#[test]
fn failed_optional_writes_are_passed_over() {
    let st = store_with(&[(0, "flameshot", "Print")]);
    let plan = install("Print", "quickshot", st.listing()).unwrap();
    let (r, made) = run(&plan, &[4, 5]);
    assert_eq!(r, Ok(plan.message.clone()));
    assert_eq!(made, vec![0, 1, 2, 3, 4, 5]);
}

#[test]
fn failed_list_write_ends_the_removal() {
    let st = store_with(&[(0, "quickshot", "Print")]);
    let plan = remove(st.listing()).unwrap();
    let (r, made) = run(&plan, &[0]);
    assert_eq!(r, Err("write 0 failed".to_string()));
    assert_eq!(made, vec![0]);
    let nothing = remove(Ok(Vec::new())).unwrap();
    assert_eq!(run(&nothing, &[]), (Ok("Chưa có phím tắt quickshot nào.".to_string()), vec![]));
}

#[test]
fn second_install_changes_nothing() {
    let mut st = store_with(&[(0, "flameshot", "print"), (2, "terminal", "<Super>t")]);
    let plan = install("Print", "quickshot", st.listing()).unwrap();
    st.apply(&plan);
    let before = st.0.clone();
    let again = install("Print", "quickshot", st.listing()).unwrap();
    st.apply(&again);
    assert_eq!(st.0, before);
}

#[test]
fn install_then_remove_gives_the_list_back() {
    let mut st = store_with(&[(0, "flameshot", "Print"), (2, "terminal", "<Super>t")]);
    let paths_before: Vec<String> = st.listing().unwrap().into_iter().map(|e| e.path).collect();
    let plan = install("Print", "quickshot", st.listing()).unwrap();
    st.apply(&plan);
    let plan = remove(st.listing()).unwrap();
    st.apply(&plan);
    let paths_after: Vec<String> = st.listing().unwrap().into_iter().map(|e| e.path).collect();
    assert_eq!(paths_after, paths_before);
    assert_eq!(current_binding(st.listing()), None);
}

#[test]
fn empty_key_installed_twice_changes_nothing() {
    let mut st = store_with(&[(0, "flameshot", ""), (1, "terminal", "<Super>t")]);
    let plan = install("", "quickshot", st.listing()).unwrap();
    st.apply(&plan);
    let before = st.0.clone();
    let again = install("", "quickshot", st.listing()).unwrap();
    st.apply(&again);
    assert_eq!(st.0, before);
    let plan = remove(st.listing()).unwrap();
    st.apply(&plan);
    let paths: Vec<String> = st.listing().unwrap().into_iter().map(|e| e.path).collect();
    assert_eq!(paths, vec![format!("{BASE}custom0/"), format!("{BASE}custom1/")]);
}
