use quickshot::history::Annotations;
use quickshot::keys::{button_command, char_command, key_command, Command, Key, Press};
use quickshot::model::{Btn, Tool};
use quickshot::text::is_blank;

fn press(key: Key, text: Option<char>, ctrl: bool, shift: bool) -> Press {
    Press { key, text, ctrl, shift }
}

fn normal(p: Press) -> Command {
    key_command(p, false, true, true)
}

#[test]
fn escape_quits_and_enter_copies() {
    assert_eq!(normal(press(Key::Escape, None, false, false)), Command::Quit);
    assert_eq!(normal(press(Key::Return, Some('\r'), false, false)), Command::Copy);
    assert_eq!(key_command(press(Key::KpEnter, None, false, false), false, true, false), Command::Save);
    assert_eq!(key_command(press(Key::Return, None, false, false), false, false, true), Command::Nothing);
}

#[test]
fn ctrl_shortcuts() {
    assert_eq!(normal(press(Key::Other, Some('c'), true, false)), Command::Copy);
    assert_eq!(normal(press(Key::Other, Some('s'), true, false)), Command::Save);
    assert_eq!(normal(press(Key::Other, Some('S'), true, true)), Command::SaveAs);
    assert_eq!(normal(press(Key::Other, Some('z'), true, false)), Command::Undo);
    assert_eq!(normal(press(Key::Other, Some('Z'), true, true)), Command::Redo);
    assert_eq!(normal(press(Key::Other, Some('y'), true, false)), Command::Redo);
    assert_eq!(normal(press(Key::Other, Some('a'), true, false)), Command::SelectAll);
    assert_eq!(normal(press(Key::Delete, None, false, false)), Command::Undo);
}

#[test]
fn tab_and_arrows() {
    assert_eq!(normal(press(Key::Tab, Some('\t'), false, false)), Command::NextRatio);
    assert_eq!(normal(press(Key::IsoLeftTab, None, false, true)), Command::NextRatio);
    assert_eq!(normal(press(Key::Left, None, false, false)), Command::Nudge { dx: -1, dy: 0, resize: false });
    assert_eq!(normal(press(Key::Down, None, true, false)), Command::Nudge { dx: 0, dy: 10, resize: false });
    assert_eq!(normal(press(Key::Up, None, true, true)), Command::Nudge { dx: 0, dy: -10, resize: true });
    assert_eq!(key_command(press(Key::Right, None, false, false), false, false, true), Command::Nothing);
}

#[test]
fn letters_pick_tools() {
    let cases = [
        ('s', Tool::Select),
        ('R', Tool::Rect),
        ('e', Tool::Ellipse),
        ('l', Tool::Line),
        ('a', Tool::Arrow),
        ('p', Tool::Pen),
        ('m', Tool::Marker),
        ('t', Tool::Text),
        ('n', Tool::Counter),
        ('b', Tool::Pixelate),
        ('C', Tool::Picker),
    ];
    for (ch, t) in cases {
        assert_eq!(char_command(ch), Command::SetTool(t));
        assert_eq!(normal(press(Key::Other, Some(ch), false, false)), Command::SetTool(t));
    }
}

#[test]
fn tool_labels_name_their_key() {
    for t in [Tool::Select, Tool::Rect, Tool::Ellipse, Tool::Line, Tool::Arrow, Tool::Pen, Tool::Marker, Tool::Text, Tool::Counter, Tool::Pixelate, Tool::Picker] {
        let chars: Vec<char> = t.label().chars().collect();
        let key = chars[chars.len() - 2];
        assert_eq!(char_command(key), Command::SetTool(t));
    }
}

#[test]
fn other_one_key_shortcuts() {
    assert_eq!(char_command('f'), Command::ToggleFill);
    assert_eq!(char_command('1'), Command::SetColor(0));
    assert_eq!(char_command('9'), Command::SetColor(8));
    assert_eq!(char_command('0'), Command::SetColor(9));
    assert_eq!(char_command('['), Command::Thinner);
    assert_eq!(char_command(']'), Command::Thicker);
    assert_eq!(char_command(' '), Command::SelectMonitor);
    assert_eq!(char_command('x'), Command::Nothing);
    assert_eq!(char_command('é'), Command::Nothing);
}

#[test]
fn ctrl_with_an_unbound_letter_acts_as_the_letter() {
    assert_eq!(normal(press(Key::Other, Some('r'), true, false)), Command::SetTool(Tool::Rect));
}

#[test]
fn typing_text() {
    let typing = |p: Press| key_command(p, true, true, true);
    assert_eq!(typing(press(Key::Other, Some('ệ'), false, false)), Command::InsertChar('ệ'));
    assert_eq!(typing(press(Key::Other, Some('s'), true, false)), Command::Nothing);
    assert_eq!(typing(press(Key::Return, Some('\r'), false, true)), Command::NewLine);
    assert_eq!(typing(press(Key::Return, Some('\r'), false, false)), Command::FinishText);
    assert_eq!(typing(press(Key::Escape, None, false, false)), Command::FinishText);
    assert_eq!(typing(press(Key::KpEnter, None, false, true)), Command::FinishText);
    assert_eq!(typing(press(Key::BackSpace, Some('\u{8}'), false, false)), Command::DeleteChar);
    assert_eq!(typing(press(Key::Tab, Some('\t'), false, false)), Command::Nothing);
    assert_eq!(typing(press(Key::Left, None, false, false)), Command::Nothing);
}

#[test]
fn toolbar_buttons() {
    assert_eq!(button_command(Btn::Tool(Tool::Arrow)), Command::SetTool(Tool::Arrow));
    assert_eq!(button_command(Btn::Exit), Command::Quit);
    assert_eq!(button_command(Btn::Color(4)), Command::SetColor(4));
    assert_eq!(button_command(Btn::Thick), Command::CycleThickness);
    assert_eq!(button_command(Btn::Ratio), Command::NextRatio);
    assert_eq!(button_command(Btn::SaveAs), Command::SaveAs);
}

#[test]
fn blank_text() {
    assert!(is_blank(""));
    assert!(is_blank(" \n\t\u{3000}"));
    assert!(!is_blank(" a "));
}

#[test]
fn undo_and_redo() {
    let mut h: Annotations<&str> = Annotations::new();
    h.push("rect", false);
    let n = h.next_number();
    assert_eq!(n, 1);
    h.push("one", true);
    h.undo();
    assert_eq!(h.shapes(), &vec!["rect"]);
    assert_eq!(h.counter(), 0);
    h.redo();
    assert_eq!(h.shapes(), &vec!["rect", "one"]);
    assert_eq!(h.counter(), 1);
}

#[test]
fn drawing_after_undo_forgets_redo() {
    let mut h: Annotations<u32> = Annotations::new();
    h.push(1, false);
    h.push(2, false);
    h.undo();
    h.push(3, false);
    h.redo();
    assert_eq!(h.shapes(), &vec![1, 3]);
}

#[test]
fn undo_on_empty_does_nothing() {
    let mut h: Annotations<u32> = Annotations::new();
    h.undo();
    h.redo();
    assert_eq!(h.len(), 0);
    assert_eq!(h.counter(), 0);
}

#[test]
fn remove_and_replace() {
    let mut h: Annotations<String> = Annotations::new();
    h.push("a".to_string(), false);
    h.push("b".to_string(), false);
    let old = h.replace(1, "c".to_string());
    assert_eq!(old, "b");
    let gone = h.remove(0);
    assert_eq!(gone, "a");
    assert_eq!(h.shapes(), &vec!["c".to_string()]);
    assert_eq!(h.get(0), "c");
}

#[test]
fn undo_of_a_marker_at_zero_stays_at_zero() {
    let mut h: Annotations<u32> = Annotations::new();
    h.push(7, true);
    h.undo();
    assert_eq!(h.counter(), 0);
}

#[test]
fn undone_marker_gives_its_number_back() {
    let mut h: Annotations<u32> = Annotations::new();
    let a = h.next_number();
    h.push(a, true);
    let b = h.next_number();
    h.push(b, true);
    assert_eq!((a, b), (1, 2));
    h.undo();
    let c = h.next_number();
    assert_eq!(c, 2);
}

#[test]
fn markers_stay_numbered_in_order() {
    let mut h: Annotations<u32> = Annotations::new();
    for _ in 0..3 {
        let n = h.next_number();
        h.push(n, true);
        h.push(0, false);
    }
    h.undo();
    h.undo();
    h.undo();
    h.redo();
    let n = h.next_number();
    h.push(n, true);
    let numbers: Vec<u32> = h.shapes().iter().copied().filter(|&s| s != 0).collect();
    assert_eq!(numbers, vec![1, 2, 3]);
    assert_eq!(h.counter(), 3);
}

#[test]
fn undo_then_redo_restores_the_drawing() {
    let mut h: Annotations<u32> = Annotations::new();
    let n = h.next_number();
    h.push(n, true);
    h.push(0, false);
    h.undo();
    h.undo();
    h.redo();
    h.redo();
    assert_eq!(h.shapes(), &vec![1, 0]);
    assert_eq!(h.counter(), 1);
}

#[test]
fn redo_of_a_plain_shape_needs_no_number() {
    let mut h: Annotations<u32> = Annotations::new();
    h.push(5, false);
    assert!(!h.redo_is_numbered());
    h.undo();
    assert!(!h.redo_is_numbered());
    let n = h.next_number();
    h.push(n, true);
    h.undo();
    assert!(h.redo_is_numbered());
}
