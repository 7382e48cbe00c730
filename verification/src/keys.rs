//! What a key press does in the selection overlay.

use vstd::prelude::*;
use crate::model::{tool_label, Btn, Tool};
use crate::text::{ascii_lower, is_control, is_control_char, to_ascii_lower};

verus! {

/// The keys the overlay treats by name; every other key is `Other` and acts
/// through the character it types.
#[derive(Clone, Copy, Debug, PartialEq, Eq, Structural)]
pub enum Key {
    Escape,
    Return,
    KpEnter,
    BackSpace,
    Tab,
    IsoLeftTab,
    Delete,
    Left,
    Right,
    Up,
    Down,
    Other,
}

/// A key press: the key, the character it types (if any), and the modifiers held.
#[derive(Clone, Copy, Debug, PartialEq, Eq, Structural)]
pub struct Press {
    pub key: Key,
    pub text: Option<char>,
    pub ctrl: bool,
    pub shift: bool,
}

/// What the overlay does in answer to a key.
#[derive(Clone, Copy, Debug, PartialEq, Eq, Structural)]
pub enum Command {
    Nothing,
    /// Text being typed: a line break.
    NewLine,
    /// Text being typed: done.
    FinishText,
    /// Text being typed: the last character goes.
    DeleteChar,
    /// Text being typed: a character is added.
    InsertChar(char),
    Quit,
    Copy,
    Save,
    SaveAs,
    Undo,
    Redo,
    SelectAll,
    NextRatio,
    /// Move the selection by `(dx, dy)`, or grow it when `resize`.
    Nudge { dx: i32, dy: i32, resize: bool },
    Thinner,
    Thicker,
    /// The toolbar's thickness button: two steps thicker, back to the thinnest past the end.
    CycleThickness,
    SetTool(Tool),
    ToggleFill,
    /// Take the palette color at this place.
    SetColor(usize),
    /// Select the whole monitor under the pointer.
    SelectMonitor,
}

/// The one-letter shortcuts (no Ctrl), also used for text from an input method
/// when no text is being typed.
pub open spec fn char_command_spec(ch: char) -> Command {
    let c = ascii_lower(ch);
    if c == 's' {
        Command::SetTool(Tool::Select)
    } else if c == 'r' {
        Command::SetTool(Tool::Rect)
    } else if c == 'e' {
        Command::SetTool(Tool::Ellipse)
    } else if c == 'l' {
        Command::SetTool(Tool::Line)
    } else if c == 'a' {
        Command::SetTool(Tool::Arrow)
    } else if c == 'p' {
        Command::SetTool(Tool::Pen)
    } else if c == 'm' {
        Command::SetTool(Tool::Marker)
    } else if c == 't' {
        Command::SetTool(Tool::Text)
    } else if c == 'n' {
        Command::SetTool(Tool::Counter)
    } else if c == 'b' {
        Command::SetTool(Tool::Pixelate)
    } else if c == 'c' {
        Command::SetTool(Tool::Picker)
    } else if c == 'f' {
        Command::ToggleFill
    } else if '1' <= c <= '9' {
        Command::SetColor((ch as u32 - '1' as u32) as usize)
    } else if c == '0' {
        Command::SetColor(9)
    } else if c == '[' {
        Command::Thinner
    } else if c == ']' {
        Command::Thicker
    } else if c == ' ' {
        Command::SelectMonitor
    } else {
        Command::Nothing
    }
}

/// `ch` is `lower` in either case.
pub open spec fn is_letter(ch: Option<char>, lower: char) -> bool {
    ch matches Some(c) && ascii_lower(c) == lower
}

/// The key while text is being typed.
pub open spec fn typing_command(p: Press) -> Command {
    match p.key {
        Key::Escape | Key::KpEnter => Command::FinishText,
        Key::Return => if p.shift {
            Command::NewLine
        } else {
            Command::FinishText
        },
        Key::BackSpace => Command::DeleteChar,
        _ => match p.text {
            Some(ch) => if !p.ctrl && !is_control_char(ch) {
                Command::InsertChar(ch)
            } else {
                Command::Nothing
            },
            None => Command::Nothing,
        },
    }
}

/// The step of a nudge: 10 pixels with Ctrl, else 1.
pub open spec fn nudge_for(p: Press) -> Command {
    let d: i32 = if p.ctrl {
        10
    } else {
        1
    };
    match p.key {
        Key::Left => Command::Nudge { dx: (-d) as i32, dy: 0, resize: p.shift },
        Key::Right => Command::Nudge { dx: d, dy: 0, resize: p.shift },
        Key::Up => Command::Nudge { dx: 0, dy: (-d) as i32, resize: p.shift },
        _ => Command::Nudge { dx: 0, dy: d, resize: p.shift },
    }
}

/// The key when no text is being typed.
pub open spec fn overlay_command(p: Press, has_selection: bool, enter_copies: bool) -> Command {
    match p.key {
        Key::Escape => Command::Quit,
        Key::Return | Key::KpEnter => if !has_selection {
            Command::Nothing
        } else if enter_copies {
            Command::Copy
        } else {
            Command::Save
        },
        Key::Delete => Command::Undo,
        Key::Tab | Key::IsoLeftTab => Command::NextRatio,
        Key::Left | Key::Right | Key::Up | Key::Down => if has_selection {
            nudge_for(p)
        } else {
            Command::Nothing
        },
        _ => if p.ctrl && is_letter(p.text, 'c') {
            Command::Copy
        } else if p.ctrl && p.shift && is_letter(p.text, 's') {
            Command::SaveAs
        } else if p.ctrl && is_letter(p.text, 's') {
            Command::Save
        } else if p.ctrl && p.shift && is_letter(p.text, 'z') {
            Command::Redo
        } else if p.ctrl && is_letter(p.text, 'z') {
            Command::Undo
        } else if p.ctrl && is_letter(p.text, 'y') {
            Command::Redo
        } else if p.ctrl && is_letter(p.text, 'a') {
            Command::SelectAll
        } else {
            match p.text {
                Some(ch) => char_command_spec(ch),
                None => Command::Nothing,
            }
        },
    }
}

/// The one-letter shortcut typed as `ch`.
pub fn char_command(ch: char) -> (r: Command)
    ensures
        r == char_command_spec(ch),
{
    let c = to_ascii_lower(ch);
    if c == 's' {
        Command::SetTool(Tool::Select)
    } else if c == 'r' {
        Command::SetTool(Tool::Rect)
    } else if c == 'e' {
        Command::SetTool(Tool::Ellipse)
    } else if c == 'l' {
        Command::SetTool(Tool::Line)
    } else if c == 'a' {
        Command::SetTool(Tool::Arrow)
    } else if c == 'p' {
        Command::SetTool(Tool::Pen)
    } else if c == 'm' {
        Command::SetTool(Tool::Marker)
    } else if c == 't' {
        Command::SetTool(Tool::Text)
    } else if c == 'n' {
        Command::SetTool(Tool::Counter)
    } else if c == 'b' {
        Command::SetTool(Tool::Pixelate)
    } else if c == 'c' {
        Command::SetTool(Tool::Picker)
    } else if c == 'f' {
        Command::ToggleFill
    } else if '1' <= c && c <= '9' {
        Command::SetColor((ch as u32 - '1' as u32) as usize)
    } else if c == '0' {
        Command::SetColor(9)
    } else if c == '[' {
        Command::Thinner
    } else if c == ']' {
        Command::Thicker
    } else if c == ' ' {
        Command::SelectMonitor
    } else {
        Command::Nothing
    }
}

fn letter(ch: Option<char>, lower: char) -> (r: bool)
    ensures
        r == is_letter(ch, lower),
{
    match ch {
        Some(c) => to_ascii_lower(c) == lower,
        None => false,
    }
}

/// What a key press does: `editing` when text is being typed, `has_selection`
/// when a region is chosen, `enter_copies` from the configuration.
/// What a key press does: typing while text is edited, else the overlay's keys.
pub open spec fn key_result(p: Press, editing: bool, has_selection: bool, enter_copies: bool) -> Command {
    if editing {
        typing_command(p)
    } else {
        overlay_command(p, has_selection, enter_copies)
    }
}

pub fn key_command(p: Press, editing: bool, has_selection: bool, enter_copies: bool) -> (r: Command)
    ensures
        r == key_result(p, editing, has_selection, enter_copies),
{
    if editing {
        return match p.key {
            Key::Escape | Key::KpEnter => Command::FinishText,
            Key::Return => if p.shift {
                Command::NewLine
            } else {
                Command::FinishText
            },
            Key::BackSpace => Command::DeleteChar,
            _ => match p.text {
                Some(ch) => if !p.ctrl && !is_control(ch) {
                    Command::InsertChar(ch)
                } else {
                    Command::Nothing
                },
                None => Command::Nothing,
            },
        };
    }
    let d: i32 = if p.ctrl {
        10
    } else {
        1
    };
    match p.key {
        Key::Escape => Command::Quit,
        Key::Return | Key::KpEnter => if !has_selection {
            Command::Nothing
        } else if enter_copies {
            Command::Copy
        } else {
            Command::Save
        },
        Key::Delete => Command::Undo,
        Key::Tab | Key::IsoLeftTab => Command::NextRatio,
        Key::Left => if has_selection {
            Command::Nudge { dx: -d, dy: 0, resize: p.shift }
        } else {
            Command::Nothing
        },
        Key::Right => if has_selection {
            Command::Nudge { dx: d, dy: 0, resize: p.shift }
        } else {
            Command::Nothing
        },
        Key::Up => if has_selection {
            Command::Nudge { dx: 0, dy: -d, resize: p.shift }
        } else {
            Command::Nothing
        },
        Key::Down => if has_selection {
            Command::Nudge { dx: 0, dy: d, resize: p.shift }
        } else {
            Command::Nothing
        },
        _ => if p.ctrl && letter(p.text, 'c') {
            Command::Copy
        } else if p.ctrl && p.shift && letter(p.text, 's') {
            Command::SaveAs
        } else if p.ctrl && letter(p.text, 's') {
            Command::Save
        } else if p.ctrl && p.shift && letter(p.text, 'z') {
            Command::Redo
        } else if p.ctrl && letter(p.text, 'z') {
            Command::Undo
        } else if p.ctrl && letter(p.text, 'y') {
            Command::Redo
        } else if p.ctrl && letter(p.text, 'a') {
            Command::SelectAll
        } else {
            match p.text {
                Some(ch) => char_command(ch),
                None => Command::Nothing,
            }
        },
    }
}

/// What a click on a toolbar button does.
pub open spec fn button_command_spec(b: Btn) -> Command {
    match b {
        Btn::Tool(t) => Command::SetTool(t),
        Btn::Undo => Command::Undo,
        Btn::Redo => Command::Redo,
        Btn::Copy => Command::Copy,
        Btn::Save => Command::Save,
        Btn::SaveAs => Command::SaveAs,
        Btn::Exit => Command::Quit,
        Btn::Color(i) => Command::SetColor(i),
        Btn::Fill => Command::ToggleFill,
        Btn::Thick => Command::CycleThickness,
        Btn::Ratio => Command::NextRatio,
    }
}

pub fn button_command(b: Btn) -> (r: Command)
    ensures
        r == button_command_spec(b),
{
    match b {
        Btn::Tool(t) => Command::SetTool(t),
        Btn::Undo => Command::Undo,
        Btn::Redo => Command::Redo,
        Btn::Copy => Command::Copy,
        Btn::Save => Command::Save,
        Btn::SaveAs => Command::SaveAs,
        Btn::Exit => Command::Quit,
        Btn::Color(i) => Command::SetColor(i),
        Btn::Fill => Command::ToggleFill,
        Btn::Thick => Command::CycleThickness,
        Btn::Ratio => Command::NextRatio,
    }
}

/// Each tool's tooltip ends with its key in brackets, `(S)`, and typing that
/// key selects the tool.
pub proof fn lemma_label_key_selects_tool(t: Tool)
    ensures
        tool_label(t).len() >= 3,
        tool_label(t)[tool_label(t).len() - 1] == ')',
        tool_label(t)[tool_label(t).len() - 3] == '(',
        char_command_spec(tool_label(t)[tool_label(t).len() - 2]) == Command::SetTool(t),
{
    reveal_strlit("Chọn vùng (S)");
    reveal_strlit("Hình chữ nhật (R)");
    reveal_strlit("Hình elip (E)");
    reveal_strlit("Đường thẳng (L)");
    reveal_strlit("Mũi tên (A)");
    reveal_strlit("Bút vẽ (P)");
    reveal_strlit("Bút dạ quang (M)");
    reveal_strlit("Chữ (T)");
    reveal_strlit("Đánh số (N)");
    reveal_strlit("Làm mờ / pixel hoá (B)");
    reveal_strlit("Lấy màu (C)");
}

/// The arrow keys move a selected region one pixel (ten with Ctrl) in their
/// own direction, or grow it that way with Shift; Left and Right, Up and Down
/// go opposite ways; without a selection they do nothing.
pub proof fn lemma_arrows_nudge(p: Press, enter_copies: bool)
    requires
        p.key == Key::Left || p.key == Key::Right || p.key == Key::Up || p.key == Key::Down,
    ensures
        key_result(p, false, false, enter_copies) == Command::Nothing,
        ({
            let step: i32 = if p.ctrl {
                10
            } else {
                1
            };
            let r = key_result(p, false, true, enter_copies);
            &&& r is Nudge
            &&& r->resize == p.shift
            &&& p.key == Key::Right ==> r->dx == step && r->dy == 0
            &&& p.key == Key::Left ==> r->dx == -step && r->dy == 0
            &&& p.key == Key::Down ==> r->dx == 0 && r->dy == step
            &&& p.key == Key::Up ==> r->dx == 0 && r->dy == -step
        }),
        key_result(Press { key: Key::Left, ..p }, false, true, enter_copies)->dx == -key_result(
            Press { key: Key::Right, ..p },
            false,
            true,
            enter_copies,
        )->dx,
        key_result(Press { key: Key::Up, ..p }, false, true, enter_copies)->dy == -key_result(
            Press { key: Key::Down, ..p },
            false,
            true,
            enter_copies,
        )->dy,
{
}

/// Outside text editing: Escape quits; Enter copies (or saves, when the
/// configuration says Enter saves) a selected region and does nothing without
/// one; Delete undoes; Tab changes the frame ratio.
pub proof fn lemma_named_keys(p: Press, has_selection: bool, enter_copies: bool)
    ensures
        p.key == Key::Escape ==> key_result(p, false, has_selection, enter_copies) == Command::Quit,
        (p.key == Key::Return || p.key == Key::KpEnter) ==> key_result(
            p,
            false,
            has_selection,
            enter_copies,
        ) == (if !has_selection {
            Command::Nothing
        } else if enter_copies {
            Command::Copy
        } else {
            Command::Save
        }),
        p.key == Key::Delete ==> key_result(p, false, has_selection, enter_copies) == Command::Undo,
        (p.key == Key::Tab || p.key == Key::IsoLeftTab) ==> key_result(
            p,
            false,
            has_selection,
            enter_copies,
        ) == Command::NextRatio,
{
}

/// With Ctrl held, outside text editing: C copies, S saves (Shift+S saves as),
/// Z undoes (Shift+Z redoes), Y redoes, A selects everything, in either case.
pub proof fn lemma_ctrl_keys(p: Press, has_selection: bool, enter_copies: bool, ch: char)
    requires
        p.key == Key::Other,
        p.ctrl,
        p.text == Some(ch),
    ensures
        ({
            let r = key_result(p, false, has_selection, enter_copies);
            let c = ascii_lower(ch);
            &&& c == 'c' ==> r == Command::Copy
            &&& c == 's' ==> r == (if p.shift {
                Command::SaveAs
            } else {
                Command::Save
            })
            &&& c == 'z' ==> r == (if p.shift {
                Command::Redo
            } else {
                Command::Undo
            })
            &&& c == 'y' ==> r == Command::Redo
            &&& c == 'a' ==> r == Command::SelectAll
        }),
{
}

/// While text is edited: Escape and keypad Enter finish it, Enter finishes it
/// (Shift+Enter breaks the line), Backspace deletes, and a printable character
/// typed without Ctrl is inserted; whether a region is selected does not matter.
pub proof fn lemma_typing_keys(p: Press, has_selection: bool, enter_copies: bool)
    ensures
        ({
            let r = key_result(p, true, has_selection, enter_copies);
            &&& (p.key == Key::Escape || p.key == Key::KpEnter) ==> r == Command::FinishText
            &&& p.key == Key::Return ==> r == (if p.shift {
                Command::NewLine
            } else {
                Command::FinishText
            })
            &&& p.key == Key::BackSpace ==> r == Command::DeleteChar
            &&& (p.key == Key::Other && p.text is Some && !p.ctrl && !is_control_char(
                p.text->Some_0,
            )) ==> r == Command::InsertChar(p.text->Some_0)
            &&& (p.key == Key::Other && p.ctrl) ==> r == Command::Nothing
            &&& r == key_result(p, true, !has_selection, !enter_copies)
        }),
{
}

/// The one-key shortcuts: `1` to `9` pick palette colors 0 to 8 and `0` the
/// tenth, `[` and `]` make strokes thinner and thicker, space selects the
/// monitor, `F` toggles filling; a key without Ctrl outside editing does the same.
pub proof fn lemma_char_keys(ch: char)
    ensures
        '1' <= ch <= '9' ==> char_command_spec(ch) == Command::SetColor((ch as u32 - '1' as u32) as usize),
        ch == '0' ==> char_command_spec(ch) == Command::SetColor(9),
        ch == '[' ==> char_command_spec(ch) == Command::Thinner,
        ch == ']' ==> char_command_spec(ch) == Command::Thicker,
        ch == ' ' ==> char_command_spec(ch) == Command::SelectMonitor,
        (ch == 'f' || ch == 'F') ==> char_command_spec(ch) == Command::ToggleFill,
        (ch == 's' || ch == 'S') ==> char_command_spec(ch) == Command::SetTool(Tool::Select),
        (ch == 'r' || ch == 'R') ==> char_command_spec(ch) == Command::SetTool(Tool::Rect),
        (ch == 'e' || ch == 'E') ==> char_command_spec(ch) == Command::SetTool(Tool::Ellipse),
        (ch == 'l' || ch == 'L') ==> char_command_spec(ch) == Command::SetTool(Tool::Line),
        (ch == 'a' || ch == 'A') ==> char_command_spec(ch) == Command::SetTool(Tool::Arrow),
        (ch == 'p' || ch == 'P') ==> char_command_spec(ch) == Command::SetTool(Tool::Pen),
        (ch == 'm' || ch == 'M') ==> char_command_spec(ch) == Command::SetTool(Tool::Marker),
        (ch == 't' || ch == 'T') ==> char_command_spec(ch) == Command::SetTool(Tool::Text),
        (ch == 'n' || ch == 'N') ==> char_command_spec(ch) == Command::SetTool(Tool::Counter),
        (ch == 'b' || ch == 'B') ==> char_command_spec(ch) == Command::SetTool(Tool::Pixelate),
        (ch == 'c' || ch == 'C') ==> char_command_spec(ch) == Command::SetTool(Tool::Picker),
        ('g' <= ascii_lower(ch) <= 'k' || ascii_lower(ch) == 'o' || ascii_lower(ch) == 'q' || 'u'
            <= ascii_lower(ch) <= 'z') ==> char_command_spec(ch) == Command::Nothing,
        forall|p: Press, s: bool, e: bool|
            p.key == Key::Other && !p.ctrl && p.text == Some(ch) ==> #[trigger] key_result(p, false, s, e)
                == char_command_spec(ch),
{
}

/// Each toolbar button does what its tooltip says.
pub proof fn lemma_buttons(b: Btn)
    ensures
        b matches Btn::Tool(t) ==> button_command_spec(b) == Command::SetTool(t),
        b matches Btn::Color(i) ==> button_command_spec(b) == Command::SetColor(i),
        b == Btn::Undo ==> button_command_spec(b) == Command::Undo,
        b == Btn::Redo ==> button_command_spec(b) == Command::Redo,
        b == Btn::Copy ==> button_command_spec(b) == Command::Copy,
        b == Btn::Save ==> button_command_spec(b) == Command::Save,
        b == Btn::SaveAs ==> button_command_spec(b) == Command::SaveAs,
        b == Btn::Exit ==> button_command_spec(b) == Command::Quit,
        b == Btn::Fill ==> button_command_spec(b) == Command::ToggleFill,
        b == Btn::Thick ==> button_command_spec(b) == Command::CycleThickness,
        b == Btn::Ratio ==> button_command_spec(b) == Command::NextRatio,
{
}

} // verus!
