use quickshot::overlay::{copies_after, finish_step, Final, Finish};
use quickshot::model::{Btn, Tool};
use quickshot::overlay::{click_command, Click, ClickCommand, ClickState, ToolState, ToolbarHit};

fn state(tool: Tool, editing: bool, dragging: bool, has_selection: bool) -> ClickState {
    ClickState { tool, editing, dragging, has_selection }
}

fn left(handle: Option<usize>, inside_selection: bool) -> Click {
    Click { button: 1, toolbar: ToolbarHit::Outside, handle, inside_selection }
}

fn right() -> Click {
    Click { button: 3, toolbar: ToolbarHit::Outside, handle: None, inside_selection: false }
}

#[test]
fn picker_hands_back_the_previous_tool() {
    let mut t = ToolState::new();
    t.set(Tool::Arrow);
    t.set(Tool::Picker);
    assert_eq!(t.prev, Tool::Arrow);
    t.after_pick();
    assert_eq!(t.tool, Tool::Arrow);
}

#[test]
fn picker_chosen_twice_falls_back_to_select() {
    let mut t = ToolState::new();
    t.set(Tool::Picker);
    t.set(Tool::Picker);
    assert_eq!(t.prev, Tool::Select);
    t.after_pick();
    assert_eq!(t.tool, Tool::Select);
    let mut u = ToolState { tool: Tool::Picker, prev: Tool::Picker };
    u.after_pick();
    assert_eq!(u.tool, Tool::Select);
}

#[test]
fn toolbar_buttons_answer_the_left_button_only() {
    let s = state(Tool::Rect, false, false, true);
    let on = |button: u32| Click { button, toolbar: ToolbarHit::Button(Btn::Undo), handle: None, inside_selection: false };
    assert_eq!(click_command(s, on(1)), ClickCommand::Button(Btn::Undo));
    assert_eq!(click_command(s, on(3)), ClickCommand::Nothing);
    let bar = Click { button: 1, toolbar: ToolbarHit::Bar, handle: None, inside_selection: false };
    assert_eq!(click_command(s, bar), ClickCommand::Nothing);
}

#[test]
fn right_click_backs_out_one_step() {
    assert_eq!(click_command(state(Tool::Pen, false, true, true), right()), ClickCommand::CancelDrag);
    assert_eq!(click_command(state(Tool::Pen, false, false, true), right()), ClickCommand::ClearSelection);
    assert_eq!(click_command(state(Tool::Pen, true, false, false), right()), ClickCommand::Quit);
}

#[test]
fn left_click_while_typing_finishes_the_text() {
    assert_eq!(click_command(state(Tool::Text, true, false, true), left(None, true)), ClickCommand::FinishText);
    let middle = Click { button: 2, toolbar: ToolbarHit::Outside, handle: None, inside_selection: false };
    assert_eq!(click_command(state(Tool::Text, true, false, true), middle), ClickCommand::Nothing);
}

#[test]
fn select_tool_resizes_moves_or_starts() {
    assert_eq!(click_command(state(Tool::Select, false, false, true), left(Some(4), true)), ClickCommand::ResizeSelection(4));
    assert_eq!(click_command(state(Tool::Select, false, false, true), left(None, true)), ClickCommand::MoveSelection);
    assert_eq!(click_command(state(Tool::Select, false, false, true), left(None, false)), ClickCommand::NewSelection);
    assert_eq!(click_command(state(Tool::Select, false, false, false), left(Some(2), false)), ClickCommand::NewSelection);
}

#[test]
fn drawing_tools() {
    assert_eq!(click_command(state(Tool::Picker, false, false, false), left(None, false)), ClickCommand::PickColor);
    assert_eq!(click_command(state(Tool::Text, false, false, true), left(None, true)), ClickCommand::StartText);
    assert_eq!(click_command(state(Tool::Counter, false, false, true), left(None, true)), ClickCommand::PlaceNumber);
    assert_eq!(click_command(state(Tool::Marker, false, false, false), left(None, false)), ClickCommand::StartStroke);
    assert_eq!(click_command(state(Tool::Ellipse, false, false, true), left(None, true)), ClickCommand::StartShape);
    assert_eq!(click_command(state(Tool::Pixelate, false, false, false), left(None, false)), ClickCommand::NewSelection);
}

#[test]
fn final_actions() {
    assert_eq!(finish_step(Final::Copy, false, false), Finish::NeedSelection);
    assert_eq!(finish_step(Final::SaveAs, true, false), Finish::ChoosePath);
    assert_eq!(finish_step(Final::Save, true, false), Finish::Render);
    assert_eq!(finish_step(Final::Copy, true, true), Finish::Ignore);
    assert!(copies_after(Final::Copy, false, false));
    assert!(copies_after(Final::Save, true, true));
    assert!(!copies_after(Final::Save, false, true));
    assert!(!copies_after(Final::Save, true, false));
}
