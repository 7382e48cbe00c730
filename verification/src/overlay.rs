//! The decisions of the selection overlay that do not depend on geometry:
//! which tool is active, and what a mouse click does.

use vstd::prelude::*;
use crate::model::{Btn, Tool};

verus! {

/// The active tool, and the tool used before it (the picker hands back to it).
#[derive(Clone, Copy, Debug, PartialEq, Eq, Structural)]
pub struct ToolState {
    pub tool: Tool,
    pub prev: Tool,
}

/// The state after choosing `t`: the tool left behind is remembered when it differs.
pub open spec fn with_tool(s: ToolState, t: Tool) -> ToolState {
    ToolState {
        tool: t,
        prev: if s.tool != t {
            s.tool
        } else {
            s.prev
        },
    }
}

/// The state once a color was picked: back to the tool used before the
/// picker, or to selection when that was the picker itself.
pub open spec fn after_pick_state(s: ToolState) -> ToolState {
    ToolState {
        tool: if s.prev == Tool::Picker {
            Tool::Select
        } else {
            s.prev
        },
        prev: s.prev,
    }
}

impl ToolState {
    /// Selection, with nothing before it.
    pub fn new() -> (r: ToolState)
        ensures
            r.tool == Tool::Select,
            r.prev == Tool::Select,
    {
        ToolState { tool: Tool::Select, prev: Tool::Select }
    }

    /// Switches to `t`.
    pub fn set(&mut self, t: Tool)
        ensures
            *final(self) == with_tool(*old(self), t),
    {
        if self.tool != t {
            self.prev = self.tool;
        }
        self.tool = t;
    }

    /// Leaves the picker once a color was taken.
    pub fn after_pick(&mut self)
        ensures
            *final(self) == after_pick_state(*old(self)),
    {
        self.tool = if self.prev == Tool::Picker {
            Tool::Select
        } else {
            self.prev
        };
    }
}

/// Choosing the picker and taking a color returns to the tool in use before,
/// and never leaves the picker active.
pub proof fn lemma_pick_returns(s: ToolState)
    ensures
        s.tool != Tool::Picker ==> after_pick_state(with_tool(s, Tool::Picker)).tool == s.tool,
        after_pick_state(with_tool(s, Tool::Picker)).tool != Tool::Picker,
        after_pick_state(s).tool != Tool::Picker,
{
}

/// Where a click landed with respect to the toolbar.
#[derive(Clone, Copy, Debug, PartialEq, Eq, Structural)]
pub enum ToolbarHit {
    /// On this button.
    Button(Btn),
    /// On the bar, between buttons.
    Bar,
    /// Not on the toolbar.
    Outside,
}

/// A mouse click: the button (1 left, 3 right), where it landed on the
/// toolbar, the selection handle under it if any, and whether it is inside
/// the selection.
#[derive(Clone, Copy, Debug, PartialEq, Eq, Structural)]
pub struct Click {
    pub button: u32,
    pub toolbar: ToolbarHit,
    pub handle: Option<usize>,
    pub inside_selection: bool,
}

/// What the overlay is doing when the click comes: the tool, whether text is
/// being typed, whether a drag is in progress, whether a region is selected.
#[derive(Clone, Copy, Debug, PartialEq, Eq, Structural)]
pub struct ClickState {
    pub tool: Tool,
    pub editing: bool,
    pub dragging: bool,
    pub has_selection: bool,
}

/// What a click does.
#[derive(Clone, Copy, Debug, PartialEq, Eq, Structural)]
pub enum ClickCommand {
    Nothing,
    /// A toolbar button was pressed with the left button.
    Button(Btn),
    /// Right button (any text being typed is finished first): the drag in progress stops.
    CancelDrag,
    /// Right button: the selection goes.
    ClearSelection,
    /// Right button with nothing to drop: the overlay closes.
    Quit,
    /// Left button while text is typed: the text is done.
    FinishText,
    /// Drag this handle of the selection.
    ResizeSelection(usize),
    MoveSelection,
    /// Start a new selection where the click is.
    NewSelection,
    PickColor,
    /// Start a text where the click is.
    StartText,
    /// Put the next numbered marker where the click is.
    PlaceNumber,
    /// Start a free-hand stroke (pen or marker).
    StartStroke,
    /// Start a rectangle, ellipse, line, arrow or pixelated area.
    StartShape,
}

/// A left click outside the toolbar with no text being typed.
pub open spec fn tool_click(s: ClickState, c: Click) -> ClickCommand {
    match s.tool {
        Tool::Select => if s.has_selection && c.handle is Some {
            ClickCommand::ResizeSelection(c.handle->Some_0)
        } else if s.has_selection && c.inside_selection {
            ClickCommand::MoveSelection
        } else {
            ClickCommand::NewSelection
        },
        Tool::Picker => ClickCommand::PickColor,
        Tool::Text => ClickCommand::StartText,
        Tool::Counter => ClickCommand::PlaceNumber,
        Tool::Pen | Tool::Marker => ClickCommand::StartStroke,
        _ => if s.has_selection {
            ClickCommand::StartShape
        } else {
            ClickCommand::NewSelection
        },
    }
}

/// What a click does: toolbar buttons answer the left button only, the bar
/// itself swallows clicks, the right button backs out one step, and a left
/// click acts with the current tool (a shape tool selects a region first).
pub open spec fn click_command_spec(s: ClickState, c: Click) -> ClickCommand {
    match c.toolbar {
        ToolbarHit::Button(b) => if c.button == 1 {
            ClickCommand::Button(b)
        } else {
            ClickCommand::Nothing
        },
        ToolbarHit::Bar => ClickCommand::Nothing,
        ToolbarHit::Outside => if c.button == 3 {
            if s.dragging {
                ClickCommand::CancelDrag
            } else if s.has_selection {
                ClickCommand::ClearSelection
            } else {
                ClickCommand::Quit
            }
        } else if c.button != 1 {
            ClickCommand::Nothing
        } else if s.editing {
            ClickCommand::FinishText
        } else {
            tool_click(s, c)
        },
    }
}

pub fn click_command(s: ClickState, c: Click) -> (r: ClickCommand)
    ensures
        r == click_command_spec(s, c),
{
    match c.toolbar {
        ToolbarHit::Button(b) => {
            if c.button == 1 {
                ClickCommand::Button(b)
            } else {
                ClickCommand::Nothing
            }
        },
        ToolbarHit::Bar => ClickCommand::Nothing,
        ToolbarHit::Outside => {
            if c.button == 3 {
                if s.dragging {
                    ClickCommand::CancelDrag
                } else if s.has_selection {
                    ClickCommand::ClearSelection
                } else {
                    ClickCommand::Quit
                }
            } else if c.button != 1 {
                ClickCommand::Nothing
            } else if s.editing {
                ClickCommand::FinishText
            } else {
                match s.tool {
                    Tool::Select => match c.handle {
                        Some(h) if s.has_selection => ClickCommand::ResizeSelection(h),
                        _ => if s.has_selection && c.inside_selection {
                            ClickCommand::MoveSelection
                        } else {
                            ClickCommand::NewSelection
                        },
                    },
                    Tool::Picker => ClickCommand::PickColor,
                    Tool::Text => ClickCommand::StartText,
                    Tool::Counter => ClickCommand::PlaceNumber,
                    Tool::Pen | Tool::Marker => ClickCommand::StartStroke,
                    _ => if s.has_selection {
                        ClickCommand::StartShape
                    } else {
                        ClickCommand::NewSelection
                    },
                }
            }
        },
    }
}

/// A right click never draws, and it leaves the overlay only when there is
/// neither a drag nor a selection to drop.
pub proof fn lemma_right_click_backs_out(s: ClickState, c: Click)
    requires
        c.button == 3,
        c.toolbar == ToolbarHit::Outside,
    ensures
        click_command_spec(s, c) == ClickCommand::Quit <==> (!s.dragging && !s.has_selection),
        click_command_spec(s, c) == ClickCommand::CancelDrag || click_command_spec(s, c)
            == ClickCommand::ClearSelection || click_command_spec(s, c) == ClickCommand::Quit,
{
}

/// The action that ends the overlay.
#[derive(Clone, Copy, Debug, PartialEq, Eq, Structural)]
pub enum Final {
    Copy,
    Save,
    /// Save where the user chooses.
    SaveAs,
}

/// How the overlay answers a final action.
#[derive(Clone, Copy, Debug, PartialEq, Eq, Structural)]
pub enum Finish {
    /// Ask where to save; the save comes back later as `Save`.
    ChoosePath,
    /// Nothing is selected: tell the user to select a region first.
    NeedSelection,
    /// The picture was already handed on: nothing more happens.
    Ignore,
    /// Render the selection and hand it on, once.
    Render,
}

/// A final action needs a selection; `Save as` first asks where; the picture
/// is handed on only once.
pub open spec fn finish_spec(a: Final, has_selection: bool, finished: bool) -> Finish {
    if !has_selection {
        Finish::NeedSelection
    } else if a == Final::SaveAs {
        Finish::ChoosePath
    } else if finished {
        Finish::Ignore
    } else {
        Finish::Render
    }
}

pub fn finish_step(a: Final, has_selection: bool, finished: bool) -> (r: Finish)
    ensures
        r == finish_spec(a, has_selection, finished),
{
    if !has_selection {
        Finish::NeedSelection
    } else if a == Final::SaveAs {
        Finish::ChoosePath
    } else if finished {
        Finish::Ignore
    } else {
        Finish::Render
    }
}

/// Whether the picture goes to the clipboard once handed on: always for a
/// copy; after a save only when the save worked and the configuration asks
/// to copy on save.
pub open spec fn copies_spec(a: Final, saved: bool, copy_on_save: bool) -> bool {
    match a {
        Final::Copy => true,
        Final::Save => saved && copy_on_save,
        Final::SaveAs => false,
    }
}

pub fn copies_after(a: Final, saved: bool, copy_on_save: bool) -> (r: bool)
    ensures
        r == copies_spec(a, saved, copy_on_save),
{
    match a {
        Final::Copy => true,
        Final::Save => saved && copy_on_save,
        Final::SaveAs => false,
    }
}

/// Once the picture was handed on, no later copy or save hands it on again.
pub proof fn lemma_hands_on_once(a: Final, has_selection: bool)
    ensures
        finish_spec(a, has_selection, true) != Finish::Render,
{
}

/// A left click outside the toolbar, with no text being typed, acts with the
/// tool: the pen and the marker start a stroke, the picker picks, the text
/// tool starts a text, the counter places a number; a shape tool starts its
/// shape inside a selection and selects a region first when there is none;
/// the selection tool drags a handle under the pointer, moves the selection
/// from inside it, and otherwise starts a new one.
pub proof fn lemma_left_click_tools(s: ClickState, c: Click)
    requires
        c.button == 1,
        c.toolbar == ToolbarHit::Outside,
        !s.editing,
    ensures
        ({
            let r = click_command_spec(s, c);
            &&& (s.tool == Tool::Pen || s.tool == Tool::Marker) ==> r == ClickCommand::StartStroke
            &&& s.tool == Tool::Picker ==> r == ClickCommand::PickColor
            &&& s.tool == Tool::Text ==> r == ClickCommand::StartText
            &&& s.tool == Tool::Counter ==> r == ClickCommand::PlaceNumber
            &&& (s.tool == Tool::Rect || s.tool == Tool::Ellipse || s.tool == Tool::Line || s.tool
                == Tool::Arrow || s.tool == Tool::Pixelate) ==> r == (if s.has_selection {
                ClickCommand::StartShape
            } else {
                ClickCommand::NewSelection
            })
            &&& (s.tool == Tool::Select && s.has_selection && c.handle is Some) ==> r
                == ClickCommand::ResizeSelection(c.handle->Some_0)
            &&& (s.tool == Tool::Select && s.has_selection && c.handle is None
                && c.inside_selection) ==> r == ClickCommand::MoveSelection
            &&& (s.tool == Tool::Select && !(s.has_selection && (c.handle is Some
                || c.inside_selection))) ==> r == ClickCommand::NewSelection
        }),
{
}

/// Toolbar buttons answer the left button alone and the bar swallows every
/// click; a left click while text is typed only finishes it; a middle click
/// outside the toolbar does nothing.
pub proof fn lemma_other_clicks(s: ClickState, c: Click)
    ensures
        c.toolbar is Button ==> click_command_spec(s, c) == (if c.button == 1 {
            ClickCommand::Button(c.toolbar->Button_0)
        } else {
            ClickCommand::Nothing
        }),
        c.toolbar == ToolbarHit::Bar ==> click_command_spec(s, c) == ClickCommand::Nothing,
        (c.toolbar == ToolbarHit::Outside && c.button == 1 && s.editing) ==> click_command_spec(s, c)
            == ClickCommand::FinishText,
        (c.toolbar == ToolbarHit::Outside && c.button != 1 && c.button != 3) ==> click_command_spec(
            s,
            c,
        ) == ClickCommand::Nothing,
        (c.toolbar == ToolbarHit::Outside && c.button == 3) ==> click_command_spec(s, c) == (if s.dragging {
            ClickCommand::CancelDrag
        } else if s.has_selection {
            ClickCommand::ClearSelection
        } else {
            ClickCommand::Quit
        }),
{
}

/// Copy and save hand the selected region on the first time; only "save as"
/// asks for a path; nothing happens without a selection but a request to
/// select one, and nothing after the picture was handed on.
pub proof fn lemma_finish_actions(a: Final, has_selection: bool, finished: bool)
    ensures
        !has_selection ==> finish_spec(a, has_selection, finished) == Finish::NeedSelection,
        has_selection ==> (finish_spec(a, has_selection, finished) == Finish::ChoosePath <==> a
            == Final::SaveAs),
        has_selection && !finished && a != Final::SaveAs ==> finish_spec(a, has_selection, finished)
            == Finish::Render,
        has_selection && finished && a != Final::SaveAs ==> finish_spec(a, has_selection, finished)
            == Finish::Ignore,
{
}

/// A copy always goes to the clipboard, a save only when it worked and the
/// configuration asks to copy on save, and asking where to save copies nothing.
pub proof fn lemma_copies(saved: bool, copy_on_save: bool)
    ensures
        copies_spec(Final::Copy, saved, copy_on_save),
        copies_spec(Final::Save, saved, copy_on_save) <==> (saved && copy_on_save),
        !copies_spec(Final::SaveAs, saved, copy_on_save),
{
}

/// Choosing a tool makes it the active one, and remembers the tool it
/// replaces; choosing the active tool again changes nothing.
pub proof fn lemma_choose_tool(s: ToolState, t: Tool)
    ensures
        with_tool(s, t).tool == t,
        s.tool != t ==> with_tool(s, t).prev == s.tool,
        s.tool == t ==> with_tool(s, t) == s,
{
}

} // verus!
