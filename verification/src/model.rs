//! Shared vocabulary: drawing tools, frame ratios, toolbar buttons.

use vstd::prelude::*;
use crate::text::{chars_of, lower_chars, lower_seq, same_as, sub_chars, trim, trim_bounds};

verus! {

/// A drawing tool of the toolbar.
#[derive(Clone, Copy, Debug, PartialEq, Eq, Structural)]
pub enum Tool {
    Select,
    Rect,
    Ellipse,
    Line,
    Arrow,
    Pen,
    Marker,
    Text,
    Counter,
    Pixelate,
    Picker,
}

/// The tooltip of each tool, with its key.
pub open spec fn tool_label(t: Tool) -> Seq<char> {
    match t {
        Tool::Select => "Chọn vùng (S)"@,
        Tool::Rect => "Hình chữ nhật (R)"@,
        Tool::Ellipse => "Hình elip (E)"@,
        Tool::Line => "Đường thẳng (L)"@,
        Tool::Arrow => "Mũi tên (A)"@,
        Tool::Pen => "Bút vẽ (P)"@,
        Tool::Marker => "Bút dạ quang (M)"@,
        Tool::Text => "Chữ (T)"@,
        Tool::Counter => "Đánh số (N)"@,
        Tool::Pixelate => "Làm mờ / pixel hoá (B)"@,
        Tool::Picker => "Lấy màu (C)"@,
    }
}

impl Tool {
    pub fn label(&self) -> (r: &'static str)
        ensures
            r@ == tool_label(*self),
    {
        match self {
            Tool::Select => "Chọn vùng (S)",
            Tool::Rect => "Hình chữ nhật (R)",
            Tool::Ellipse => "Hình elip (E)",
            Tool::Line => "Đường thẳng (L)",
            Tool::Arrow => "Mũi tên (A)",
            Tool::Pen => "Bút vẽ (P)",
            Tool::Marker => "Bút dạ quang (M)",
            Tool::Text => "Chữ (T)",
            Tool::Counter => "Đánh số (N)",
            Tool::Pixelate => "Làm mờ / pixel hoá (B)",
            Tool::Picker => "Lấy màu (C)",
        }
    }
}

/// The aspect ratio the selection is held to.
#[derive(Clone, Copy, Debug, PartialEq, Eq, Structural)]
pub enum Ratio {
    Free,
    R1x1,
    R4x3,
    R16x9,
    R3x2,
    R9x16,
}

/// The place of each ratio in the cycle `Free → 1:1 → 4:3 → 16:9 → 3:2 → 9:16`.
pub open spec fn ratio_index(r: Ratio) -> nat {
    match r {
        Ratio::Free => 0,
        Ratio::R1x1 => 1,
        Ratio::R4x3 => 2,
        Ratio::R16x9 => 3,
        Ratio::R3x2 => 4,
        Ratio::R9x16 => 5,
    }
}

/// The ratio at place `i` (taken modulo 6) of the cycle.
pub open spec fn ratio_at(i: nat) -> Ratio {
    let k = i % 6;
    if k == 0 {
        Ratio::Free
    } else if k == 1 {
        Ratio::R1x1
    } else if k == 2 {
        Ratio::R4x3
    } else if k == 3 {
        Ratio::R16x9
    } else if k == 4 {
        Ratio::R3x2
    } else {
        Ratio::R9x16
    }
}

/// Width over height as a fraction; `None` for a free frame.
pub open spec fn ratio_fraction(r: Ratio) -> Option<(u32, u32)> {
    match r {
        Ratio::Free => None,
        Ratio::R1x1 => Some((1, 1)),
        Ratio::R4x3 => Some((4, 3)),
        Ratio::R16x9 => Some((16, 9)),
        Ratio::R3x2 => Some((3, 2)),
        Ratio::R9x16 => Some((9, 16)),
    }
}

pub open spec fn ratio_label(r: Ratio) -> Seq<char> {
    match r {
        Ratio::Free => "Tự do"@,
        Ratio::R1x1 => "1:1"@,
        Ratio::R4x3 => "4:3"@,
        Ratio::R16x9 => "16:9"@,
        Ratio::R3x2 => "3:2"@,
        Ratio::R9x16 => "9:16"@,
    }
}

/// The ratio named by `s` once trimmed and lower-cased (ASCII letters only).
pub open spec fn parse_ratio(s: Seq<char>) -> Option<Ratio> {
    let t = lower_seq(trim(s));
    if t == "free"@ || t == "0"@ || t == "tudo"@ || t == "tự do"@ {
        Some(Ratio::Free)
    } else if t == "1:1"@ || t == "1x1"@ || t == "square"@ {
        Some(Ratio::R1x1)
    } else if t == "4:3"@ || t == "4x3"@ {
        Some(Ratio::R4x3)
    } else if t == "16:9"@ || t == "16x9"@ {
        Some(Ratio::R16x9)
    } else if t == "3:2"@ || t == "3x2"@ {
        Some(Ratio::R3x2)
    } else if t == "9:16"@ || t == "9x16"@ {
        Some(Ratio::R9x16)
    } else {
        None
    }
}

impl Ratio {
    /// Width over height as a fraction (`None` for a free frame).
    pub fn fraction(&self) -> (r: Option<(u32, u32)>)
        ensures
            r == ratio_fraction(*self),
    {
        match self {
            Ratio::Free => None,
            Ratio::R1x1 => Some((1, 1)),
            Ratio::R4x3 => Some((4, 3)),
            Ratio::R16x9 => Some((16, 9)),
            Ratio::R3x2 => Some((3, 2)),
            Ratio::R9x16 => Some((9, 16)),
        }
    }

    pub fn label(&self) -> (r: &'static str)
        ensures
            r@ == ratio_label(*self),
    {
        match self {
            Ratio::Free => "Tự do",
            Ratio::R1x1 => "1:1",
            Ratio::R4x3 => "4:3",
            Ratio::R16x9 => "16:9",
            Ratio::R3x2 => "3:2",
            Ratio::R9x16 => "9:16",
        }
    }

    /// The following ratio of the cycle; the last one goes back to `Free`.
    pub fn next(&self) -> (r: Ratio)
        ensures
            r == ratio_at(ratio_index(*self) + 1),
    {
        match self {
            Ratio::Free => Ratio::R1x1,
            Ratio::R1x1 => Ratio::R4x3,
            Ratio::R4x3 => Ratio::R16x9,
            Ratio::R16x9 => Ratio::R3x2,
            Ratio::R3x2 => Ratio::R9x16,
            Ratio::R9x16 => Ratio::Free,
        }
    }

    /// Reads a ratio as written in the configuration or on the command line.
    pub fn parse(s: &str) -> (r: Option<Ratio>)
        ensures
            r == parse_ratio(s@),
    {
        let v = chars_of(s);
        let (lo, hi) = trim_bounds(&v);
        let t = lower_chars(&sub_chars(&v, lo, hi));
        if same_as(&t, "free") || same_as(&t, "0") || same_as(&t, "tudo") || same_as(&t, "tự do") {
            Some(Ratio::Free)
        } else if same_as(&t, "1:1") || same_as(&t, "1x1") || same_as(&t, "square") {
            Some(Ratio::R1x1)
        } else if same_as(&t, "4:3") || same_as(&t, "4x3") {
            Some(Ratio::R4x3)
        } else if same_as(&t, "16:9") || same_as(&t, "16x9") {
            Some(Ratio::R16x9)
        } else if same_as(&t, "3:2") || same_as(&t, "3x2") {
            Some(Ratio::R3x2)
        } else if same_as(&t, "9:16") || same_as(&t, "9x16") {
            Some(Ratio::R9x16)
        } else {
            None
        }
    }
}

/// Every ratio reads back from its own label.
pub proof fn lemma_parse_label(r: Ratio)
    ensures
        parse_ratio(ratio_label(r)) == Some(r),
{
    reveal_strlit("Tự do");
    reveal_strlit("tự do");
    reveal_strlit("1:1");
    reveal_strlit("4:3");
    reveal_strlit("16:9");
    reveal_strlit("3:2");
    reveal_strlit("9:16");
    let s = ratio_label(r);
    assert(trim(s) == s) by {
        assert(s.len() > 0 && !crate::text::is_white_space(s[0]));
        assert(!crate::text::is_white_space(s.last()));
    }
    reveal_strlit("free");
    reveal_strlit("0");
    reveal_strlit("tudo");
    reveal_strlit("1x1");
    reveal_strlit("square");
    reveal_strlit("4x3");
    reveal_strlit("16x9");
    reveal_strlit("3x2");
    reveal_strlit("9x16");
    match r {
        Ratio::Free => {
            assert(lower_seq(s) =~= "tự do"@);
            assert("tự do"@ != "free"@ && "tự do"@ != "0"@ && "tự do"@ != "tudo"@) by {
                assert("tự do"@[1] != "tudo"@[1]);
                assert("tự do"@.len() != "free"@.len());
            }
        },
        Ratio::R1x1 => {
            assert(lower_seq(s) =~= s);
            assert(s[0] != "free"@[0] && s[0] != "tudo"@[0] && s.len() != "0"@.len());
            assert(s[0] != "tự do"@[0]);
        },
        Ratio::R4x3 => {
            assert(lower_seq(s) =~= s);
            assert(s[0] != "free"@[0] && s[0] != "tudo"@[0] && s.len() != "0"@.len());
            assert(s[0] != "tự do"@[0] && s[0] != "1:1"@[0] && s[0] != "1x1"@[0]);
            assert(s.len() != "square"@.len());
        },
        Ratio::R16x9 => {
            assert(lower_seq(s) =~= s);
            assert(s[0] != "free"@[0] && s[0] != "tudo"@[0] && s.len() != "0"@.len());
            assert(s.len() != "tự do"@.len() && s.len() != "1:1"@.len() && s.len() != "1x1"@.len());
            assert(s.len() != "square"@.len() && s.len() != "4:3"@.len() && s.len() != "4x3"@.len());
        },
        Ratio::R3x2 => {
            assert(lower_seq(s) =~= s);
            assert(s.len() != "free"@.len() && s.len() != "tudo"@.len() && s.len() != "0"@.len());
            assert(s.len() != "tự do"@.len() && s[0] != "1:1"@[0] && s[0] != "1x1"@[0]);
            assert(s.len() != "square"@.len() && s[0] != "4:3"@[0] && s[0] != "4x3"@[0]);
            assert(s.len() != "16:9"@.len() && s.len() != "16x9"@.len());
        },
        Ratio::R9x16 => {
            assert(lower_seq(s) =~= s);
            assert(s[0] != "free"@[0] && s[0] != "tudo"@[0] && s.len() != "0"@.len());
            assert(s.len() != "tự do"@.len() && s.len() != "1:1"@.len() && s.len() != "1x1"@.len());
            assert(s.len() != "square"@.len() && s.len() != "4:3"@.len() && s.len() != "4x3"@.len());
            assert(s[0] != "16:9"@[0] && s[0] != "16x9"@[0] && s.len() != "3:2"@.len());
            assert(s.len() != "3x2"@.len());
        },
    }
}

/// The ratio `k` presses of Tab after `r`.
pub open spec fn ratio_after(r: Ratio, k: nat) -> Ratio
    decreases k,
{
    if k == 0 {
        r
    } else {
        ratio_at(ratio_index(ratio_after(r, (k - 1) as nat)) + 1)
    }
}

/// Tab walks through six different ratios and is back where it started after six presses.
pub proof fn lemma_next_cycle(r: Ratio)
    ensures
        ratio_after(r, 6) == r,
        forall|k: nat, j: nat| k < j < 6 ==> ratio_after(r, k) != ratio_after(r, j),
{
    lemma_after_index(r, 6);
    assert forall|k: nat, j: nat| k < j < 6 implies ratio_after(r, k) != ratio_after(r, j) by {
        assert(ratio_index(ratio_after(r, k)) == (ratio_index(r) + k) % 6) by {
            lemma_after_index(r, k);
        }
        assert(ratio_index(ratio_after(r, j)) == (ratio_index(r) + j) % 6) by {
            lemma_after_index(r, j);
        }
    }
}

proof fn lemma_after_index(r: Ratio, k: nat)
    ensures
        ratio_index(ratio_after(r, k)) == (ratio_index(r) + k) % 6,
    decreases k,
{
    if k > 0 {
        lemma_after_index(r, (k - 1) as nat);
    }
}

/// A button of the toolbar.
#[derive(Clone, Copy, Debug, PartialEq, Eq, Structural)]
pub enum Btn {
    Tool(Tool),
    Undo,
    Redo,
    Copy,
    Save,
    SaveAs,
    Exit,
    Color(usize),
    Fill,
    Thick,
    Ratio,
}

/// The tooltip of each button.
pub open spec fn btn_label(b: Btn) -> Seq<char> {
    match b {
        Btn::Tool(t) => tool_label(t),
        Btn::Undo => "Hoàn tác (Ctrl+Z)"@,
        Btn::Redo => "Làm lại (Ctrl+Shift+Z)"@,
        Btn::Copy => "Copy vào clipboard (Enter / Ctrl+C)"@,
        Btn::Save => "Lưu vào thư mục ảnh (Ctrl+S)"@,
        Btn::SaveAs => "Lưu thành... (Ctrl+Shift+S)"@,
        Btn::Exit => "Thoát (Esc)"@,
        Btn::Color(_) => "Chọn màu (phím 1-9, 0)"@,
        Btn::Fill => "Tô đặc hình (F)"@,
        Btn::Thick => "Độ dày nét — lăn chuột hoặc [ ]"@,
        Btn::Ratio => "Tỉ lệ khung chọn (Tab)"@,
    }
}

impl Btn {
    pub fn label(&self) -> (r: String)
        ensures
            r@ == btn_label(*self),
    {
        let s: &str = match self {
            Btn::Tool(t) => t.label(),
            Btn::Undo => "Hoàn tác (Ctrl+Z)",
            Btn::Redo => "Làm lại (Ctrl+Shift+Z)",
            Btn::Copy => "Copy vào clipboard (Enter / Ctrl+C)",
            Btn::Save => "Lưu vào thư mục ảnh (Ctrl+S)",
            Btn::SaveAs => "Lưu thành... (Ctrl+Shift+S)",
            Btn::Exit => "Thoát (Esc)",
            Btn::Color(_) => "Chọn màu (phím 1-9, 0)",
            Btn::Fill => "Tô đặc hình (F)",
            Btn::Thick => "Độ dày nét — lăn chuột hoặc [ ]",
            Btn::Ratio => "Tỉ lệ khung chọn (Tab)",
        };
        String::from_str(s)
    }
}

/// The cursor shown over each of the eight selection handles, clockwise from
/// the top-left corner.
pub open spec fn handle_cursor(h: nat) -> Seq<char> {
    if h == 0 {
        "nw-resize"@
    } else if h == 1 {
        "n-resize"@
    } else if h == 2 {
        "ne-resize"@
    } else if h == 3 {
        "e-resize"@
    } else if h == 4 {
        "se-resize"@
    } else if h == 5 {
        "s-resize"@
    } else if h == 6 {
        "sw-resize"@
    } else {
        "w-resize"@
    }
}

pub fn cursor_name_for_handle(h: usize) -> (r: &'static str)
    ensures
        r@ == handle_cursor(h as nat),
{
    match h {
        0 => "nw-resize",
        1 => "n-resize",
        2 => "ne-resize",
        3 => "e-resize",
        4 => "se-resize",
        5 => "s-resize",
        6 => "sw-resize",
        _ => "w-resize",
    }
}

} // verus!
