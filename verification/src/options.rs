//! Checks on what the user asks for on the command line and in the settings
//! window, and where a one-shot capture goes.

use vstd::prelude::*;
use crate::color::{parse_hex, Rgb8};
use crate::model::{lemma_parse_label, parse_ratio, ratio_at, ratio_label, Ratio};
use crate::text::{chars_of, is_blank, is_white_space, lower_seq, push_str, string_of, string_of_range, trim};

verus! {

/// Why the options of the selection window are refused: the ratio is checked
/// first, then the color; `None` when both are fine or absent.
pub open spec fn gui_options_problem(ratio: Option<Seq<char>>, color: Option<Seq<char>>) -> Option<
    Seq<char>,
> {
    if ratio is Some && parse_ratio(ratio->Some_0) is None {
        Some("tỉ lệ không hợp lệ: "@ + ratio->Some_0 + " (dùng free, 1:1, 4:3, 16:9, 3:2, 9:16)"@)
    } else if color is Some && parse_hex(color->Some_0) is None {
        Some("màu không hợp lệ: "@ + color->Some_0 + " (dạng #RRGGBB)"@)
    } else {
        None
    }
}

pub open spec fn opt_view(s: Option<&str>) -> Option<Seq<char>> {
    match s {
        Some(t) => Some(t@),
        None => None,
    }
}

/// Checks `--ratio` and `--color` of the selection window.
pub fn gui_options_error(ratio: Option<&str>, color: Option<&str>) -> (r: Option<String>)
    ensures
        opt_string(r) == gui_options_problem(opt_view(ratio), opt_view(color)),
{
    if let Some(t) = ratio {
        if Ratio::parse(t).is_none() {
            let mut s = String::new();
            push_str(&mut s, "tỉ lệ không hợp lệ: ");
            push_str(&mut s, t);
            push_str(&mut s, " (dùng free, 1:1, 4:3, 16:9, 3:2, 9:16)");
            return Some(s);
        }
    }
    if let Some(c) = color {
        if Rgb8::from_hex(c).is_none() {
            let mut s = String::new();
            push_str(&mut s, "màu không hợp lệ: ");
            push_str(&mut s, c);
            push_str(&mut s, " (dạng #RRGGBB)");
            return Some(s);
        }
    }
    None
}

pub open spec fn opt_string(s: Option<String>) -> Option<Seq<char>> {
    match s {
        Some(t) => Some(t@),
        None => None,
    }
}

/// Why the settings window refuses to save: a color that is not `#RRGGBB`,
/// then an empty file name pattern.
pub open spec fn settings_problem(color: Seq<char>, filename: Seq<char>) -> Option<Seq<char>> {
    if parse_hex(color) is None {
        Some("Màu không hợp lệ: "@ + color + " (cần dạng #RRGGBB)"@)
    } else if trim(filename).len() == 0 {
        Some("Mẫu tên file không được để trống."@)
    } else {
        None
    }
}

/// Checks the color and the file name pattern before the settings are saved.
pub fn settings_error(color: &str, filename: &str) -> (r: Option<String>)
    ensures
        opt_string(r) == settings_problem(color@, filename@),
{
    if Rgb8::from_hex(color).is_none() {
        let mut s = String::new();
        push_str(&mut s, "Màu không hợp lệ: ");
        push_str(&mut s, color);
        push_str(&mut s, " (cần dạng #RRGGBB)");
        return Some(s);
    }
    if is_blank(filename) {
        return Some(String::from_str("Mẫu tên file không được để trống."));
    }
    None
}

/// The ratios offered in the settings window, as the configuration writes them.
pub open spec fn ratio_names() -> Seq<Seq<char>> {
    seq!["free"@, "1:1"@, "4:3"@, "16:9"@, "3:2"@, "9:16"@]
}

/// The ratio chosen at place `i` of the list; `free` past its end.
pub open spec fn ratio_choice_spec(i: u32) -> Seq<char> {
    if i < 6 {
        ratio_names()[i as int]
    } else {
        "free"@
    }
}

pub fn ratio_choice(i: u32) -> (r: &'static str)
    ensures
        r@ == ratio_choice_spec(i),
{
    match i {
        0 => "free",
        1 => "1:1",
        2 => "4:3",
        3 => "16:9",
        4 => "3:2",
        5 => "9:16",
        _ => "free",
    }
}

/// The place in the list of the ratio the configuration names exactly, if any.
pub fn ratio_position(s: &str) -> (r: Option<u32>)
    ensures
        match r {
            Some(i) => i < 6 && ratio_names()[i as int] == s@ && forall|j: int|
                0 <= j < i ==> ratio_names()[j] != s@,
            None => forall|j: int| 0 <= j < 6 ==> ratio_names()[j] != s@,
        },
{
    let mut i: u32 = 0;
    while i < 6
        invariant
            i <= 6,
            forall|j: int| 0 <= j < i ==> ratio_names()[j] != s@,
        decreases 6 - i,
    {
        let name = ratio_choice(i);
        if crate::text::same_text(name, s) {
            return Some(i);
        }
        i = i + 1;
    }
    None
}

/// Where a one-shot capture goes: raw PNG to standard output (`-o -`), a file,
/// the clipboard.
#[derive(Clone, Copy, Debug, PartialEq, Eq, Structural)]
pub struct Targets {
    pub stdout: bool,
    pub file: bool,
    pub clipboard: bool,
}

/// `-o -` writes to standard output; otherwise a file is written unless only
/// the clipboard was asked for; `-c` copies in every case.
pub open spec fn targets_for(output: Option<Seq<char>>, clipboard: bool) -> Targets {
    let to_stdout = output == Some("-"@);
    Targets { stdout: to_stdout, file: !to_stdout && (!clipboard || output is Some), clipboard }
}

pub fn full_targets(output: Option<&str>, clipboard: bool) -> (r: Targets)
    ensures
        r == targets_for(opt_view(output), clipboard),
{
    let to_stdout = match output {
        Some(p) => crate::text::same_text(p, "-"),
        None => false,
    };
    Targets { stdout: to_stdout, file: !to_stdout && (!clipboard || output.is_some()), clipboard }
}

/// The settings list offers the ratios in the order Tab walks through them,
/// each name read back as its ratio.
pub proof fn lemma_ratio_names_parse(i: int)
    requires
        0 <= i < 6,
    ensures
        parse_ratio(ratio_names()[i]) == Some(ratio_at(i as nat)),
{
    if i == 0 {
        reveal_strlit("free");
        let s = "free"@;
        assert(trim(s) == s) by {
            assert(s.len() > 0 && !is_white_space(s[0]));
            assert(!is_white_space(s.last()));
        }
        assert(lower_seq(s) =~= s);
    } else {
        let r = ratio_at(i as nat);
        lemma_parse_label(r);
        assert(ratio_label(r) == ratio_names()[i]);
    }
}

/// Where pictures are saved, before the home and pictures folders are looked up.
pub enum Folder {
    /// `~/rest`: `rest` under the home folder; `written` is taken as it is when
    /// there is no home folder.
    UnderHome { rest: String, written: String },
    /// A path taken as it is written.
    Path(String),
    /// `Screenshots` in the pictures folder (else in the home folder, else here).
    Pictures,
}

/// A folder as written: `~/` at its start means the home folder.
pub open spec fn folder_written(f: Folder, s: Seq<char>) -> bool {
    if s.len() >= 2 && s[0] == '~' && s[1] == '/' {
        f matches Folder::UnderHome { rest, written } && rest@ == s.subrange(2, s.len() as int)
            && written@ == s
    } else {
        f matches Folder::Path(p) && p@ == s
    }
}

fn folder_of(s: &str) -> (f: Folder)
    ensures
        folder_written(f, s@),
{
    let v = chars_of(s);
    if v.len() >= 2 && v[0] == '~' && v[1] == '/' {
        Folder::UnderHome { rest: string_of_range(&v, 2, v.len()), written: string_of(&v) }
    } else {
        Folder::Path(string_of(&v))
    }
}

/// The folder configured, else the one in `QUICKSHOT_DIR`, else the pictures folder.
pub fn save_folder(configured: Option<&str>, env_dir: Option<&str>) -> (f: Folder)
    ensures
        match configured {
            Some(c) => folder_written(f, c@),
            None => match env_dir {
                Some(e) => folder_written(f, e@),
                None => f is Pictures,
            },
        },
{
    match configured {
        Some(c) => folder_of(c),
        None => match env_dir {
            Some(e) => folder_of(e),
            None => Folder::Pictures,
        },
    }
}

/// `-o -` alone sends the picture to standard output; any other path is
/// written as a file; with no path the picture is saved unless only the
/// clipboard was asked for; `-c` copies; the picture always goes somewhere.
pub proof fn lemma_targets(output: Option<Seq<char>>, clipboard: bool)
    ensures
        ({
            let t = targets_for(output, clipboard);
            &&& t.stdout <==> output == Some("-"@)
            &&& (output matches Some(p) && p != "-"@) ==> t.file
            &&& output is None ==> (t.file <==> !clipboard)
            &&& t.stdout ==> !t.file
            &&& t.clipboard == clipboard
            &&& t.stdout || t.file || t.clipboard
        }),
{
}

/// The selection window refuses its options exactly when the ratio is not one
/// of the known ones or the color is not `#RRGGBB`, naming the bad value.
pub proof fn lemma_gui_options(ratio: Option<Seq<char>>, color: Option<Seq<char>>)
    ensures
        gui_options_problem(ratio, color) is None <==> ((ratio is None || parse_ratio(ratio->Some_0)
            is Some) && (color is None || parse_hex(color->Some_0) is Some)),
{
}

/// The settings are refused exactly when the color is not `#RRGGBB` or the
/// file name pattern is blank.
pub proof fn lemma_settings_checks(color: Seq<char>, filename: Seq<char>)
    ensures
        settings_problem(color, filename) is None <==> (parse_hex(color) is Some && trim(filename).len()
            > 0),
{
}

} // verus!
