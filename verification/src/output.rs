//! Choices made when handing the picture on: which clipboard tool to try, and
//! what to tell the user.

use vstd::prelude::*;
use crate::text::{
    chars_of, decimal, lower_chars, lower_seq, pieces, push_decimal, push_str, same_as, sub_chars,
};

verus! {

/// How a copy went: done by an outside tool, or GTK has to keep the clipboard.
#[derive(Clone, Copy, Debug, PartialEq, Eq, Structural)]
pub enum ClipResult {
    Done,
    NeedGtk,
}

/// Whether an outside tool may open its own window to take the clipboard.
#[derive(Clone, Copy, Debug, PartialEq, Eq, Structural)]
pub enum WindowPolicy {
    /// Accept it: on the command line no GTK window can keep the clipboard.
    Allow,
    /// Avoid it: better let GTK keep the clipboard than have GNOME show a stray notice.
    Avoid,
}

/// `d` names GNOME or Unity, in any case.
pub open spec fn is_gnome_like(d: Seq<char>) -> bool {
    lower_seq(d) == "gnome"@ || lower_seq(d) == "unity"@
}

/// Under GNOME (or Unity), `wl-copy` has to open a window of its own to get the
/// clipboard, and GNOME Shell announces that window: true when one of the
/// `:`-separated names in `XDG_CURRENT_DESKTOP` is GNOME or Unity.
pub open spec fn opens_window(desktop: Seq<char>) -> bool {
    exists|i: int|
        0 <= i < pieces(desktop, ':', Seq::empty()).len() && #[trigger] is_gnome_like(
            pieces(desktop, ':', Seq::empty())[i],
        )
}

proof fn lemma_pieces_step(s: Seq<char>, i: int, cur: Seq<char>)
    requires
        0 <= i < s.len(),
    ensures
        pieces(s.subrange(i, s.len() as int), ':', cur) == (if s[i] == ':' {
            seq![cur] + pieces(s.subrange(i + 1, s.len() as int), ':', Seq::empty())
        } else {
            pieces(s.subrange(i + 1, s.len() as int), ':', cur.push(s[i]))
        }),
{
    assert(s.subrange(i, s.len() as int).drop_first() =~= s.subrange(i + 1, s.len() as int));
}

fn gnome_like(piece: &Vec<char>) -> (r: bool)
    ensures
        r == is_gnome_like(piece@),
{
    let l = lower_chars(piece);
    same_as(&l, "gnome") || same_as(&l, "unity")
}

/// Reads `XDG_CURRENT_DESKTOP` (empty when unset) to tell whether `wl-copy`
/// would open a window.
pub fn wl_copy_opens_window(desktop: &str) -> (r: bool)
    ensures
        r == opens_window(desktop@),
{
    let v = chars_of(desktop);
    let ghost s = v@;
    let ghost mut done: Seq<Seq<char>> = Seq::empty();
    let mut start: usize = 0;
    let mut i: usize = 0;
    assert(s.subrange(0, s.len() as int) =~= s);
    assert(s.subrange(0, 0) =~= Seq::<char>::empty());
    assert(done + pieces(s, ':', Seq::empty()) =~= pieces(s, ':', Seq::empty()));
    while i < v.len()
        invariant
            s == v@,
            s == desktop@,
            start <= i <= s.len(),
            pieces(s, ':', Seq::empty()) == done + pieces(
                s.subrange(i as int, s.len() as int),
                ':',
                s.subrange(start as int, i as int),
            ),
            forall|k: int| 0 <= k < done.len() ==> !#[trigger] is_gnome_like(done[k]),
        decreases s.len() - i,
    {
        proof {
            lemma_pieces_step(s, i as int, s.subrange(start as int, i as int));
        }
        if v[i] == ':' {
            let piece = sub_chars(&v, start, i);
            if gnome_like(&piece) {
                proof {
                    let all = pieces(s, ':', Seq::empty());
                    assert(all[done.len() as int] == piece@);
                }
                return true;
            }
            proof {
                let d2 = done.push(s.subrange(start as int, i as int));
                assert(s.subrange(i + 1, i + 1) =~= Seq::<char>::empty());
                assert(done + (seq![s.subrange(start as int, i as int)] + pieces(
                    s.subrange(i + 1, s.len() as int),
                    ':',
                    Seq::empty(),
                )) =~= d2 + pieces(
                    s.subrange(i + 1, s.len() as int),
                    ':',
                    s.subrange(i + 1, i + 1),
                ));
                done = d2;
            }
            start = i + 1;
        } else {
            proof {
                assert(s.subrange(start as int, i as int).push(s[i as int]) =~= s.subrange(
                    start as int,
                    i + 1,
                ));
            }
        }
        i = i + 1;
    }
    let last = sub_chars(&v, start, v.len());
    let found = gnome_like(&last);
    proof {
        let all = pieces(s, ':', Seq::empty());
        assert(s.subrange(s.len() as int, s.len() as int) =~= Seq::<char>::empty());
        assert(all =~= done.push(last@));
        if !found {
            assert forall|k: int| 0 <= k < all.len() implies !#[trigger] is_gnome_like(all[k]) by {
                if k < done.len() {
                    assert(all[k] == done[k]);
                }
            }
        } else {
            assert(is_gnome_like(all[done.len() as int]));
        }
    }
    found
}

/// An outside program that can take the clipboard, with its arguments.
pub struct Candidate {
    pub program: &'static str,
    pub args: Vec<&'static str>,
}

pub open spec fn strs(v: Seq<&'static str>) -> Seq<Seq<char>> {
    v.map_values(|s: &'static str| s@)
}

pub open spec fn candidate_view(c: Candidate) -> (Seq<char>, Seq<Seq<char>>) {
    (c.program@, strs(c.args@))
}

pub open spec fn candidates_view(v: Seq<Candidate>) -> Seq<(Seq<char>, Seq<Seq<char>>)> {
    v.map_values(|c: Candidate| candidate_view(c))
}

pub open spec fn wl_copy_png() -> (Seq<char>, Seq<Seq<char>>) {
    ("wl-copy"@, seq!["--type"@, "image/png"@])
}

pub open spec fn xclip_png() -> (Seq<char>, Seq<Seq<char>>) {
    ("xclip"@, seq!["-selection"@, "clipboard"@, "-t"@, "image/png"@, "-i"@])
}

/// The tools to try, in order, to put a PNG on the clipboard: `wl-copy` unless
/// on Wayland it would open a window the policy wants to avoid, then `xclip`,
/// which goes through XWayland and never shows a window.
pub open spec fn png_candidates(wayland: bool, policy: WindowPolicy, opens: bool) -> Seq<
    (Seq<char>, Seq<Seq<char>>),
> {
    if wayland && policy == WindowPolicy::Avoid && opens {
        seq![xclip_png()]
    } else {
        seq![wl_copy_png(), xclip_png()]
    }
}

fn strs_vec2(a: &'static str, b: &'static str) -> (v: Vec<&'static str>)
    ensures
        strs(v@) == seq![a@, b@],
{
    let mut v: Vec<&'static str> = Vec::new();
    v.push(a);
    v.push(b);
    assert(strs(v@) =~= seq![a@, b@]);
    v
}

fn xclip_png_candidate() -> (c: Candidate)
    ensures
        candidate_view(c) == xclip_png(),
{
    let mut v: Vec<&'static str> = Vec::new();
    v.push("-selection");
    v.push("clipboard");
    v.push("-t");
    v.push("image/png");
    v.push("-i");
    assert(strs(v@) =~= seq!["-selection"@, "clipboard"@, "-t"@, "image/png"@, "-i"@]);
    Candidate { program: "xclip", args: v }
}

/// The tools to try for a PNG; `opens` is what [`wl_copy_opens_window`] tells.
pub fn png_copy_candidates(wayland: bool, policy: WindowPolicy, opens: bool) -> (r: Vec<Candidate>)
    ensures
        candidates_view(r@) == png_candidates(wayland, policy, opens),
{
    let skip_wl_copy = wayland && policy == WindowPolicy::Avoid && opens;
    let mut r: Vec<Candidate> = Vec::new();
    if !skip_wl_copy {
        r.push(Candidate { program: "wl-copy", args: strs_vec2("--type", "image/png") });
    }
    r.push(xclip_png_candidate());
    assert(candidates_view(r@) =~= png_candidates(wayland, policy, opens));
    r
}

/// The tools to try, in order, to put text on the clipboard.
pub open spec fn text_candidates() -> Seq<(Seq<char>, Seq<Seq<char>>)> {
    seq![("wl-copy"@, Seq::empty()), ("xclip"@, seq!["-selection"@, "clipboard"@, "-i"@])]
}

pub fn text_copy_candidates() -> (r: Vec<Candidate>)
    ensures
        candidates_view(r@) == text_candidates(),
{
    let mut r: Vec<Candidate> = Vec::new();
    let none: Vec<&'static str> = Vec::new();
    assert(strs(none@) =~= Seq::<Seq<char>>::empty());
    r.push(Candidate { program: "wl-copy", args: none });
    let mut v: Vec<&'static str> = Vec::new();
    v.push("-selection");
    v.push("clipboard");
    v.push("-i");
    assert(strs(v@) =~= seq!["-selection"@, "clipboard"@, "-i"@]);
    r.push(Candidate { program: "xclip", args: v });
    assert(candidates_view(r@) =~= text_candidates());
    r
}

/// `W×H`.
pub open spec fn size_label(width: u32, height: u32) -> Seq<char> {
    decimal(width as nat) + "×"@ + decimal(height as nat)
}

/// The notice after the picture was saved (at `saved`, as displayed) and/or
/// copied; nothing when neither happened.
pub open spec fn notice_for(saved: Option<Seq<char>>, copied: bool, width: u32, height: u32) -> Option<
    (Seq<char>, Seq<char>),
> {
    let sr = size_label(width, height);
    match saved {
        Some(p) => if copied {
            Some(("Đã lưu và copy ảnh"@, sr + " — "@ + p))
        } else {
            Some(("Đã lưu ảnh"@, sr + " — "@ + p))
        },
        None => if copied {
            Some(("Đã copy ảnh vào clipboard"@, sr))
        } else {
            None
        },
    }
}

/// Writes `W×H`.
pub fn size_text(width: u32, height: u32) -> (r: String)
    ensures
        r@ == size_label(width, height),
{
    let mut s = String::new();
    push_decimal(&mut s, width as u64);
    push_str(&mut s, "×");
    push_decimal(&mut s, height as u64);
    assert(s@ =~= size_label(width, height));
    s
}

/// The title and body of the notice shown once the picture was handed on.
pub fn notice(saved: Option<&str>, copied: bool, width: u32, height: u32) -> (r: Option<(String, String)>)
    ensures
        match notice_for(
            match saved {
                Some(p) => Some(p@),
                None => None,
            },
            copied,
            width,
            height,
        ) {
            Some((t, b)) => r is Some && r->Some_0.0@ == t && r->Some_0.1@ == b,
            None => r is None,
        },
{
    let sr = size_text(width, height);
    match saved {
        Some(p) => {
            let mut body = sr;
            push_str(&mut body, " — ");
            push_str(&mut body, p);
            let title = if copied {
                String::from_str("Đã lưu và copy ảnh")
            } else {
                String::from_str("Đã lưu ảnh")
            };
            Some((title, body))
        },
        None => if copied {
            Some((String::from_str("Đã copy ảnh vào clipboard"), sr))
        } else {
            None
        },
    }
}

/// `xclip` is always tried, last; `wl-copy` is tried first unless, on
/// Wayland, it would open a window the policy wants to avoid.
pub proof fn lemma_png_candidates(wayland: bool, policy: WindowPolicy, opens: bool)
    ensures
        ({
            let c = png_candidates(wayland, policy, opens);
            let skip = wayland && policy == WindowPolicy::Avoid && opens;
            &&& c.len() > 0
            &&& c.last().0 == "xclip"@
            &&& skip ==> c.len() == 1
            &&& !skip ==> c.len() == 2 && c[0].0 == "wl-copy"@
            &&& policy == WindowPolicy::Allow ==> c.len() == 2
        }),
{
}

/// A notice comes exactly when the picture was saved or copied; its body
/// starts with the picture's size, and names the file when one was saved.
pub proof fn lemma_notice(saved: Option<Seq<char>>, copied: bool, width: u32, height: u32)
    ensures
        notice_for(saved, copied, width, height) is Some <==> (saved is Some || copied),
        notice_for(saved, copied, width, height) matches Some((t, b)) ==> b.subrange(
            0,
            size_label(width, height).len() as int,
        ) == size_label(width, height),
        (saved is Some && notice_for(saved, copied, width, height) is Some) ==> ({
            let b = notice_for(saved, copied, width, height)->Some_0.1;
            b.subrange(b.len() - saved->Some_0.len(), b.len() as int) == saved->Some_0
        }),
{
    let sr = size_label(width, height);
    if let Some(p) = saved {
        let b = sr + " — "@ + p;
        assert(b.subrange(0, sr.len() as int) =~= sr);
        assert(b.subrange(b.len() - p.len(), b.len() as int) =~= p);
    } else if copied {
        assert(sr.subrange(0, sr.len() as int) =~= sr);
    }
}

} // verus!
