//! The outside screenshot programs tried when the desktop portal fails, and
//! the report when every way failed.

use vstd::prelude::*;
use crate::text::push_str;

verus! {

/// The arguments of one outside screenshot program, as views.
pub open spec fn arg_views(v: Seq<String>) -> Seq<Seq<char>> {
    v.map_values(|s: String| s@)
}

/// The programs tried in order, each writing the screenshot to `out`.
pub open spec fn commands_for(out: Seq<char>) -> Seq<(Seq<char>, Seq<Seq<char>>)> {
    seq![
        ("gnome-screenshot"@, seq!["-f"@, out]),
        ("grim"@, seq![out]),
        ("import"@, seq!["-window"@, "root"@, out]),
        ("scrot"@, seq!["-o"@, out]),
        ("spectacle"@, seq!["-b"@, "-n"@, "-f"@, "-o"@, out]),
    ]
}

pub open spec fn command_views(v: Seq<(&'static str, Vec<String>)>) -> Seq<
    (Seq<char>, Seq<Seq<char>>),
> {
    v.map_values(|c: (&'static str, Vec<String>)| (c.0@, arg_views(c.1@)))
}

fn owned(s: &str) -> (r: String)
    ensures
        r@ == s@,
{
    String::from_str(s)
}

/// The screenshot programs to try, in order, each told to write to `out`.
pub fn external_commands(out: &str) -> (r: Vec<(&'static str, Vec<String>)>)
    ensures
        command_views(r@) == commands_for(out@),
{
    let mut r: Vec<(&'static str, Vec<String>)> = Vec::new();
    let mut a: Vec<String> = Vec::new();
    a.push(owned("-f"));
    a.push(owned(out));
    assert(arg_views(a@) =~= seq!["-f"@, out@]);
    r.push(("gnome-screenshot", a));
    let mut a: Vec<String> = Vec::new();
    a.push(owned(out));
    assert(arg_views(a@) =~= seq![out@]);
    r.push(("grim", a));
    let mut a: Vec<String> = Vec::new();
    a.push(owned("-window"));
    a.push(owned("root"));
    a.push(owned(out));
    assert(arg_views(a@) =~= seq!["-window"@, "root"@, out@]);
    r.push(("import", a));
    let mut a: Vec<String> = Vec::new();
    a.push(owned("-o"));
    a.push(owned(out));
    assert(arg_views(a@) =~= seq!["-o"@, out@]);
    r.push(("scrot", a));
    let mut a: Vec<String> = Vec::new();
    a.push(owned("-b"));
    a.push(owned("-n"));
    a.push(owned("-f"));
    a.push(owned("-o"));
    a.push(owned(out));
    assert(arg_views(a@) =~= seq!["-b"@, "-n"@, "-f"@, "-o"@, out@]);
    r.push(("spectacle", a));
    assert(command_views(r@) =~= commands_for(out@));
    r
}

/// The items joined by `sep`.
pub open spec fn join(items: Seq<Seq<char>>, sep: Seq<char>) -> Seq<char>
    decreases items.len(),
{
    if items.len() == 0 {
        Seq::empty()
    } else if items.len() == 1 {
        items[0]
    } else {
        join(items.drop_last(), sep) + sep + items.last()
    }
}

/// The report when no way of taking the screenshot worked; `errors` holds one
/// line per way tried.
pub open spec fn failure_report(errors: Seq<Seq<char>>) -> Seq<char> {
    "Không chụp được màn hình. Chi tiết:\n  "@ + join(errors, "\n  "@)
        + "\nGợi ý: trên GNOME/Wayland cần gói xdg-desktop-portal-gnome; nếu đã từng từ chối quyền,\nchạy: flatpak permission-reset screenshot  (hoặc xoá mục 'screenshot' trong Settings > Apps)."@
}

/// Writes the report when no way of taking the screenshot worked.
pub fn capture_failure(errors: &Vec<String>) -> (r: String)
    ensures
        r@ == failure_report(arg_views(errors@)),
{
    let mut s = owned("Không chụp được màn hình. Chi tiết:\n  ");
    let ghost start = s@;
    let mut i: usize = 0;
    while i < errors.len()
        invariant
            i <= errors@.len(),
            s@ == start + join(arg_views(errors@).subrange(0, i as int), "\n  "@),
        decreases errors@.len() - i,
    {
        let ghost before = s@;
        if i > 0 {
            push_str(&mut s, "\n  ");
        }
        push_str(&mut s, errors[i].as_str());
        proof {
            let t = arg_views(errors@).subrange(0, i + 1);
            assert(t.drop_last() =~= arg_views(errors@).subrange(0, i as int));
            assert(t.last() == errors@[i as int]@);
            if i == 0 {
                assert(join(t, "\n  "@) == t[0]);
            }
        }
        i = i + 1;
        assert(s@ =~= start + join(arg_views(errors@).subrange(0, i as int), "\n  "@));
    }
    push_str(
        &mut s,
        "\nGợi ý: trên GNOME/Wayland cần gói xdg-desktop-portal-gnome; nếu đã từng từ chối quyền,\nchạy: flatpak permission-reset screenshot  (hoặc xoá mục 'screenshot' trong Settings > Apps).",
    );
    assert(arg_views(errors@).subrange(0, errors@.len() as int) =~= arg_views(errors@));
    assert(s@ =~= failure_report(arg_views(errors@)));
    s
}

} // verus!
