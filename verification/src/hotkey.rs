//! The global shortcut in GNOME's custom keybindings, kept through `gsettings`.
//!
//! The library decides; the caller talks to `gsettings`. A listing of the
//! custom keybindings comes in as [`Entry`] values; [`install`] and [`remove`]
//! answer with a [`Plan`]: the `gsettings` writes to make, in order, and the
//! message to report when none of the required writes fails.

use vstd::prelude::*;
use vstd::set_lib::{lemma_int_range, lemma_len_subset, lemma_map_size, set_int_range};
use crate::text::{
    chars_of, decimal, digit_char, lemma_decimal_injective, lower_chars, lower_seq, pieces, push_char, drop_leading, drop_trailing, push_decimal,
    push_str, same_as, same_chars, same_string, string_of, string_of_range, trim_char, trim_char_bounds,
};

verus! {

/// The schema that holds the list of custom keybindings.
pub open spec fn schema() -> Seq<char> {
    "org.gnome.settings-daemon.plugins.media-keys"@
}

/// The key of that list.
pub open spec fn list_key() -> Seq<char> {
    "custom-keybindings"@
}

/// The name under which the shortcut is registered.
pub open spec fn app_name() -> Seq<char> {
    "quickshot"@
}

/// The path of the `i`-th custom keybinding slot.
pub open spec fn slot(i: nat) -> Seq<char> {
    "/org/gnome/settings-daemon/plugins/media-keys/custom-keybindings/custom"@ + decimal(i) + seq![
        '/',
    ]
}

/// The relocatable schema of the keybinding stored at `path`.
pub open spec fn sub_schema(path: Seq<char>) -> Seq<char> {
    schema() + ".custom-keybinding:"@ + path
}

/// `'p'`.
pub open spec fn quote(p: Seq<char>) -> Seq<char> {
    seq!['\''] + p + seq!['\'']
}

/// The quoted items joined by `", "`.
pub open spec fn join_quoted(ps: Seq<Seq<char>>) -> Seq<char>
    decreases ps.len(),
{
    if ps.len() == 0 {
        Seq::empty()
    } else if ps.len() == 1 {
        quote(ps[0])
    } else {
        join_quoted(ps.drop_last()) + ", "@ + quote(ps.last())
    }
}

/// A GVariant string array as the shortcut list is written: `['a', 'b']`.
pub open spec fn list_value(ps: Seq<Seq<char>>) -> Seq<char> {
    seq!['['] + join_quoted(ps) + seq![']']
}

/// `true` when `p` starts with `/`.
pub open spec fn is_path(p: Seq<char>) -> bool {
    p.len() > 0 && p[0] == '/'
}

/// The pieces that start with `/`, in order.
pub open spec fn keep_paths(parts: Seq<Seq<char>>) -> Seq<Seq<char>>
    decreases parts.len(),
{
    if parts.len() == 0 {
        Seq::empty()
    } else if is_path(parts.last()) {
        keep_paths(parts.drop_last()).push(parts.last())
    } else {
        keep_paths(parts.drop_last())
    }
}

/// The paths in the output of `gsettings get` for the list: the pieces between
/// single quotes that start with `/`.
pub open spec fn parse_paths(raw: Seq<char>) -> Seq<Seq<char>> {
    keep_paths(pieces(raw, '\'', Seq::empty()))
}

/// The characters of each string.
pub open spec fn texts(v: Seq<String>) -> Seq<Seq<char>> {
    v.map_values(|s: String| s@)
}

/// A string value as `gsettings get` prints it, quotes stripped; an error reads as empty.
pub open spec fn entry_value(reply: Result<String, String>) -> Seq<char> {
    match reply {
        Ok(s) => trim_char(s@, '\''),
        Err(_) => Seq::empty(),
    }
}

/// One custom keybinding: where it is stored, its name and its key.
pub struct Entry {
    pub path: String,
    pub name: String,
    pub binding: String,
}

/// A custom keybinding seen as `(path, name, binding)`.
pub type EntryView = (Seq<char>, Seq<char>, Seq<char>);

impl View for Entry {
    type V = EntryView;

    open spec fn view(&self) -> EntryView {
        (self.path@, self.name@, self.binding@)
    }
}

/// One call of `gsettings`: its arguments, and whether a failure ends the operation.
pub struct Write {
    pub args: Vec<String>,
    pub required: bool,
}

/// A write seen as `(arguments, required)`.
pub type WriteView = (Seq<Seq<char>>, bool);

impl View for Write {
    type V = WriteView;

    open spec fn view(&self) -> WriteView {
        (texts(self.args@), self.required)
    }
}

/// The writes to make in order, and the message for the user.
pub struct Plan {
    pub writes: Vec<Write>,
    pub message: String,
}

impl View for Plan {
    type V = (Seq<WriteView>, Seq<char>);

    open spec fn view(&self) -> (Seq<WriteView>, Seq<char>) {
        (self.writes@.map_values(|w: Write| w@), self.message@)
    }
}

pub open spec fn entry_views(v: Seq<Entry>) -> Seq<EntryView> {
    v.map_values(|e: Entry| e@)
}

pub open spec fn paths_of(es: Seq<EntryView>) -> Seq<Seq<char>> {
    es.map_values(|e: EntryView| e.0)
}

/// `i` is the first entry named `quickshot`.
pub open spec fn is_first_named(es: Seq<EntryView>, i: int) -> bool {
    &&& 0 <= i < es.len()
    &&& es[i].1 == app_name()
    &&& forall|j: int| 0 <= j < i ==> es[j].1 != app_name()
}

/// The first entry named `quickshot`, if any.
pub open spec fn named_index(es: Seq<EntryView>) -> Option<int> {
    if exists|i: int| is_first_named(es, i) {
        Some(choose|i: int| is_first_named(es, i))
    } else {
        None
    }
}

/// `i` is the smallest slot number whose path is not listed.
pub open spec fn is_free_index(paths: Seq<Seq<char>>, i: nat) -> bool {
    &&& !paths.contains(slot(i))
    &&& forall|j: nat| j < i ==> paths.contains(slot(j))
}

/// The path of the first slot not in `paths`.
pub open spec fn free_slot(paths: Seq<Seq<char>>) -> Seq<char> {
    slot(choose|i: nat| is_free_index(paths, i))
}

/// Where the shortcut goes: its own entry if it has one, else the first free slot.
pub open spec fn target_path(es: Seq<EntryView>) -> Seq<char> {
    match named_index(es) {
        Some(i) => es[i].0,
        None => free_slot(paths_of(es)),
    }
}

pub open spec fn set_args(s: Seq<char>, k: Seq<char>, v: Seq<char>) -> Seq<Seq<char>> {
    seq!["set"@, s, k, v]
}

pub open spec fn reset_args(s: Seq<char>, k: Seq<char>) -> Seq<Seq<char>> {
    seq!["reset"@, s, k]
}

/// The note added when another shortcut held the same key.
pub open spec fn unbind_note(binding: Seq<char>, other: EntryView) -> Seq<char> {
    "\nĐã gỡ phím ["@ + binding + "] khỏi custom shortcut '"@ + other.1
        + "' (đang chiếm phím này).\nKhôi phục: gsettings set "@ + sub_schema(other.0)
        + " binding \"'"@ + binding + "'\""@
}

/// The other entries on the same key lose it: the writes and the notes, in list order.
pub open spec fn unbind_others(es: Seq<EntryView>, path: Seq<char>, binding: Seq<char>) -> (
    Seq<WriteView>,
    Seq<char>,
)
    decreases es.len(),
{
    if es.len() == 0 {
        (Seq::empty(), Seq::empty())
    } else {
        let prev = unbind_others(es.drop_last(), path, binding);
        let e = es.last();
        if e.0 != path && lower_seq(e.2) == lower_seq(binding) {
            (
                prev.0.push((set_args(sub_schema(e.0), "binding"@, "''"@), false)),
                prev.1 + unbind_note(binding, e),
            )
        } else {
            prev
        }
    }
}

/// The GNOME Shell screenshot key that uses `binding` (compared in lower case), if any.
pub open spec fn shell_key_for(lower: Seq<char>) -> Option<Seq<char>> {
    if lower == "print"@ {
        Some("show-screenshot-ui"@)
    } else if lower == "<shift>print"@ {
        Some("screenshot"@)
    } else if lower == "<alt>print"@ {
        Some("screenshot-window"@)
    } else {
        None
    }
}

pub open spec fn shell_note(binding: Seq<char>, k: Seq<char>) -> Seq<char> {
    "\nĐã tắt phím tắt GNOME '"@ + k + "' để nhường ["@ + binding
        + "] cho quickshot.\nKhôi phục: gsettings reset org.gnome.shell.keybindings "@ + k
}

/// The writes and message of installing `binding` → `command` over the listing `es`.
pub open spec fn install_plan(binding: Seq<char>, command: Seq<char>, es: Seq<EntryView>) -> (
    Seq<WriteView>,
    Seq<char>,
) {
    let paths = paths_of(es);
    let path = target_path(es);
    let list_write: Seq<WriteView> = if paths.contains(path) {
        Seq::empty()
    } else {
        seq![(set_args(schema(), list_key(), list_value(paths.push(path))), true)]
    };
    let sub = sub_schema(path);
    let own: Seq<WriteView> = seq![
        (set_args(sub, "name"@, quote(app_name())), true),
        (set_args(sub, "command"@, quote(command)), true),
        (set_args(sub, "binding"@, quote(binding)), true),
    ];
    let others = unbind_others(es, path, binding);
    let head = "Đã gán phím ["@ + binding + "] → "@ + command;
    match shell_key_for(lower_seq(binding)) {
        Some(k) => (
            list_write + own + others.0 + seq![
                (set_args("org.gnome.shell.keybindings"@, k, "[]"@), false),
            ],
            head + others.1 + shell_note(binding, k),
        ),
        None => (list_write + own + others.0, head + others.1),
    }
}

/// The paths other than `path`, in order.
pub open spec fn without(paths: Seq<Seq<char>>, path: Seq<char>) -> Seq<Seq<char>>
    decreases paths.len(),
{
    if paths.len() == 0 {
        Seq::empty()
    } else if paths.last() == path {
        without(paths.drop_last(), path)
    } else {
        without(paths.drop_last(), path).push(paths.last())
    }
}

pub open spec fn no_shortcut_message() -> Seq<char> {
    "Chưa có phím tắt quickshot nào."@
}

pub open spec fn removed_message() -> Seq<char> {
    "Đã gỡ phím tắt quickshot và khôi phục phím Print của GNOME."@
}

/// The writes and message of removing the shortcut over the listing `es`.
pub open spec fn remove_plan(es: Seq<EntryView>) -> (Seq<WriteView>, Seq<char>) {
    match named_index(es) {
        None => (Seq::empty(), no_shortcut_message()),
        Some(i) => {
            let path = es[i].0;
            let rest = without(paths_of(es), path);
            let list = if rest.len() == 0 {
                "@as []"@
            } else {
                list_value(rest)
            };
            let sub = sub_schema(path);
            let shell = "org.gnome.shell.keybindings"@;
            (
                seq![
                    (set_args(schema(), list_key(), list), true),
                    (reset_args(sub, "name"@), false),
                    (reset_args(sub, "command"@), false),
                    (reset_args(sub, "binding"@), false),
                    (reset_args(shell, "show-screenshot-ui"@), false),
                    (reset_args(shell, "screenshot"@), false),
                    (reset_args(shell, "screenshot-window"@), false),
                ],
                removed_message(),
            )
        },
    }
}

// ---------------------------------------------------------------------------
// Proofs about slots
// ---------------------------------------------------------------------------
proof fn lemma_slot_injective(i: nat, j: nat)
    requires
        slot(i) == slot(j),
    ensures
        i == j,
{
    let pre = "/org/gnome/settings-daemon/plugins/media-keys/custom-keybindings/custom"@;
    let a = slot(i);
    let b = slot(j);
    assert(a.len() == b.len());
    assert(decimal(i).len() == decimal(j).len());
    assert(a.subrange(pre.len() as int, a.len() - 1) =~= decimal(i));
    assert(b.subrange(pre.len() as int, b.len() - 1) =~= decimal(j));
    lemma_decimal_injective(i, j);
}

/// Among the slots `0..=paths.len()` one at least is not listed.
proof fn lemma_some_slot_free(paths: Seq<Seq<char>>)
    ensures
        exists|j: nat| j <= paths.len() && !paths.contains(slot(j)),
{
    if forall|j: nat| j <= paths.len() ==> paths.contains(slot(j)) {
        let n = paths.len() as int;
        let x = set_int_range(0, n + 1);
        let f = |k: int| slot(k as nat);
        lemma_int_range(0, n + 1);
        assert forall|a: int, b: int|
            x.contains(a) && x.contains(b) && #[trigger] f(a) == #[trigger] f(b) implies a
            == b by {
            lemma_slot_injective(a as nat, b as nat);
        }
        assert(vstd::relations::injective_on(f, x));
        let y = x.map(f);
        lemma_map_size(x, y, f);
        assert(y.subset_of(paths.to_set())) by {
            assert forall|p: Seq<char>| y.contains(p) implies paths.to_set().contains(p) by {
                let k = choose|k: int| x.contains(k) && f(k) == p;
                assert(paths.contains(slot(k as nat)));
            }
        }
        vstd::seq_lib::seq_to_set_is_finite(paths);
        lemma_len_subset(y, paths.to_set());
        paths.lemma_cardinality_of_set();
        assert(false);
    }
}

proof fn lemma_free_index_unique(paths: Seq<Seq<char>>, i: nat)
    requires
        is_free_index(paths, i),
    ensures
        free_slot(paths) == slot(i),
{
    let k = choose|k: nat| is_free_index(paths, k);
    assert(is_free_index(paths, k));
    if k < i {
        assert(paths.contains(slot(k)));
    } else if i < k {
        assert(paths.contains(slot(i)));
    }
}

proof fn lemma_named_index(es: Seq<EntryView>, i: int)
    requires
        is_first_named(es, i),
    ensures
        named_index(es) == Some(i),
{
    let k = choose|k: int| is_first_named(es, k);
    assert(is_first_named(es, k));
    if k < i {
        assert(es[k].1 != app_name());
    } else if i < k {
        assert(es[i].1 != app_name());
    }
}

// ---------------------------------------------------------------------------
// Laws
// ---------------------------------------------------------------------------
/// A shortcut installed anew never takes a path that is already listed.
pub proof fn lemma_new_path_unused(es: Seq<EntryView>)
    requires
        named_index(es) is None,
    ensures
        !paths_of(es).contains(target_path(es)),
{
    let ps = paths_of(es);
    lemma_some_slot_free(ps);
    let j = choose|j: nat| j <= ps.len() && !ps.contains(slot(j));
    lemma_least_free(ps, j);
}

proof fn lemma_least_free(ps: Seq<Seq<char>>, j: nat)
    requires
        !ps.contains(slot(j)),
    ensures
        exists|i: nat| is_free_index(ps, i),
        !ps.contains(free_slot(ps)),
    decreases j,
{
    if forall|k: nat| k < j ==> ps.contains(slot(k)) {
        assert(is_free_index(ps, j));
    } else {
        let k = choose|k: nat| k < j && !ps.contains(slot(k));
        lemma_least_free(ps, k);
    }
    let i = choose|i: nat| is_free_index(ps, i);
    assert(is_free_index(ps, i));
}

/// Installing again reuses quickshot's own entry: the list is left alone and
/// the entry's name, command and key are rewritten in place.
pub proof fn lemma_install_reuses_entry(binding: Seq<char>, command: Seq<char>, es: Seq<EntryView>)
    requires
        named_index(es) is Some,
    ensures
        ({
            let i = named_index(es)->Some_0;
            let sub = sub_schema(es[i].0);
            let w = install_plan(binding, command, es).0;
            &&& w.len() >= 3
            &&& w[0] == (set_args(sub, "name"@, quote(app_name())), true)
            &&& w[1] == (set_args(sub, "command"@, quote(command)), true)
            &&& w[2] == (set_args(sub, "binding"@, quote(binding)), true)
        }),
{
    let i = named_index(es)->Some_0;
    let k = choose|k: int| is_first_named(es, k);
    assert(is_first_named(es, k));
    assert(paths_of(es)[i] == es[i].0);
    assert(paths_of(es).contains(target_path(es)));
}

/// Every GNOME Shell screenshot key that installing may switch off is given
/// back by removing the shortcut.
pub proof fn lemma_remove_restores_shell_key(binding: Seq<char>, es: Seq<EntryView>)
    requires
        shell_key_for(lower_seq(binding)) is Some,
        named_index(es) is Some,
    ensures
        remove_plan(es).0.contains(
            (reset_args("org.gnome.shell.keybindings"@, shell_key_for(lower_seq(binding))->Some_0), false),
        ),
{
    let w = remove_plan(es).0;
    let k = shell_key_for(lower_seq(binding))->Some_0;
    if k == "show-screenshot-ui"@ {
        assert(w[4] == (reset_args("org.gnome.shell.keybindings"@, k), false));
    } else if k == "screenshot"@ {
        assert(w[5] == (reset_args("org.gnome.shell.keybindings"@, k), false));
    } else {
        assert(w[6] == (reset_args("org.gnome.shell.keybindings"@, k), false));
    }
}

/// A value written quoted reads back as itself, when it neither starts nor
/// ends with a quote.
pub proof fn lemma_quoted_value_reads_back(x: Seq<char>)
    requires
        x.len() > 0 ==> x[0] != '\'' && x.last() != '\'',
    ensures
        trim_char(quote(x), '\'') == x,
{
    let q = quote(x);
    assert(q.drop_first() =~= x.push('\''));
    if x.len() == 0 {
        assert(x.push('\'').drop_first() =~= x);
        assert(drop_leading(x, '\'') == x);
        assert(drop_leading(x.push('\''), '\'') == x);
        assert(drop_trailing(x, '\'') == x);
    } else {
        assert(x.push('\'')[0] == x[0]);
        assert(drop_leading(x.push('\''), '\'') == x.push('\''));
        assert(drop_leading(q, '\'') == x.push('\''));
        assert(x.push('\'').drop_last() =~= x);
        assert(drop_trailing(x, '\'') == x);
    }
}

proof fn lemma_pieces_nonempty(s: Seq<char>, c: char, cur: Seq<char>)
    ensures
        pieces(s, c, cur).len() >= 1,
    decreases s.len(),
{
    if s.len() > 0 {
        if s[0] == c {
            lemma_pieces_nonempty(s.drop_first(), c, Seq::empty());
        } else {
            lemma_pieces_nonempty(s.drop_first(), c, cur.push(s[0]));
        }
    }
}

/// Splitting `a + b`: the last piece of `a` runs on into `b`.
proof fn lemma_pieces_concat(a: Seq<char>, b: Seq<char>, c: char, cur: Seq<char>)
    ensures
        pieces(a + b, c, cur) == pieces(a, c, cur).drop_last() + pieces(
            b,
            c,
            pieces(a, c, cur).last(),
        ),
    decreases a.len(),
{
    if a.len() == 0 {
        assert(a + b =~= b);
    } else {
        assert((a + b)[0] == a[0]);
        assert((a + b).drop_first() =~= a.drop_first() + b);
        if a[0] == c {
            lemma_pieces_concat(a.drop_first(), b, c, Seq::empty());
            lemma_pieces_nonempty(a.drop_first(), c, Seq::empty());
            let p = pieces(a.drop_first(), c, Seq::empty());
            assert((seq![cur] + p).drop_last() =~= seq![cur] + p.drop_last());
            assert((seq![cur] + p).last() == p.last());
        } else {
            lemma_pieces_concat(a.drop_first(), b, c, cur.push(a[0]));
        }
    }
}

/// Without `c` in `s`, `s` only extends the current piece.
proof fn lemma_pieces_plain(s: Seq<char>, c: char, cur: Seq<char>)
    requires
        !s.contains(c),
    ensures
        pieces(s, c, cur) == seq![cur + s],
    decreases s.len(),
{
    if s.len() > 0 {
        assert(s[0] != c);
        assert(!s.drop_first().contains(c)) by {
            if s.drop_first().contains(c) {
                let k = choose|k: int| 0 <= k < s.drop_first().len() && s.drop_first()[k] == c;
                assert(s[k + 1] == c);
            }
        }
        lemma_pieces_plain(s.drop_first(), c, cur.push(s[0]));
        assert(cur.push(s[0]) + s.drop_first() =~= cur + s);
    } else {
        assert(cur + s =~= cur);
    }
}

/// A quoted item splits into the current piece, the item, and a fresh piece.
proof fn lemma_pieces_quoted(p: Seq<char>, cur: Seq<char>)
    requires
        !p.contains('\''),
    ensures
        pieces(quote(p), '\'', cur) == seq![cur, p, Seq::<char>::empty()],
{
    let q = seq!['\''];
    assert(quote(p) =~= q + (p + q));
    lemma_pieces_concat(q, p + q, '\'', cur);
    assert(q.drop_first() =~= Seq::<char>::empty());
    assert(pieces(q, '\'', cur) == seq![cur] + pieces(Seq::<char>::empty(), '\'', Seq::empty()));
    lemma_pieces_concat(p, q, '\'', Seq::empty());
    lemma_pieces_plain(p, '\'', Seq::empty());
    assert(Seq::<char>::empty() + p =~= p);
    assert(pieces(q, '\'', p) == seq![p] + pieces(Seq::<char>::empty(), '\'', Seq::empty()));
}

proof fn lemma_keep_concat(x: Seq<Seq<char>>, y: Seq<Seq<char>>)
    ensures
        keep_paths(x + y) == keep_paths(x) + keep_paths(y),
    decreases y.len(),
{
    if y.len() == 0 {
        assert(x + y =~= x);
        assert(keep_paths(x) + keep_paths(y) =~= keep_paths(x));
    } else {
        assert((x + y).drop_last() =~= x + y.drop_last());
        assert((x + y).last() == y.last());
        lemma_keep_concat(x, y.drop_last());
    }
}

/// The pieces of a written list up to the closing bracket.
pub open spec fn list_pieces(ps: Seq<Seq<char>>) -> Seq<Seq<char>>
    decreases ps.len(),
{
    if ps.len() <= 1 {
        seq!["["@] + ps
    } else {
        list_pieces(ps.drop_last()) + seq![", "@, ps.last()]
    }
}

/// Every item is a path without quotes.
pub open spec fn plain_paths(ps: Seq<Seq<char>>) -> bool {
    forall|i: int| 0 <= i < ps.len() ==> is_path(#[trigger] ps[i]) && !ps[i].contains('\'')
}

proof fn lemma_list_pieces(ps: Seq<Seq<char>>)
    requires
        ps.len() >= 1,
        plain_paths(ps),
    ensures
        pieces(seq!['['] + join_quoted(ps), '\'', Seq::empty()) == list_pieces(ps).push(
            Seq::<char>::empty(),
        ),
        keep_paths(list_pieces(ps)) == ps,
    decreases ps.len(),
{
    reveal_strlit("[");
    reveal_strlit(", ");
    reveal_with_fuel(keep_paths, 3);
    let open = seq!['['];
    if ps.len() == 1 {
        assert(ps[0].contains('\'') == false);
        lemma_pieces_concat(open, quote(ps[0]), '\'', Seq::empty());
        lemma_pieces_plain(open, '\'', Seq::empty());
        assert(Seq::<char>::empty() + open =~= open);
        lemma_pieces_quoted(ps[0], open);
        assert(open =~= "["@);
        assert(list_pieces(ps) =~= seq!["["@, ps[0]]);
        assert(seq![open] .drop_last() =~= Seq::<Seq<char>>::empty());
        assert(pieces(open + join_quoted(ps), '\'', Seq::empty()) =~= list_pieces(ps).push(
            Seq::<char>::empty(),
        ));
        let lp = list_pieces(ps);
        assert(lp.drop_last() =~= seq!["["@]);
        assert(seq!["["@].drop_last() =~= Seq::<Seq<char>>::empty());
        assert(!is_path("["@));
    } else {
        let prev = ps.drop_last();
        assert(plain_paths(prev)) by {
            assert forall|i: int| 0 <= i < prev.len() implies is_path(#[trigger] prev[i]) && !prev[i].contains('\'') by {
                assert(prev[i] == ps[i]);
            }
        }
        lemma_list_pieces(prev);
        let last = ps.last();
        assert(is_path(ps[ps.len() - 1]));
        let x = open + join_quoted(prev);
        let tail = ", "@ + quote(last);
        assert(open + join_quoted(ps) =~= x + tail);
        lemma_pieces_concat(x, tail, '\'', Seq::empty());
        let px = list_pieces(prev).push(Seq::<char>::empty());
        assert(px.drop_last() =~= list_pieces(prev));
        lemma_pieces_concat(", "@, quote(last), '\'', Seq::empty());
        assert(!", "@.contains('\'')) by {
            assert(", "@[0] != '\'' && ", "@[1] != '\'');
        }
        lemma_pieces_plain(", "@, '\'', Seq::empty());
        assert(Seq::<char>::empty() + ", "@ =~= ", "@);
        lemma_pieces_quoted(last, ", "@);
        assert(seq![", "@].drop_last() =~= Seq::<Seq<char>>::empty());
        assert(pieces(tail, '\'', Seq::empty()) =~= seq![", "@, last, Seq::<char>::empty()]);
        assert(pieces(x + tail, '\'', Seq::empty()) =~= list_pieces(ps).push(Seq::<char>::empty()));
        lemma_keep_concat(list_pieces(prev), seq![", "@, last]);
        let two = seq![", "@, last];
        assert(two.drop_last() =~= seq![", "@]);
        assert(seq![", "@].drop_last() =~= Seq::<Seq<char>>::empty());
        assert(!is_path(", "@));
        assert(keep_paths(two) =~= seq![last]);
        assert(prev.push(last) =~= ps);
    }
}

/// The list as written when installing reads back as the same paths.
pub proof fn lemma_list_reads_back(ps: Seq<Seq<char>>)
    requires
        plain_paths(ps),
    ensures
        parse_paths(list_value(ps)) == ps,
{
    reveal_strlit("[");
    reveal_with_fuel(keep_paths, 2);
    let open = seq!['['];
    let close = seq![']'];
    if ps.len() == 0 {
        assert(list_value(ps) =~= seq!['[', ']']);
        let s = seq!['[', ']'];
        assert(!s.contains('\'')) by {
            assert(s[0] != '\'' && s[1] != '\'');
        }
        lemma_pieces_plain(s, '\'', Seq::empty());
        assert(Seq::<char>::empty() + s =~= s);
        let one = seq![s];
        assert(one.drop_last() =~= Seq::<Seq<char>>::empty());
        assert(!is_path(s));
    } else {
        lemma_list_pieces(ps);
        let x = open + join_quoted(ps);
        assert(list_value(ps) =~= x + close);
        lemma_pieces_concat(x, close, '\'', Seq::empty());
        assert(list_pieces(ps).push(Seq::<char>::empty()).drop_last() =~= list_pieces(ps));
        assert(!close.contains('\'')) by {
            assert(close[0] != '\'');
        }
        lemma_pieces_plain(close, '\'', Seq::empty());
        assert(Seq::<char>::empty() + close =~= close);
        lemma_keep_concat(list_pieces(ps), seq![close]);
        assert(seq![close].drop_last() =~= Seq::<Seq<char>>::empty());
        assert(!is_path(close));
        assert(keep_paths(seq![close]) =~= Seq::<Seq<char>>::empty());
        assert(keep_paths(list_pieces(ps)) + Seq::<Seq<char>>::empty() =~= ps);
    }
}

// ---------------------------------------------------------------------------
// Executable helpers
// ---------------------------------------------------------------------------
fn text(s: &str) -> (r: String)
    ensures
        r@ == s@,
{
    String::from_str(s)
}

/// `true` when `v` holds a string equal to `s`.
fn contains_text(v: &Vec<String>, s: &String) -> (r: bool)
    ensures
        r == texts(v@).contains(s@),
{
    let mut i: usize = 0;
    while i < v.len()
        invariant
            i <= v@.len(),
            forall|j: int| 0 <= j < i ==> v@[j]@ != s@,
        decreases v@.len() - i,
    {
        if same_string(&v[i], s) {
            assert(texts(v@)[i as int] == s@);
            return true;
        }
        i = i + 1;
    }
    assert(!texts(v@).contains(s@)) by {
        if texts(v@).contains(s@) {
            let k = choose|k: int| 0 <= k < texts(v@).len() && texts(v@)[k] == s@;
            assert(v@[k]@ == s@);
        }
    }
    false
}

/// The path of slot `i`.
fn slot_path(i: u64) -> (r: String)
    ensures
        r@ == slot(i as nat),
{
    let mut s = text("/org/gnome/settings-daemon/plugins/media-keys/custom-keybindings/custom");
    push_decimal(&mut s, i);
    push_char(&mut s, '/');
    s
}

/// The first slot whose path is not in `paths`.
fn first_free_slot(paths: &Vec<String>) -> (r: String)
    requires
        paths@.len() < u64::MAX,
    ensures
        r@ == free_slot(texts(paths@)),
{
    let ghost ps = texts(paths@);
    proof {
        lemma_some_slot_free(ps);
    }
    let n: u64 = paths.len() as u64;
    let mut i: u64 = 0;
    loop
        invariant
            ps == texts(paths@),
            n == paths@.len(),
            i <= n,
            exists|j: nat| i <= j <= n && !ps.contains(slot(j)),
            forall|j: nat| j < i ==> ps.contains(slot(j)),
        decreases n - i,
    {
        let p = slot_path(i);
        if !contains_text(paths, &p) {
            proof {
                assert(is_free_index(ps, i as nat));
                lemma_free_index_unique(ps, i as nat);
            }
            return p;
        }
        proof {
            let j = choose|j: nat| i <= j <= n && !ps.contains(slot(j));
            assert(j != i);
        }
        i = i + 1;
    }
}

/// The first entry named `quickshot`.
fn find_named(es: &Vec<Entry>) -> (r: Option<usize>)
    ensures
        match r {
            Some(i) => named_index(entry_views(es@)) == Some(i as int),
            None => named_index(entry_views(es@)) is None,
        },
{
    let ghost ev = entry_views(es@);
    let name = text("quickshot");
    let mut i: usize = 0;
    while i < es.len()
        invariant
            ev == entry_views(es@),
            name@ == app_name(),
            i <= es@.len(),
            forall|j: int| 0 <= j < i ==> ev[j].1 != app_name(),
        decreases es@.len() - i,
    {
        if same_string(&es[i].name, &name) {
            proof {
                assert(is_first_named(ev, i as int));
                lemma_named_index(ev, i as int);
            }
            return Some(i);
        }
        i = i + 1;
    }
    assert(!exists|k: int| is_first_named(ev, k));
    None
}

/// Appends `'p'`.
fn push_quoted(s: &mut String, p: &str)
    ensures
        final(s)@ == old(s)@ + quote(p@),
{
    push_char(s, '\'');
    push_str(s, p);
    push_char(s, '\'');
    assert(s@ =~= old(s)@ + quote(p@));
}

/// `['a', 'b']` for the given items.
fn list_text(ps: &Vec<String>) -> (r: String)
    ensures
        r@ == list_value(texts(ps@)),
{
    let mut s = String::new();
    push_char(&mut s, '[');
    let ghost start = s@;
    let mut i: usize = 0;
    while i < ps.len()
        invariant
            i <= ps@.len(),
            start == seq!['['],
            s@ == start + join_quoted(texts(ps@).subrange(0, i as int)),
        decreases ps@.len() - i,
    {
        let ghost before = s@;
        if i > 0 {
            push_str(&mut s, ", ");
        }
        push_quoted(&mut s, ps[i].as_str());
        proof {
            let t = texts(ps@).subrange(0, i + 1);
            assert(t.drop_last() =~= texts(ps@).subrange(0, i as int));
            assert(t.last() == ps@[i as int]@);
            if i == 0 {
                assert(join_quoted(t) == quote(t[0]));
            }
        }
        i = i + 1;
        assert(s@ =~= start + join_quoted(texts(ps@).subrange(0, i as int)));
    }
    push_char(&mut s, ']');
    assert(texts(ps@).subrange(0, ps@.len() as int) =~= texts(ps@));
    assert(s@ =~= list_value(texts(ps@)));
    s
}

fn sub_schema_text(path: &str) -> (r: String)
    ensures
        r@ == sub_schema(path@),
{
    let mut s = text("org.gnome.settings-daemon.plugins.media-keys");
    push_str(&mut s, ".custom-keybinding:");
    push_str(&mut s, path);
    s
}

fn args3(a: &str, b: String, c: &str) -> (r: Vec<String>)
    ensures
        texts(r@) == seq![a@, b@, c@],
{
    let mut v: Vec<String> = Vec::new();
    v.push(text(a));
    v.push(b);
    v.push(text(c));
    assert(texts(v@) =~= seq![a@, b@, c@]);
    v
}

fn args4(a: &str, b: String, c: &str, d: String) -> (r: Vec<String>)
    ensures
        texts(r@) == seq![a@, b@, c@, d@],
{
    let mut v: Vec<String> = Vec::new();
    v.push(text(a));
    v.push(b);
    v.push(text(c));
    v.push(d);
    assert(texts(v@) =~= seq![a@, b@, c@, d@]);
    v
}

fn write(args: Vec<String>, required: bool) -> (w: Write)
    ensures
        w@ == (texts(args@), required),
{
    Write { args, required }
}

proof fn lemma_push_view(ws: Seq<Write>, w: Write)
    ensures
        ws.push(w).map_values(|x: Write| x@) == ws.map_values(|x: Write| x@).push(w@),
{
    assert(ws.push(w).map_values(|x: Write| x@) =~= ws.map_values(|x: Write| x@).push(w@));
}

// ---------------------------------------------------------------------------
// The operations
// ---------------------------------------------------------------------------
/// The paths listed in the reply of `gsettings get <schema> custom-keybindings`
/// (`['/a/', '/b/']` or `@as []`); an error stays an error.
pub fn list_paths(reply: Result<String, String>) -> (r: Result<Vec<String>, String>)
    ensures
        match reply {
            Ok(raw) => r is Ok && texts(r->Ok_0@) == parse_paths(raw@),
            Err(e) => r == Err::<Vec<String>, String>(e),
        },
{
    let raw = match reply {
        Ok(raw) => raw,
        Err(e) => {
            return Err(e);
        },
    };
    let chars = chars_of(raw.as_str());
    let ghost s = chars@;
    let mut out: Vec<String> = Vec::new();
    let mut cur: Vec<char> = Vec::new();
    let ghost mut done: Seq<Seq<char>> = Seq::empty();
    let mut i: usize = 0;
    assert(s.subrange(0, s.len() as int) =~= s);
    assert(done + pieces(s, '\'', cur@) =~= pieces(s, '\'', Seq::empty()));
    while i < chars.len()
        invariant
            s == chars@,
            i <= s.len(),
            pieces(s, '\'', Seq::empty()) == done + pieces(
                s.subrange(i as int, s.len() as int),
                '\'',
                cur@,
            ),
            texts(out@) == keep_paths(done),
        decreases s.len() - i,
    {
        let c = chars[i];
        let ghost rest = s.subrange(i as int, s.len() as int);
        assert(rest.drop_first() =~= s.subrange(i + 1, s.len() as int));
        assert(rest[0] == c);
        if c == '\'' {
            let ghost piece = cur@;
            if cur.len() > 0 && cur[0] == '/' {
                let p = string_of(&cur);
                out.push(p);
            }
            proof {
                let d2 = done.push(piece);
                assert(d2.drop_last() =~= done);
                assert(texts(out@) =~= keep_paths(d2));
                assert(done + pieces(rest, '\'', piece) =~= d2 + pieces(
                    s.subrange(i + 1, s.len() as int),
                    '\'',
                    Seq::empty(),
                ));
                done = d2;
            }
            cur = Vec::new();
        } else {
            cur.push(c);
        }
        i = i + 1;
    }
    let ghost piece = cur@;
    assert(s.subrange(s.len() as int, s.len() as int) =~= Seq::<char>::empty());
    assert(s.subrange(0, s.len() as int) =~= s);
    if cur.len() > 0 && cur[0] == '/' {
        let p = string_of(&cur);
        out.push(p);
    }
    proof {
        let d2 = done.push(piece);
        assert(d2.drop_last() =~= done);
        assert(done + seq![piece] =~= d2);
        assert(texts(out@) =~= keep_paths(d2));
    }
    Ok(out)
}

/// The value of a string key from a `gsettings get` reply, quotes removed;
/// an error reads as the empty string.
fn entry_value_of(reply: Result<String, String>) -> (r: String)
    ensures
        r@ == entry_value(reply),
{
    match reply {
        Ok(s) => {
            let v = chars_of(s.as_str());
            let (lo, hi) = trim_char_bounds(&v, 0, v.len(), '\'');
            assert(v@.subrange(0, v@.len() as int) =~= v@);
            string_of_range(&v, lo, hi)
        },
        Err(_) => String::new(),
    }
}

/// The name of a keybinding from the reply of `gsettings get <sub> name`.
pub fn entry_name(reply: Result<String, String>) -> (r: String)
    ensures
        r@ == entry_value(reply),
{
    entry_value_of(reply)
}

/// The key of a keybinding from the reply of `gsettings get <sub> binding`.
pub fn entry_binding(reply: Result<String, String>) -> (r: String)
    ensures
        r@ == entry_value(reply),
{
    entry_value_of(reply)
}

/// The key now bound to quickshot, if any: the binding of the first entry named
/// `quickshot`, unless it is empty; nothing when the listing failed.
pub fn current_binding(listing: Result<Vec<Entry>, String>) -> (r: Option<String>)
    ensures
        match listing {
            Err(_) => r is None,
            Ok(es) => match r {
                Some(b) => bound_key(entry_views(es@)) == Some(b@),
                None => bound_key(entry_views(es@)) is None,
            },
        },
{
    let es = match listing {
        Ok(es) => es,
        Err(_) => {
            return None;
        },
    };
    match find_named(&es) {
        None => None,
        Some(i) => {
            let b = es[i].binding.clone();
            if b.as_str().unicode_len() == 0 {
                None
            } else {
                Some(b)
            }
        },
    }
}

fn paths_vec(es: &Vec<Entry>) -> (r: Vec<String>)
    ensures
        texts(r@) == paths_of(entry_views(es@)),
{
    let mut r: Vec<String> = Vec::new();
    let mut i: usize = 0;
    while i < es.len()
        invariant
            i <= es@.len(),
            texts(r@) == paths_of(entry_views(es@)).subrange(0, i as int),
        decreases es@.len() - i,
    {
        let p = es[i].path.clone();
        assert(p@ == paths_of(entry_views(es@))[i as int]);
        let ghost before = r@;
        r.push(p);
        assert(r@ == before.push(p));
        assert(texts(r@) =~= texts(before).push(p@));
        i = i + 1;
        assert(texts(r@) =~= paths_of(entry_views(es@)).subrange(0, i as int));
    }
    assert(paths_of(entry_views(es@)).subrange(0, es@.len() as int) =~= paths_of(
        entry_views(es@),
    ));
    r
}

fn unbind_note_text(binding: &str, other: &Entry) -> (r: String)
    ensures
        r@ == unbind_note(binding@, other@),
{
    let mut s = text("\nĐã gỡ phím [");
    push_str(&mut s, binding);
    push_str(&mut s, "] khỏi custom shortcut '");
    push_str(&mut s, other.name.as_str());
    push_str(&mut s, "' (đang chiếm phím này).\nKhôi phục: gsettings set ");
    let sub = sub_schema_text(other.path.as_str());
    push_str(&mut s, sub.as_str());
    push_str(&mut s, " binding \"'");
    push_str(&mut s, binding);
    push_str(&mut s, "'\"");
    assert(s@ =~= unbind_note(binding@, other@));
    s
}

fn lower_text(s: &str) -> (r: Vec<char>)
    ensures
        r@ == lower_seq(s@),
{
    let v = chars_of(s);
    lower_chars(&v)
}

/// The GNOME Shell screenshot key that uses the lower-cased binding `lower`.
fn shell_key(lower: &Vec<char>) -> (r: Option<&'static str>)
    ensures
        match r {
            Some(k) => shell_key_for(lower@) == Some(k@),
            None => shell_key_for(lower@) is None,
        },
{
    if same_as(lower, "print") {
        Some("show-screenshot-ui")
    } else if same_as(lower, "<shift>print") {
        Some("screenshot")
    } else if same_as(lower, "<alt>print") {
        Some("screenshot-window")
    } else {
        None
    }
}

/// Binds `binding` (such as `Print` or `<Super>s`) to `command` over the listing
/// of custom keybindings; an error from the listing is handed back.
pub fn install(binding: &str, command: &str, listing: Result<Vec<Entry>, String>) -> (r: Result<
    Plan,
    String,
>)
    requires
        listing is Ok ==> listing->Ok_0@.len() < u64::MAX,
    ensures
        match listing {
            Err(e) => r == Err::<Plan, String>(e),
            Ok(es) => r is Ok && r->Ok_0@ == install_plan(binding@, command@, entry_views(es@)),
        },
{
    let es = match listing {
        Ok(es) => es,
        Err(e) => {
            return Err(e);
        },
    };
    let ghost ev = entry_views(es@);
    let mut paths = paths_vec(&es);
    assert(paths@.len() == texts(paths@).len());
    assert(paths@.len() == es@.len());
    let path = match find_named(&es) {
        Some(i) => es[i].path.clone(),
        None => first_free_slot(&paths),
    };
    assert(path@ == target_path(ev));
    let mut writes: Vec<Write> = Vec::new();
    let ghost ps = texts(paths@);
    if !contains_text(&paths, &path) {
        paths.push(path.clone());
        assert(texts(paths@) =~= ps.push(path@));
        let list = list_text(&paths);
        let w = write(args4("set", text("org.gnome.settings-daemon.plugins.media-keys"), "custom-keybindings", list), true);
        writes.push(w);
    }
    let ghost list_write = writes@.map_values(|x: Write| x@);
    assert(list_write == (if ps.contains(path@) {
        Seq::<WriteView>::empty()
    } else {
        seq![(set_args(schema(), list_key(), list_value(ps.push(path@))), true)]
    }));
    let name_q = {
        let mut q = String::new();
        push_quoted(&mut q, "quickshot");
        q
    };
    let cmd_q = {
        let mut q = String::new();
        push_quoted(&mut q, command);
        q
    };
    let bind_q = {
        let mut q = String::new();
        push_quoted(&mut q, binding);
        q
    };
    let sub = sub_schema_text(path.as_str());
    let w1 = write(args4("set", sub.clone(), "name", name_q), true);
    let w2 = write(args4("set", sub.clone(), "command", cmd_q), true);
    let w3 = write(args4("set", sub, "binding", bind_q), true);
    proof {
        lemma_push_view(writes@, w1);
    }
    writes.push(w1);
    proof {
        lemma_push_view(writes@, w2);
    }
    writes.push(w2);
    proof {
        lemma_push_view(writes@, w3);
    }
    writes.push(w3);
    let ghost sub_v = sub_schema(path@);
    let ghost own: Seq<WriteView> = seq![
        (set_args(sub_v, "name"@, quote(app_name())), true),
        (set_args(sub_v, "command"@, quote(command@)), true),
        (set_args(sub_v, "binding"@, quote(binding@)), true),
    ];
    assert(writes@.map_values(|x: Write| x@) =~= list_write + own);
    let mut msg = text("Đã gán phím [");
    push_str(&mut msg, binding);
    push_str(&mut msg, "] → ");
    push_str(&mut msg, command);
    let ghost head = msg@;
    assert(head =~= "Đã gán phím ["@ + binding@ + "] → "@ + command@);
    let want = lower_text(binding);
    let mut i: usize = 0;
    while i < es.len()
        invariant
            ev == entry_views(es@),
            i <= es@.len(),
            want@ == lower_seq(binding@),
            writes@.map_values(|x: Write| x@) == list_write + own + unbind_others(
                ev.subrange(0, i as int),
                path@,
                binding@,
            ).0,
            msg@ == head + unbind_others(ev.subrange(0, i as int), path@, binding@).1,
        decreases es@.len() - i,
    {
        let ghost prev = unbind_others(ev.subrange(0, i as int), path@, binding@);
        let ghost t = ev.subrange(0, i + 1);
        assert(t.drop_last() =~= ev.subrange(0, i as int));
        assert(t.last() == es@[i as int]@);
        let e = &es[i];
        let other_lower = lower_text(e.binding.as_str());
        if !same_string(&e.path, &path) && same_chars(&other_lower, &want) {
            let w = write(args4("set", sub_schema_text(e.path.as_str()), "binding", text("''")), false);
            proof {
                lemma_push_view(writes@, w);
            }
            writes.push(w);
            let note = unbind_note_text(binding, e);
            push_str(&mut msg, note.as_str());
            assert(msg@ =~= head + unbind_others(t, path@, binding@).1);
            assert(writes@.map_values(|x: Write| x@) =~= list_write + own + unbind_others(t, path@, binding@).0);
        }
        i = i + 1;
    }
    assert(ev.subrange(0, es@.len() as int) =~= ev);
    match shell_key(&want) {
        Some(k) => {
            let w = write(args4("set", text("org.gnome.shell.keybindings"), k, text("[]")), false);
            proof {
                lemma_push_view(writes@, w);
            }
            writes.push(w);
            push_str(&mut msg, "\nĐã tắt phím tắt GNOME '");
            push_str(&mut msg, k);
            push_str(&mut msg, "' để nhường [");
            push_str(&mut msg, binding);
            push_str(&mut msg, "] cho quickshot.\nKhôi phục: gsettings reset org.gnome.shell.keybindings ");
            push_str(&mut msg, k);
            proof {
                let others = unbind_others(ev, path@, binding@);
                assert(msg@ =~= head + others.1 + shell_note(binding@, k@));
                assert(writes@.map_values(|x: Write| x@) =~= list_write + own + others.0 + seq![
                    (set_args("org.gnome.shell.keybindings"@, k@, "[]"@), false),
                ]);
            }
        },
        None => {},
    }
    Ok(Plan { writes, message: msg })
}

/// Removes quickshot's keybinding and gives GNOME's screenshot keys back, over
/// the listing of custom keybindings; an error from the listing is handed back.
pub fn remove(listing: Result<Vec<Entry>, String>) -> (r: Result<Plan, String>)
    ensures
        match listing {
            Err(e) => r == Err::<Plan, String>(e),
            Ok(es) => r is Ok && r->Ok_0@ == remove_plan(entry_views(es@)),
        },
{
    let es = match listing {
        Ok(es) => es,
        Err(e) => {
            return Err(e);
        },
    };
    let ghost ev = entry_views(es@);
    let i = match find_named(&es) {
        None => {
            let writes: Vec<Write> = Vec::new();
            let p = Plan { writes, message: text("Chưa có phím tắt quickshot nào.") };
            assert(p@.0 =~= Seq::<WriteView>::empty());
            return Ok(p);
        },
        Some(i) => i,
    };
    let path = es[i].path.clone();
    let ghost all = paths_of(ev);
    let mut rest: Vec<String> = Vec::new();
    let mut j: usize = 0;
    while j < es.len()
        invariant
            ev == entry_views(es@),
            all == paths_of(ev),
            j <= es@.len(),
            texts(rest@) == without(all.subrange(0, j as int), path@),
        decreases es@.len() - j,
    {
        let ghost t = all.subrange(0, j + 1);
        assert(t.drop_last() =~= all.subrange(0, j as int));
        assert(t.last() == es@[j as int].path@);
        if !same_string(&es[j].path, &path) {
            rest.push(es[j].path.clone());
            assert(texts(rest@) =~= without(t, path@));
        }
        j = j + 1;
    }
    assert(all.subrange(0, es@.len() as int) =~= all);
    let list = if rest.len() == 0 {
        text("@as []")
    } else {
        list_text(&rest)
    };
    let sub = sub_schema_text(path.as_str());
    let mut writes: Vec<Write> = Vec::new();
    writes.push(write(args4("set", text("org.gnome.settings-daemon.plugins.media-keys"), "custom-keybindings", list), true));
    writes.push(write(args3("reset", sub.clone(), "name"), false));
    writes.push(write(args3("reset", sub.clone(), "command"), false));
    writes.push(write(args3("reset", sub, "binding"), false));
    writes.push(write(args3("reset", text("org.gnome.shell.keybindings"), "show-screenshot-ui"), false));
    writes.push(write(args3("reset", text("org.gnome.shell.keybindings"), "screenshot"), false));
    writes.push(write(args3("reset", text("org.gnome.shell.keybindings"), "screenshot-window"), false));
    let p = Plan { writes, message: text("Đã gỡ phím tắt quickshot và khôi phục phím Print của GNOME.") };
    assert(p@.0 =~= remove_plan(ev).0);
    Ok(p)
}

/// The command the shortcut runs: `gtk-launch <id>` when the desktop file is
/// installed and `gtk-launch` is there (GNOME then remembers the screenshot
/// permission), else the path of the running program, else `quickshot`.
pub open spec fn launch_command_spec(
    desktop_id: Seq<char>,
    desktop_installed: bool,
    has_gtk_launch: bool,
    exe: Option<Seq<char>>,
) -> Seq<char> {
    if desktop_installed && has_gtk_launch {
        "gtk-launch "@ + desktop_id
    } else {
        match exe {
            Some(p) => p,
            None => "quickshot"@,
        }
    }
}

/// Chooses the command the shortcut runs, from what was found on the machine.
pub fn launch_command(desktop_id: &str, desktop_installed: bool, has_gtk_launch: bool, exe: Option<String>) -> (r: String)
    ensures
        r@ == launch_command_spec(
            desktop_id@,
            desktop_installed,
            has_gtk_launch,
            match exe {
                Some(p) => Some(p@),
                None => None,
            },
        ),
{
    if desktop_installed && has_gtk_launch {
        let mut s = text("gtk-launch ");
        push_str(&mut s, desktop_id);
        s
    } else {
        match exe {
            Some(p) => p,
            None => text("quickshot"),
        }
    }
}

// ---------------------------------------------------------------------------
// What the settings read back after a plan's writes
// ---------------------------------------------------------------------------
/// The settings as `gsettings` keeps them: each (schema, key) holds the text
/// last written to it; a key absent from the map is at its default.
pub type Store = Map<(Seq<char>, Seq<char>), Seq<char>>;

/// One `gsettings` call: `set` stores the value, `reset` returns the key to
/// its default.
pub open spec fn apply_write(st: Store, args: Seq<Seq<char>>) -> Store {
    if args.len() == 4 && args[0] == "set"@ {
        st.insert((args[1], args[2]), args[3])
    } else if args.len() == 3 && args[0] == "reset"@ {
        st.remove((args[1], args[2]))
    } else {
        st
    }
}

/// The writes made in order, every one succeeding.
pub open spec fn apply_writes(st: Store, ws: Seq<WriteView>) -> Store
    decreases ws.len(),
{
    if ws.len() == 0 {
        st
    } else {
        apply_write(apply_writes(st, ws.drop_last()), ws.last().0)
    }
}

/// A string key read back with its quotes stripped; at its default it reads empty.
pub open spec fn stored_value(st: Store, s: Seq<char>, k: Seq<char>) -> Seq<char> {
    if st.dom().contains((s, k)) {
        trim_char(st[(s, k)], '\'')
    } else {
        Seq::empty()
    }
}

/// The listed paths; the default list is empty.
pub open spec fn stored_paths(st: Store) -> Seq<Seq<char>> {
    if st.dom().contains((schema(), list_key())) {
        parse_paths(st[(schema(), list_key())])
    } else {
        Seq::empty()
    }
}

/// The custom keybindings as read from the store, in list order.
pub open spec fn stored_listing(st: Store) -> Seq<EntryView> {
    stored_paths(st).map_values(
        |p: Seq<char>|
            (p, stored_value(st, sub_schema(p), "name"@), stored_value(st, sub_schema(p), "binding"@)),
    )
}

/// The key reported as bound to quickshot over a listing.
pub open spec fn bound_key(es: Seq<EntryView>) -> Option<Seq<char>> {
    match named_index(es) {
        None => None,
        Some(i) => if es[i].2.len() == 0 {
            None
        } else {
            Some(es[i].2)
        },
    }
}

/// `args` writes the key `key`.
pub open spec fn writes_key(args: Seq<Seq<char>>, key: (Seq<char>, Seq<char>)) -> bool {
    args.len() >= 3 && args[1] == key.0 && args[2] == key.1
}

proof fn lemma_apply_concat(st: Store, a: Seq<WriteView>, b: Seq<WriteView>)
    ensures
        apply_writes(st, a + b) == apply_writes(apply_writes(st, a), b),
    decreases b.len(),
{
    if b.len() == 0 {
        assert(a + b =~= a);
    } else {
        assert((a + b).drop_last() =~= a + b.drop_last());
        assert((a + b).last() == b.last());
        lemma_apply_concat(st, a, b.drop_last());
    }
}

/// Writes that do not name a key leave it as it was.
proof fn lemma_apply_other(st: Store, ws: Seq<WriteView>, key: (Seq<char>, Seq<char>))
    requires
        forall|j: int| 0 <= j < ws.len() ==> !writes_key(#[trigger] ws[j].0, key),
    ensures
        apply_writes(st, ws).dom().contains(key) == st.dom().contains(key),
        st.dom().contains(key) ==> apply_writes(st, ws)[key] == st[key],
    decreases ws.len(),
{
    if ws.len() > 0 {
        let prev = ws.drop_last();
        assert forall|j: int| 0 <= j < prev.len() implies !writes_key(#[trigger] prev[j].0, key) by {
            assert(prev[j] == ws[j]);
        }
        lemma_apply_other(st, prev, key);
        assert(!writes_key(ws[ws.len() - 1].0, key));
    }
}

proof fn lemma_sub_len(p: Seq<char>)
    ensures
        sub_schema(p).len() == 63 + p.len(),
{
    reveal_strlit("org.gnome.settings-daemon.plugins.media-keys");
    reveal_strlit(".custom-keybinding:");
}

proof fn lemma_sub_injective(p: Seq<char>, q: Seq<char>)
    requires
        sub_schema(p) == sub_schema(q),
    ensures
        p == q,
{
    lemma_sub_len(p);
    lemma_sub_len(q);
    assert(sub_schema(p).subrange(63, sub_schema(p).len() as int) =~= p);
    assert(sub_schema(q).subrange(63, sub_schema(q).len() as int) =~= q);
}

/// The pieces of a split never hold the separator.
proof fn lemma_pieces_no_sep(s: Seq<char>, c: char, cur: Seq<char>)
    requires
        !cur.contains(c),
    ensures
        forall|k: int|
            0 <= k < pieces(s, c, cur).len() ==> !(#[trigger] pieces(s, c, cur)[k]).contains(c),
    decreases s.len(),
{
    let all = pieces(s, c, cur);
    if s.len() == 0 {
        assert(all =~= seq![cur]);
        assert forall|k: int| 0 <= k < all.len() implies !(#[trigger] all[k]).contains(c) by {
            assert(all[k] == cur);
        }
    } else if s[0] == c {
        assert(!Seq::<char>::empty().contains(c));
        lemma_pieces_no_sep(s.drop_first(), c, Seq::empty());
        let rest = pieces(s.drop_first(), c, Seq::empty());
        assert(all =~= seq![cur] + rest);
        assert forall|k: int| 0 <= k < all.len() implies !(#[trigger] all[k]).contains(c) by {
            if k == 0 {
                assert(all[0] == cur);
            } else {
                assert(all[k] == rest[k - 1]);
            }
        }
    } else {
        let next = cur.push(s[0]);
        assert(!next.contains(c)) by {
            if next.contains(c) {
                let k = choose|k: int| 0 <= k < next.len() && next[k] == c;
                if k < cur.len() {
                    assert(cur[k] == c);
                }
            }
        }
        lemma_pieces_no_sep(s.drop_first(), c, next);
        assert(all == pieces(s.drop_first(), c, next));
    }
}

proof fn lemma_keep_plain(parts: Seq<Seq<char>>)
    requires
        forall|k: int| 0 <= k < parts.len() ==> !(#[trigger] parts[k]).contains('\''),
    ensures
        plain_paths(keep_paths(parts)),
    decreases parts.len(),
{
    if parts.len() > 0 {
        let prev = parts.drop_last();
        assert forall|k: int| 0 <= k < prev.len() implies !(#[trigger] prev[k]).contains('\'') by {
            assert(prev[k] == parts[k]);
        }
        lemma_keep_plain(prev);
        assert(!parts[parts.len() - 1].contains('\''));
    }
}

/// Paths read from a list are plain paths.
proof fn lemma_parsed_plain(raw: Seq<char>)
    ensures
        plain_paths(parse_paths(raw)),
{
    assert(!Seq::<char>::empty().contains('\''));
    lemma_pieces_no_sep(raw, '\'', Seq::empty());
    lemma_keep_plain(pieces(raw, '\'', Seq::empty()));
}

proof fn lemma_decimal_digits(n: nat)
    ensures
        !decimal(n).contains('\''),
    decreases n,
{
    if n >= 10 {
        lemma_decimal_digits(n / 10);
        let d = decimal(n / 10);
        assert forall|k: int| 0 <= k < decimal(n).len() implies decimal(n)[k] != '\'' by {
            if k < d.len() {
                assert(decimal(n)[k] == d[k]);
            }
        }
    } else {
        assert(decimal(n)[0] == digit_char(n));
    }
}

/// A slot is a plain path.
proof fn lemma_slot_plain(i: nat)
    ensures
        is_path(slot(i)),
        !slot(i).contains('\''),
{
    reveal_strlit("/org/gnome/settings-daemon/plugins/media-keys/custom-keybindings/custom");
    let pre = "/org/gnome/settings-daemon/plugins/media-keys/custom-keybindings/custom"@;
    assert forall|k: int| 0 <= k < pre.len() implies pre[k] != '\'' by {}
    lemma_decimal_digits(i);
    let d = decimal(i);
    let s = slot(i);
    assert(s[0] == pre[0]);
    assert forall|k: int| 0 <= k < s.len() implies s[k] != '\'' by {
        if k < pre.len() {
            assert(s[k] == pre[k]);
        } else if k < pre.len() + d.len() {
            assert(s[k] == d[k - pre.len()]);
        }
    }
}

/// Without a first entry named `quickshot`, no entry has that name.
proof fn lemma_none_named(es: Seq<EntryView>, j: int)
    requires
        named_index(es) is None,
        0 <= j < es.len(),
    ensures
        es[j].1 != app_name(),
    decreases j,
{
    if es[j].1 == app_name() {
        if forall|k: int| 0 <= k < j ==> es[k].1 != app_name() {
            assert(is_first_named(es, j));
        } else {
            let k = choose|k: int| 0 <= k < j && es[k].1 == app_name();
            lemma_none_named(es, k);
        }
    }
}

/// The writes that take the key from other entries only touch their `binding`.
proof fn lemma_unbind_keys(es: Seq<EntryView>, path: Seq<char>, binding: Seq<char>)
    ensures
        forall|j: int|
            0 <= j < unbind_others(es, path, binding).0.len() ==> {
                let a = (#[trigger] unbind_others(es, path, binding).0[j]).0;
                &&& a.len() == 4
                &&& a[2] == "binding"@
                &&& a[1] != sub_schema(path)
                &&& a[1].len() >= 63
            },
    decreases es.len(),
{
    if es.len() > 0 {
        lemma_unbind_keys(es.drop_last(), path, binding);
        let e = es.last();
        if e.0 != path && lower_seq(e.2) == lower_seq(binding) {
            lemma_sub_len(e.0);
            lemma_sub_len(path);
            if sub_schema(e.0) == sub_schema(path) {
                lemma_sub_injective(e.0, path);
            }
            let prev = unbind_others(es.drop_last(), path, binding).0;
            let w = unbind_others(es, path, binding).0;
            assert(w == prev.push((set_args(sub_schema(e.0), "binding"@, "''"@), false)));
            assert forall|j: int| 0 <= j < w.len() implies {
                let a = (#[trigger] w[j]).0;
                &&& a.len() == 4
                &&& a[2] == "binding"@
                &&& a[1] != sub_schema(path)
                &&& a[1].len() >= 63
            } by {
                if j < prev.len() {
                    assert(w[j] == prev[j]);
                } else {
                    assert(w[j].0 == set_args(sub_schema(e.0), "binding"@, "''"@));
                }
            }
        } else {
            assert(unbind_others(es, path, binding) == unbind_others(es.drop_last(), path, binding));
        }
    }
}

proof fn lemma_named_first(es: Seq<EntryView>)
    requires
        named_index(es) is Some,
    ensures
        is_first_named(es, named_index(es)->Some_0),
{
}

/// Installing a key and listing the keybindings again finds that key bound to
/// quickshot, when every write succeeds and each key reads back as written.
pub proof fn lemma_install_reads_back(st: Store, binding: Seq<char>, command: Seq<char>)
    requires
        binding.len() > 0,
        binding[0] != '\'',
        binding.last() != '\'',
    ensures
        bound_key(
            stored_listing(apply_writes(st, install_plan(binding, command, stored_listing(st)).0)),
        ) == Some(binding),
{
    lemma_install_store(st, binding, command);
}

/// The place quickshot's entry takes in the listing after installing.
pub open spec fn install_place(es: Seq<EntryView>) -> int {
    match named_index(es) {
        Some(i) => i,
        None => es.len() as int,
    }
}

/// What the store holds after an install: quickshot's entry at its place with
/// the key, the path added to the list when it was new, the names of the
/// entries before it as they were.
#[verifier::spinoff_prover]
#[verifier::rlimit(30)]
proof fn lemma_install_store(st: Store, binding: Seq<char>, command: Seq<char>)
    ensures
        ({
            let es = stored_listing(st);
            let ps = stored_paths(st);
            let st1 = apply_writes(st, install_plan(binding, command, es).0);
            let j0 = install_place(es);
            &&& (binding.len() > 0 && binding[0] != '\'' && binding.last() != '\'') ==> bound_key(
                stored_listing(st1),
            ) == Some(binding)
            &&& named_index(stored_listing(st1)) == Some(j0)
            &&& stored_listing(st1)[j0].0 == target_path(es)
            &&& stored_paths(st1) == (if ps.contains(target_path(es)) {
                ps
            } else {
                ps.push(target_path(es))
            })
            &&& forall|j: int| 0 <= j < j0 ==> stored_listing(st1)[j].1 == es[j].1
            &&& st1.dom().contains((sub_schema(target_path(es)), "name"@))
            &&& st1[(sub_schema(target_path(es)), "name"@)] == quote(app_name())
            &&& st1.dom().contains((sub_schema(target_path(es)), "command"@))
            &&& st1[(sub_schema(target_path(es)), "command"@)] == quote(command)
            &&& st1.dom().contains((sub_schema(target_path(es)), "binding"@))
            &&& st1[(sub_schema(target_path(es)), "binding"@)] == quote(binding)
            &&& (shell_key_for(lower_seq(binding)) matches Some(k) ==> st1.dom().contains(
                ("org.gnome.shell.keybindings"@, k),
            ) && st1[("org.gnome.shell.keybindings"@, k)] == "[]"@)
            &&& forall|q: Seq<char>|
                #![trigger stored_value(st1, sub_schema(q), "binding"@)]
                stored_paths(st1).contains(q) && q != target_path(es) && lower_seq(
                    stored_value(st1, sub_schema(q), "binding"@),
                ) == lower_seq(binding) ==> st1.dom().contains((sub_schema(q), "binding"@))
                    && st1[(sub_schema(q), "binding"@)] == "''"@
        }),
{
    reveal_strlit("quickshot");
    reveal_strlit("name");
    reveal_strlit("binding");
    reveal_strlit("command");
    reveal_strlit("set");
    reveal_strlit("org.gnome.settings-daemon.plugins.media-keys");
    reveal_strlit("org.gnome.shell.keybindings");
    reveal_strlit("show-screenshot-ui");
    reveal_strlit("screenshot");
    reveal_strlit("screenshot-window");
    let es = stored_listing(st);
    let ps = stored_paths(st);
    assert(paths_of(es) =~= ps);
    if st.dom().contains((schema(), list_key())) {
        lemma_parsed_plain(st[(schema(), list_key())]);
    }
    assert(plain_paths(ps));
    let path = target_path(es);
    let sub = sub_schema(path);
    lemma_sub_len(path);
    let named = named_index(es);
    if named is None {
        lemma_new_path_unused(es);
        let k = choose|k: nat| is_free_index(ps, k);
        lemma_slot_plain(k);
        assert(plain_paths(ps.push(path))) by {
            assert forall|i: int| 0 <= i < ps.push(path).len() implies is_path(
                #[trigger] ps.push(path)[i],
            ) && !ps.push(path)[i].contains('\'') by {
                if i < ps.len() {
                    assert(ps.push(path)[i] == ps[i]);
                }
            }
        }
    } else {
        lemma_named_first(es);
        assert(ps.contains(path)) by {
            assert(ps[named->Some_0] == path);
        }
    }
    let j0: int = match named {
        Some(i) => i,
        None => ps.len() as int,
    };
    let kl = (schema(), list_key());
    let lw: Seq<WriteView> = if ps.contains(path) {
        Seq::empty()
    } else {
        seq![(set_args(schema(), list_key(), list_value(ps.push(path))), true)]
    };
    let own: Seq<WriteView> = seq![
        (set_args(sub, "name"@, quote(app_name())), true),
        (set_args(sub, "command"@, quote(command)), true),
        (set_args(sub, "binding"@, quote(binding)), true),
    ];
    let ot = unbind_others(es, path, binding).0;
    let tail: Seq<WriteView> = match shell_key_for(lower_seq(binding)) {
        Some(k) => ot + seq![(set_args("org.gnome.shell.keybindings"@, k, "[]"@), false)],
        None => ot,
    };
    let plan = install_plan(binding, command, es).0;
    assert(plan =~= (lw + own) + tail);
    reveal_with_fuel(apply_writes, 4);
    let st1 = apply_writes(st, lw);
    let st2 = apply_writes(st1, own);
    let stf = apply_writes(st2, tail);
    lemma_apply_concat(st, lw, own);
    lemma_apply_concat(st, lw + own, tail);
    assert(apply_writes(st, plan) == stf);
    // what the first writes leave
    if !ps.contains(path) {
        assert(lw.drop_last() =~= Seq::<WriteView>::empty());
        assert(st1 == st.insert(kl, list_value(ps.push(path))));
    } else {
        assert(st1 == st);
    }
    assert(own.drop_last().drop_last().drop_last() =~= Seq::<WriteView>::empty());
    assert(st2 == st1.insert((sub, "name"@), quote(app_name())).insert(
        (sub, "command"@),
        quote(command),
    ).insert((sub, "binding"@), quote(binding)));
    // the other writes leave the keys read back alone
    lemma_unbind_keys(es, path, binding);
    assert forall|j: int| 0 <= j < tail.len() implies {
        let a = (#[trigger] tail[j]).0;
        &&& a.len() >= 3
        &&& a[2] != "name"@
        &&& a[1] != sub
        &&& a[1].len() != schema().len()
    } by {
        assert("binding"@ != "name"@) by {
            assert("binding"@.len() != "name"@.len());
        }
        if j < ot.len() {
            assert(tail[j] == ot[j]);
            assert(ot[j].0[2] == "binding"@);
            assert(ot[j].0[1].len() >= 63);
        } else {
            let k = shell_key_for(lower_seq(binding))->Some_0;
            assert(tail[j].0 == set_args("org.gnome.shell.keybindings"@, k, "[]"@));
            assert(k.len() != 4);
            assert(k != "name"@);
            assert("org.gnome.shell.keybindings"@.len() == 27);
        }
    }
    assert forall|j: int| 0 <= j < tail.len() implies !writes_key(#[trigger] tail[j].0, kl) by {
        assert(tail[j].0[1].len() != schema().len());
    }
    lemma_apply_other(st2, tail, kl);
    assert forall|j: int| 0 <= j < tail.len() implies !writes_key(
        #[trigger] tail[j].0,
        (sub, "name"@),
    ) by {
        assert(tail[j].0[2] != "name"@);
    }
    lemma_apply_other(st2, tail, (sub, "name"@));
    assert forall|j: int| 0 <= j < tail.len() implies !writes_key(
        #[trigger] tail[j].0,
        (sub, "binding"@),
    ) by {
        assert(tail[j].0[1] != sub);
    }
    lemma_apply_other(st2, tail, (sub, "binding"@));
    // the listed paths
    assert(kl.0 != sub);
    let ps2 = stored_paths(stf);
    if ps.contains(path) {
        assert(ps2 == ps);
    } else {
        lemma_list_reads_back(ps.push(path));
        assert(ps2 == ps.push(path));
    }
    let ne = stored_listing(stf);
    assert(0 <= j0 < ps2.len());
    assert(ps2[j0] == path);
    assert(ne[j0].0 == path);
    lemma_quoted_value_reads_back(app_name());
    if binding.len() > 0 && binding[0] != '\'' && binding.last() != '\'' {
        lemma_quoted_value_reads_back(binding);
        assert(ne[j0].2 == binding);
    }
    assert((sub, "name"@) != (sub, "command"@)) by {
        assert("name"@.len() != "command"@.len());
    }
    assert((sub, "name"@) != (sub, "binding"@)) by {
        assert("name"@.len() != "binding"@.len());
    }
    assert(st2.dom().contains((sub, "name"@)));
    assert(st2[(sub, "name"@)] == quote(app_name()));
    assert(stf[(sub, "name"@)] == quote(app_name()));
    assert(stored_value(stf, sub, "name"@) == app_name());
    assert(ne[j0].1 == app_name());
    assert forall|j: int| 0 <= j < j0 implies ne[j].1 != app_name() && ne[j].1 == es[j].1 by {
        let q = ps[j];
        assert(ps2[j] == q);
        let kq = (sub_schema(q), "name"@);
        if q == path {
            assert(es[j].1 == es[j0].1);
            lemma_named_first(es);
        }
        assert(q != path);
        if sub_schema(q) == sub {
            lemma_sub_injective(q, path);
        }
        lemma_sub_len(q);
        assert forall|m: int| 0 <= m < tail.len() implies !writes_key(#[trigger] tail[m].0, kq) by {
            assert(tail[m].0[2] != "name"@);
        }
        lemma_apply_other(st2, tail, kq);
        assert(stf.dom().contains(kq) == st.dom().contains(kq));
        assert(st.dom().contains(kq) ==> stf[kq] == st[kq]);
        assert(ne[j].1 == es[j].1);
        if named is None {
            lemma_none_named(es, j);
        } else {
            lemma_named_first(es);
        }
    }
    assert(is_first_named(ne, j0));
    lemma_named_index(ne, j0);
    // the command
    assert("binding"@ != "command"@) by {
        assert("binding"@[0] != "command"@[0]);
    }
    assert forall|m: int| 0 <= m < tail.len() implies !writes_key(
        #[trigger] tail[m].0,
        (sub, "command"@),
    ) by {
        if m < ot.len() {
            assert(tail[m] == ot[m]);
            assert(ot[m].0[2] == "binding"@);
        } else {
            let k = shell_key_for(lower_seq(binding))->Some_0;
            assert(tail[m].0 == set_args("org.gnome.shell.keybindings"@, k, "[]"@));
            assert(k.len() != 7);
        }
    }
    lemma_apply_other(st2, tail, (sub, "command"@));
    assert((sub, "command"@) != (sub, "binding"@));
    // the GNOME screenshot key
    match shell_key_for(lower_seq(binding)) {
        Some(k) => {
            assert(tail.drop_last() =~= ot);
            assert(stf == apply_write(apply_writes(st2, ot), tail.last().0));
        },
        None => {},
    }
    // no other entry keeps the key
    assert forall|q: Seq<char>|
        #![trigger stored_value(stf, sub_schema(q), "binding"@)]
        ps2.contains(q) && q != path && lower_seq(stored_value(stf, sub_schema(q), "binding"@))
        == lower_seq(binding) implies stf.dom().contains((sub_schema(q), "binding"@)) && stf[(
        sub_schema(q),
        "binding"@,
    )] == "''"@ by {
        let kb = (sub_schema(q), "binding"@);
        assert(ps.contains(q)) by {
            let k = choose|k: int| 0 <= k < ps2.len() && ps2[k] == q;
            if !ps.contains(path) {
                assert(k < ps.len());
                assert(ps[k] == q);
            }
        }
        let m0 = choose|m: int| 0 <= m < ps.len() && ps[m] == q;
        assert(es[m0].0 == q);
        if sub_schema(q) == sub {
            lemma_sub_injective(q, path);
        }
        lemma_sub_len(q);
        assert(kb != kl);
        assert(st2.dom().contains(kb) == st.dom().contains(kb));
        assert(st.dom().contains(kb) ==> st2[kb] == st[kb]);
        lemma_unbind_effect(st2, es, path, binding, q);
        let after_ot = apply_writes(st2, ot);
        match shell_key_for(lower_seq(binding)) {
            Some(k) => {
                assert(tail.drop_last() =~= ot);
                assert(stf == apply_write(after_ot, tail.last().0));
                assert(kb.0 != "org.gnome.shell.keybindings"@);
            },
            None => {
                assert(tail == ot);
            },
        }
        assert(stf.dom().contains(kb) == after_ot.dom().contains(kb));
        assert(after_ot.dom().contains(kb) ==> stf[kb] == after_ot[kb]);
        if !exists|m: int|
            0 <= m < es.len() && es[m].0 == q && lower_seq(es[m].2) == lower_seq(binding) {
            assert(stored_value(stf, sub_schema(q), "binding"@) == es[m0].2);
        }
    }
}

/// The unbinding writes leave `''` as the key of each other entry on the same
/// key, and the key of every other path as it was.
proof fn lemma_unbind_effect(
    st: Store,
    es: Seq<EntryView>,
    path: Seq<char>,
    binding: Seq<char>,
    q: Seq<char>,
)
    requires
        q != path,
    ensures
        ({
            let after = apply_writes(st, unbind_others(es, path, binding).0);
            let kb = (sub_schema(q), "binding"@);
            let hit = exists|m: int|
                0 <= m < es.len() && es[m].0 == q && lower_seq(es[m].2) == lower_seq(binding);
            &&& hit ==> after.dom().contains(kb) && after[kb] == "''"@
            &&& !hit ==> (after.dom().contains(kb) == st.dom().contains(kb) && (st.dom().contains(
                kb,
            ) ==> after[kb] == st[kb]))
        }),
    decreases es.len(),
{
    reveal_strlit("set");
    if es.len() > 0 {
        let prev = es.drop_last();
        lemma_unbind_effect(st, prev, path, binding, q);
        let e = es.last();
        let pot = unbind_others(prev, path, binding).0;
        let ot = unbind_others(es, path, binding).0;
        let kb = (sub_schema(q), "binding"@);
        let hit_prev = exists|m: int|
            0 <= m < prev.len() && prev[m].0 == q && lower_seq(prev[m].2) == lower_seq(binding);
        let hit = exists|m: int|
            0 <= m < es.len() && es[m].0 == q && lower_seq(es[m].2) == lower_seq(binding);
        let last_hits = e.0 == q && lower_seq(e.2) == lower_seq(binding);
        assert(hit == (hit_prev || last_hits)) by {
            if hit_prev {
                let m = choose|m: int|
                    0 <= m < prev.len() && prev[m].0 == q && lower_seq(prev[m].2) == lower_seq(
                        binding,
                    );
                assert(es[m] == prev[m]);
            }
            if last_hits {
                assert(es[es.len() - 1] == e);
            }
            if hit {
                let m = choose|m: int|
                    0 <= m < es.len() && es[m].0 == q && lower_seq(es[m].2) == lower_seq(binding);
                if m < prev.len() {
                    assert(prev[m] == es[m]);
                }
            }
        }
        if e.0 != path && lower_seq(e.2) == lower_seq(binding) {
            let w = set_args(sub_schema(e.0), "binding"@, "''"@);
            assert(ot == pot.push((w, false)));
            assert(ot.drop_last() =~= pot);
            assert(apply_writes(st, ot) == apply_write(apply_writes(st, pot), w));
            if e.0 != q {
                if sub_schema(e.0) == sub_schema(q) {
                    lemma_sub_injective(e.0, q);
                }
            }
        } else {
            assert(ot == pot);
        }
    }
}

/// Writes that each set a key to the value it already holds change nothing.
proof fn lemma_apply_holds(st: Store, ws: Seq<WriteView>)
    requires
        forall|j: int|
            0 <= j < ws.len() ==> {
                let a = (#[trigger] ws[j]).0;
                &&& a.len() == 4
                &&& a[0] == "set"@
                &&& st.dom().contains((a[1], a[2]))
                &&& st[(a[1], a[2])] == a[3]
            },
    ensures
        apply_writes(st, ws) == st,
    decreases ws.len(),
{
    if ws.len() > 0 {
        let prev = ws.drop_last();
        assert forall|j: int| 0 <= j < prev.len() implies {
            let a = (#[trigger] prev[j]).0;
            &&& a.len() == 4
            &&& a[0] == "set"@
            &&& st.dom().contains((a[1], a[2]))
            &&& st[(a[1], a[2])] == a[3]
        } by {
            assert(prev[j] == ws[j]);
        }
        lemma_apply_holds(st, prev);
        let a = ws[ws.len() - 1].0;
        assert(st.insert((a[1], a[2]), a[3]) =~= st);
    }
}

/// No entry but `path` is on the key: nothing to take back.
proof fn lemma_unbind_none(es: Seq<EntryView>, path: Seq<char>, binding: Seq<char>)
    requires
        forall|m: int|
            0 <= m < es.len() && (#[trigger] es[m]).0 != path ==> lower_seq(es[m].2) != lower_seq(
                binding,
            ),
    ensures
        unbind_others(es, path, binding).0.len() == 0,
    decreases es.len(),
{
    if es.len() > 0 {
        let prev = es.drop_last();
        assert forall|m: int|
            0 <= m < prev.len() && (#[trigger] prev[m]).0 != path implies lower_seq(prev[m].2)
            != lower_seq(binding) by {
            assert(prev[m] == es[m]);
        }
        lemma_unbind_none(prev, path, binding);
        assert(es[es.len() - 1] == es.last());
    }
}

/// `a` sets to `''` the key of an entry of `es` other than `path` that is on
/// the same key as `binding`.
pub open spec fn unbinds(es: Seq<EntryView>, path: Seq<char>, binding: Seq<char>, a: Seq<Seq<char>>) -> bool {
    exists|m: int|
        0 <= m < es.len() && es[m].0 != path && lower_seq(es[m].2) == lower_seq(binding) && a
            == set_args(sub_schema(#[trigger] es[m].0), "binding"@, "''"@)
}

/// The writes that take the key from other entries each unbind one of them.
#[verifier::spinoff_prover]
proof fn lemma_unbind_writes(es: Seq<EntryView>, path: Seq<char>, binding: Seq<char>)
    ensures
        forall|j: int|
            0 <= j < unbind_others(es, path, binding).0.len() ==> unbinds(
                es,
                path,
                binding,
                (#[trigger] unbind_others(es, path, binding).0[j]).0,
            ),
    decreases es.len(),
{
    if es.len() > 0 {
        let prev = es.drop_last();
        lemma_unbind_writes(prev, path, binding);
        let e = es.last();
        let pw = unbind_others(prev, path, binding).0;
        let w = unbind_others(es, path, binding).0;
        assert forall|j: int| 0 <= j < w.len() implies unbinds(es, path, binding, (#[trigger] w[j]).0) by {
            if j < pw.len() {
                if e.0 != path && lower_seq(e.2) == lower_seq(binding) {
                    assert(w[j] == pw[j]);
                } else {
                    assert(w == pw);
                }
                assert(unbinds(prev, path, binding, pw[j].0));
                let m = choose|m: int|
                    0 <= m < prev.len() && prev[m].0 != path && lower_seq(prev[m].2) == lower_seq(
                        binding,
                    ) && pw[j].0 == set_args(sub_schema(#[trigger] prev[m].0), "binding"@, "''"@);
                assert(es[m] == prev[m]);
                assert(0 <= m < es.len() && es[m].0 != path && lower_seq(es[m].2) == lower_seq(binding)
                    && w[j].0 == set_args(sub_schema(es[m].0), "binding"@, "''"@));
            } else {
                assert(e.0 != path && lower_seq(e.2) == lower_seq(binding));
                assert(w[j].0 == set_args(sub_schema(e.0), "binding"@, "''"@));
                let m = es.len() - 1;
                assert(es[m] == e);
                assert(0 <= m < es.len() && es[m].0 != path && lower_seq(es[m].2) == lower_seq(binding)
                    && w[j].0 == set_args(sub_schema(es[m].0), "binding"@, "''"@));
            }
        }
    }
}

/// Installing the same key and command a second time leaves the settings as
/// the first install left them, when every write succeeds and each key reads
/// back as written.
pub proof fn lemma_install_twice(st: Store, binding: Seq<char>, command: Seq<char>)
    ensures
        ({
            let st1 = apply_writes(st, install_plan(binding, command, stored_listing(st)).0);
            apply_writes(st1, install_plan(binding, command, stored_listing(st1)).0) == st1
        }),
{
    reveal_strlit("set");
    let es = stored_listing(st);
    let st1 = apply_writes(st, install_plan(binding, command, es).0);
    lemma_install_store(st, binding, command);
    let path = target_path(es);
    let e1 = stored_listing(st1);
    let p1 = stored_paths(st1);
    assert(paths_of(e1) =~= p1);
    let j0 = install_place(es);
    lemma_named_first(e1);
    assert(target_path(e1) == path);
    assert(p1.contains(path)) by {
        assert(p1[j0] == path);
    }
    lemma_unbind_writes(e1, path, binding);
    let sub = sub_schema(path);
    let ot = unbind_others(e1, path, binding).0;
    let own: Seq<WriteView> = seq![
        (set_args(sub, "name"@, quote(app_name())), true),
        (set_args(sub, "command"@, quote(command)), true),
        (set_args(sub, "binding"@, quote(binding)), true),
    ];
    let plan = install_plan(binding, command, e1).0;
    match shell_key_for(lower_seq(binding)) {
        Some(k) => {
            assert(plan =~= own + ot + seq![
                (set_args("org.gnome.shell.keybindings"@, k, "[]"@), false),
            ]);
        },
        None => {
            assert(plan =~= own + ot);
        },
    }
    assert forall|j: int| 0 <= j < plan.len() implies {
        let a = (#[trigger] plan[j]).0;
        &&& a.len() == 4
        &&& a[0] == "set"@
        &&& st1.dom().contains((a[1], a[2]))
        &&& st1[(a[1], a[2])] == a[3]
    } by {
        if j == 0 {
            assert(plan[j].0 == set_args(sub, "name"@, quote(app_name())));
        } else if j == 1 {
            assert(plan[j].0 == set_args(sub, "command"@, quote(command)));
        } else if j == 2 {
            assert(plan[j].0 == set_args(sub, "binding"@, quote(binding)));
        } else if j < 3 + ot.len() {
            assert(plan[j] == ot[j - 3]);
            assert(unbinds(e1, path, binding, ot[j - 3].0));
            let m = choose|m: int|
                0 <= m < e1.len() && e1[m].0 != path && lower_seq(e1[m].2) == lower_seq(binding)
                    && ot[j - 3].0 == set_args(sub_schema(#[trigger] e1[m].0), "binding"@, "''"@);
            let q = e1[m].0;
            assert(p1[m] == q);
            assert(p1.contains(q));
            assert(e1[m].2 == stored_value(st1, sub_schema(q), "binding"@));
        } else {
            let k = shell_key_for(lower_seq(binding))->Some_0;
            assert(plan[j].0 == set_args("org.gnome.shell.keybindings"@, k, "[]"@));
        }
    }
    lemma_apply_holds(st1, plan);
}

/// The paths kept by `without` come from the list and differ from `path`.
proof fn lemma_without_members(ps: Seq<Seq<char>>, path: Seq<char>)
    ensures
        forall|k: int|
            0 <= k < without(ps, path).len() ==> #[trigger] without(ps, path)[k] != path
                && ps.contains(without(ps, path)[k]),
    decreases ps.len(),
{
    if ps.len() > 0 {
        let prev = ps.drop_last();
        lemma_without_members(prev, path);
        let w = without(ps, path);
        let wp = without(prev, path);
        assert forall|k: int| 0 <= k < w.len() implies #[trigger] w[k] != path && ps.contains(w[k]) by {
            if ps.last() == path {
                assert(w == wp);
            } else {
                assert(w == wp.push(ps.last()));
            }
            if k < wp.len() {
                assert(w[k] == wp[k]);
                let m = choose|m: int| 0 <= m < prev.len() && prev[m] == wp[k];
                assert(ps[m] == prev[m]);
            } else {
                assert(w[k] == ps[ps.len() - 1]);
            }
        }
    }
}

/// Removing the shortcut and listing the keybindings again finds no key bound
/// to quickshot, and GNOME's own screenshot keys are back at their defaults,
/// when one entry only was named `quickshot` and every write succeeds.
pub proof fn lemma_remove_reads_back(st: Store)
    requires
        named_index(stored_listing(st)) is Some,
        forall|i: int, j: int|
            0 <= i < j < stored_listing(st).len() ==> !(stored_listing(st)[i].1 == app_name()
                && stored_listing(st)[j].1 == app_name()),
    ensures
        ({
            let after = apply_writes(st, remove_plan(stored_listing(st)).0);
            let path = stored_listing(st)[named_index(stored_listing(st))->Some_0].0;
            &&& stored_paths(after) == without(stored_paths(st), path)
            &&& bound_key(stored_listing(after)) is None
            &&& !after.dom().contains(("org.gnome.shell.keybindings"@, "show-screenshot-ui"@))
            &&& !after.dom().contains(("org.gnome.shell.keybindings"@, "screenshot"@))
            &&& !after.dom().contains(("org.gnome.shell.keybindings"@, "screenshot-window"@))
        }),
{
    reveal_strlit("name");
    reveal_strlit("binding");
    reveal_strlit("command");
    reveal_strlit("set");
    reveal_strlit("reset");
    reveal_strlit("@as []");
    reveal_strlit("org.gnome.settings-daemon.plugins.media-keys");
    reveal_strlit("org.gnome.shell.keybindings");
    reveal_strlit("show-screenshot-ui");
    reveal_strlit("screenshot");
    reveal_strlit("screenshot-window");
    reveal_with_fuel(apply_writes, 8);
    let es = stored_listing(st);
    let ps = stored_paths(st);
    assert(paths_of(es) =~= ps);
    if st.dom().contains((schema(), list_key())) {
        lemma_parsed_plain(st[(schema(), list_key())]);
    }
    lemma_named_first(es);
    let i = named_index(es)->Some_0;
    let path = es[i].0;
    let sub = sub_schema(path);
    lemma_sub_len(path);
    let rest = without(ps, path);
    lemma_without_members(ps, path);
    let list = if rest.len() == 0 {
        "@as []"@
    } else {
        list_value(rest)
    };
    let shell = "org.gnome.shell.keybindings"@;
    let kl = (schema(), list_key());
    let after = apply_writes(st, remove_plan(es).0);
    assert(after == st.insert(kl, list).remove((sub, "name"@)).remove((sub, "command"@)).remove(
        (sub, "binding"@),
    ).remove((shell, "show-screenshot-ui"@)).remove((shell, "screenshot"@)).remove(
        (shell, "screenshot-window"@),
    ));
    // the list reads back as the other paths
    assert(kl.0 != sub && kl.0 != shell);
    assert(after.dom().contains(kl) && after[kl] == list);
    if rest.len() == 0 {
        let s = "@as []"@;
        assert(!s.contains('\'')) by {
            assert forall|k: int| 0 <= k < s.len() implies s[k] != '\'' by {}
        }
        lemma_pieces_plain(s, '\'', Seq::empty());
        assert(Seq::<char>::empty() + s =~= s);
        reveal_with_fuel(keep_paths, 2);
        assert(seq![s].drop_last() =~= Seq::<Seq<char>>::empty());
        assert(!is_path(s));
        assert(stored_paths(after) =~= Seq::<Seq<char>>::empty());
    } else {
        assert(plain_paths(rest)) by {
            assert forall|k: int| 0 <= k < rest.len() implies is_path(#[trigger] rest[k])
                && !rest[k].contains('\'') by {
                let m = choose|m: int| 0 <= m < ps.len() && ps[m] == rest[k];
                assert(is_path(ps[m]) && !ps[m].contains('\''));
            }
        }
        lemma_list_reads_back(rest);
        assert(stored_paths(after) == rest);
    }
    // no entry left carries the name
    let ne = stored_listing(after);
    assert forall|k: int| 0 <= k < ne.len() implies ne[k].1 != app_name() by {
        let q = rest[k];
        assert(ne[k].0 == q);
        let m = choose|m: int| 0 <= m < ps.len() && ps[m] == q;
        assert(q != path);
        if sub_schema(q) == sub {
            lemma_sub_injective(q, path);
        }
        lemma_sub_len(q);
        let kq = (sub_schema(q), "name"@);
        assert(kq != kl && kq.0 != shell);
        assert(after.dom().contains(kq) == st.dom().contains(kq));
        assert(st.dom().contains(kq) ==> after[kq] == st[kq]);
        assert(ne[k].1 == es[m].1);
        assert(m != i);
        if es[m].1 == app_name() {
            if m < i {
                assert(es[m].1 != app_name());
            } else {
                assert(!(es[i].1 == app_name() && es[m].1 == app_name()));
            }
        }
    }
    if named_index(ne) is Some {
        lemma_named_first(ne);
    }
}

// ---------------------------------------------------------------------------
// Making a plan's writes
// ---------------------------------------------------------------------------
/// What the caller does next while making a plan's writes.
pub enum Step {
    /// Make the write at this place of the plan.
    Write(usize),
    /// The operation is over, with this result.
    Finish(Result<String, String>),
}

/// The first step of a plan: its first write, or the message when it has none.
pub fn first_step(plan: &Plan) -> (r: Step)
    ensures
        plan.writes@.len() > 0 ==> r == Step::Write(0),
        plan.writes@.len() == 0 ==> (r matches Step::Finish(Ok(m)) && m@ == plan.message@),
{
    if plan.writes.len() > 0 {
        Step::Write(0)
    } else {
        Step::Finish(Ok(plan.message.clone()))
    }
}

/// The step after write `i` came back with `outcome`: a failed required write
/// ends the operation with its error and nothing after it is written; a failed
/// optional write is passed over; after the last write the operation succeeds
/// with the plan's message.
pub fn after_write(plan: &Plan, i: usize, outcome: Result<(), String>) -> (r: Step)
    requires
        i < plan.writes@.len(),
    ensures
        (outcome is Err && plan.writes@[i as int].required) ==> (r matches Step::Finish(Err(e))
            && e@ == outcome->Err_0@),
        !(outcome is Err && plan.writes@[i as int].required) ==> (if i + 1 < plan.writes@.len() {
            r == Step::Write((i + 1) as usize)
        } else {
            r matches Step::Finish(Ok(m)) && m@ == plan.message@
        }),
{
    match outcome {
        Err(e) => {
            if plan.writes[i].required {
                return Step::Finish(Err(e));
            }
        },
        Ok(()) => {},
    }
    if i < plan.writes.len() - 1 {
        Step::Write(i + 1)
    } else {
        Step::Finish(Ok(plan.message.clone()))
    }
}

/// Installing writes the list (when the path is new), then the name, the
/// command and the key, all required; what follows (taking the key from other
/// entries, switching off a GNOME screenshot key) is optional, so its failures
/// never make the operation fail.
pub proof fn lemma_install_flags(binding: Seq<char>, command: Seq<char>, es: Seq<EntryView>)
    ensures
        ({
            let w = install_plan(binding, command, es).0;
            let n: int = if paths_of(es).contains(target_path(es)) {
                3
            } else {
                4
            };
            &&& n <= w.len()
            &&& forall|j: int| 0 <= j < w.len() ==> (#[trigger] w[j].1 <==> j < n)
        }),
{
    let path = target_path(es);
    lemma_unbind_flags(es, path, binding);
}

proof fn lemma_unbind_flags(es: Seq<EntryView>, path: Seq<char>, binding: Seq<char>)
    ensures
        forall|j: int|
            0 <= j < unbind_others(es, path, binding).0.len() ==> !(
            #[trigger] unbind_others(es, path, binding).0[j]).1,
    decreases es.len(),
{
    if es.len() > 0 {
        lemma_unbind_flags(es.drop_last(), path, binding);
        let prev = unbind_others(es.drop_last(), path, binding).0;
        let w = unbind_others(es, path, binding).0;
        assert forall|j: int| 0 <= j < w.len() implies !(#[trigger] w[j]).1 by {
            if j < prev.len() {
                assert(w[j] == prev[j]);
            }
        }
    }
}

/// Removing writes the shortened list first, the one required write: when it
/// fails nothing else is reset; the resets after it are optional.
pub proof fn lemma_remove_flags(es: Seq<EntryView>)
    ensures
        named_index(es) is Some ==> ({
            let w = remove_plan(es).0;
            &&& w.len() == 7
            &&& w[0].0[0] == "set"@ && w[0].0[2] == list_key()
            &&& forall|j: int| 0 <= j < w.len() ==> (#[trigger] w[j].1 <==> j == 0)
        }),
        named_index(es) is None ==> remove_plan(es).0.len() == 0,
{
}

/// A path not in the list: taking it out changes nothing.
proof fn lemma_without_absent(ps: Seq<Seq<char>>, path: Seq<char>)
    requires
        !ps.contains(path),
    ensures
        without(ps, path) == ps,
    decreases ps.len(),
{
    if ps.len() > 0 {
        assert(!ps.drop_last().contains(path)) by {
            if ps.drop_last().contains(path) {
                let k = choose|k: int| 0 <= k < ps.drop_last().len() && ps.drop_last()[k] == path;
                assert(ps[k] == path);
            }
        }
        lemma_without_absent(ps.drop_last(), path);
        assert(ps.last() != path) by {
            assert(ps[ps.len() - 1] == ps.last());
        }
        assert(ps.drop_last().push(ps.last()) =~= ps);
    }
}

/// Installing on a desktop where quickshot had no shortcut, then removing it,
/// gives back the list of custom keybindings as it was, leaves no key bound
/// to quickshot and GNOME's screenshot keys at their defaults, when every write
/// succeeds and each key reads back as written.
pub proof fn lemma_install_then_remove(st: Store, binding: Seq<char>, command: Seq<char>)
    requires
        named_index(stored_listing(st)) is None,
    ensures
        ({
            let st1 = apply_writes(st, install_plan(binding, command, stored_listing(st)).0);
            let st2 = apply_writes(st1, remove_plan(stored_listing(st1)).0);
            &&& stored_paths(st2) == stored_paths(st)
            &&& bound_key(stored_listing(st2)) is None
            &&& !st2.dom().contains(("org.gnome.shell.keybindings"@, "show-screenshot-ui"@))
            &&& !st2.dom().contains(("org.gnome.shell.keybindings"@, "screenshot"@))
            &&& !st2.dom().contains(("org.gnome.shell.keybindings"@, "screenshot-window"@))
        }),
{
    let es = stored_listing(st);
    let ps = stored_paths(st);
    assert(paths_of(es) =~= ps);
    let st1 = apply_writes(st, install_plan(binding, command, es).0);
    lemma_install_store(st, binding, command);
    lemma_new_path_unused(es);
    let path = target_path(es);
    let e1 = stored_listing(st1);
    let j0 = ps.len() as int;
    assert(install_place(es) == j0);
    assert forall|i: int, j: int|
        0 <= i < j < e1.len() implies !(e1[i].1 == app_name() && e1[j].1 == app_name()) by {
        assert(e1.len() == ps.len() + 1);
        assert(i < j0);
        assert(e1[i].1 == es[i].1);
        lemma_none_named(es, i);
    }
    lemma_remove_reads_back(st1);
    lemma_named_first(e1);
    assert(e1[j0].0 == path);
    lemma_without_absent(ps, path);
    assert(ps.push(path).drop_last() =~= ps);
    assert(without(ps.push(path), path) == without(ps, path));
}

/// The shortcut runs `gtk-launch <id>` only when the desktop file is installed
/// and `gtk-launch` is found; otherwise it runs the program's own path when
/// known, else `quickshot`.
pub proof fn lemma_launch_choice(
    desktop_id: Seq<char>,
    desktop_installed: bool,
    has_gtk_launch: bool,
    exe: Option<Seq<char>>,
)
    ensures
        ({
            let r = launch_command_spec(desktop_id, desktop_installed, has_gtk_launch, exe);
            &&& (desktop_installed && has_gtk_launch) ==> r == "gtk-launch "@ + desktop_id
            &&& (!(desktop_installed && has_gtk_launch) && exe is Some) ==> r == exe->Some_0
            &&& (!(desktop_installed && has_gtk_launch) && exe is None) ==> r == "quickshot"@
        }),
{
}

} // verus!
