//! The list of a directory's entries, sorted directories first, laid out in
//! rows across a panel, with one entry selected.
use vstd::prelude::*;
use vstd::string::StrSliceExecFns;
use vstd::string::StringExecFns;

use crate::misc::rgb::{Rgb, to_rgb, rgb_parsable, rgb_parsable_exec, rgb_of};
use crate::tools::{Rect, rect_new, bordered_inner, bordered_inner_spec};

verus! {

/// What is known of a directory entry's type.
#[derive(Clone, Copy, Debug, PartialEq, Eq, Structural)]
pub enum EntryKind {
    Dir,
    File,
    /// The type could not be read.
    Unknown,
}

/// A directory entry: its file name, its full path and its type.
#[derive(Debug)]
pub struct DirEntry {
    pub name: String,
    pub path: String,
    pub kind: EntryKind,
}

impl DirEntry {
    pub fn new(name: String, path: String, kind: EntryKind) -> (e: Self)
        ensures
            e.name == name,
            e.path == path,
            e.kind == kind,
    {
        DirEntry { name, path, kind }
    }
}

// ---------------------------------------------------------------------------
// Ordering names
// ---------------------------------------------------------------------------

/// The lower-case form of `s`, as `str::to_lowercase` computes it.
pub uninterp spec fn lowercase(s: Seq<char>) -> Seq<char>;

/// `str::to_lowercase`: the Unicode lower-case mapping of each character,
/// a function of the string alone; named here, not stated.
#[verifier::external_body]
fn to_lowercase(s: &str) -> (r: String)
    ensures
        r@ == lowercase(s@),
{
    s.to_lowercase()
}

/// `a` comes strictly before `b` in the order of `String`: character by
/// character by code point, a proper prefix first.
pub open spec fn str_lt(a: Seq<char>, b: Seq<char>) -> bool
    decreases a.len(),
{
    if b.len() == 0 {
        false
    } else if a.len() == 0 {
        true
    } else if a[0] != b[0] {
        (a[0] as u32) < (b[0] as u32)
    } else {
        str_lt(a.drop_first(), b.drop_first())
    }
}

pub proof fn lemma_str_lt_irreflexive(a: Seq<char>)
    ensures
        !str_lt(a, a),
    decreases a.len(),
{
    if a.len() > 0 {
        lemma_str_lt_irreflexive(a.drop_first());
    }
}

pub proof fn lemma_str_lt_total(a: Seq<char>, b: Seq<char>)
    ensures
        str_lt(a, b) || str_lt(b, a) || a == b,
    decreases a.len(),
{
    if a.len() > 0 && b.len() > 0 {
        if a[0] == b[0] {
            lemma_str_lt_total(a.drop_first(), b.drop_first());
            if a.drop_first() == b.drop_first() {
                assert(a =~= seq![a[0]] + a.drop_first());
                assert(b =~= seq![b[0]] + b.drop_first());
            }
        } else {
            vstd::utf8::char_u32_cast(a[0], a[0] as u32);
            vstd::utf8::char_u32_cast(b[0], b[0] as u32);
        }
    } else if a.len() == 0 && b.len() == 0 {
        assert(a =~= b);
    }
}

pub proof fn lemma_str_lt_asymmetric(a: Seq<char>, b: Seq<char>)
    ensures
        str_lt(a, b) ==> !str_lt(b, a),
    decreases a.len(),
{
    if a.len() > 0 && b.len() > 0 && a[0] == b[0] {
        lemma_str_lt_asymmetric(a.drop_first(), b.drop_first());
    }
}

pub proof fn lemma_str_lt_transitive(a: Seq<char>, b: Seq<char>, c: Seq<char>)
    requires
        str_lt(a, b),
        str_lt(b, c),
    ensures
        str_lt(a, c),
    decreases a.len(),
{
    if a.len() > 0 && b.len() > 0 && c.len() > 0 && a[0] == b[0] && b[0] == c[0] {
        lemma_str_lt_transitive(a.drop_first(), b.drop_first(), c.drop_first());
    }
}

/// Law: a string comes strictly before every longer string that begins
/// with it, as in `String`'s order.
pub proof fn lemma_str_lt_proper_prefix(a: Seq<char>, s: Seq<char>)
    requires
        s.len() > 0,
    ensures
        str_lt(a, a + s),
    decreases a.len(),
{
    if a.len() > 0 {
        assert((a + s)[0] == a[0]);
        assert((a + s).drop_first() =~= a.drop_first() + s);
        lemma_str_lt_proper_prefix(a.drop_first(), s);
    }
}

/// Law: two strings that agree before some place, and differ there, are
/// ordered by the code points of their characters at that place.
pub proof fn lemma_str_lt_first_difference(a: Seq<char>, b: Seq<char>, i: int)
    requires
        0 <= i < a.len(),
        i < b.len(),
        a.take(i) == b.take(i),
        (a[i] as u32) < (b[i] as u32),
    ensures
        str_lt(a, b),
    decreases i,
{
    if i > 0 {
        assert(a.take(i)[0] == a[0] && b.take(i)[0] == b[0]);
        assert(a.drop_first().take(i - 1) =~= a.take(i).drop_first());
        assert(b.drop_first().take(i - 1) =~= b.take(i).drop_first());
        lemma_str_lt_first_difference(a.drop_first(), b.drop_first(), i - 1);
    } else {
        if a[0] == b[0] {
            assert(false);
        }
    }
}

/// Compares two strings in the order of `String`.
fn lt_str(a: &str, b: &str) -> (r: bool)
    ensures
        r == str_lt(a@, b@),
{
    let la = a.unicode_len();
    let lb = b.unicode_len();
    let mut i: usize = 0;
    assert(a@.skip(0) =~= a@);
    assert(b@.skip(0) =~= b@);
    while i < la && i < lb
        invariant
            la == a@.len(),
            lb == b@.len(),
            i <= la,
            i <= lb,
            str_lt(a@, b@) == str_lt(a@.skip(i as int), b@.skip(i as int)),
        decreases la - i,
    {
        let ca = a.get_char(i);
        let cb = b.get_char(i);
        assert(a@.skip(i as int)[0] == ca);
        assert(b@.skip(i as int)[0] == cb);
        if (ca as u32) != (cb as u32) {
            return (ca as u32) < (cb as u32);
        }
        assert(a@.skip(i as int).drop_first() =~= a@.skip(i + 1));
        assert(b@.skip(i as int).drop_first() =~= b@.skip(i + 1));
        i = i + 1;
    }
    assert(a@.skip(i as int).len() == la - i);
    assert(b@.skip(i as int).len() == lb - i);
    i < lb
}

// ---------------------------------------------------------------------------
// Sorting
// ---------------------------------------------------------------------------

/// The key an entry is sorted by: its lower-case name.
pub open spec fn entry_key(e: DirEntry) -> Seq<char> {
    lowercase(e.name@)
}

/// In `inp`, the entry at `i` goes before the one at `j` in a stable sort by
/// key: a smaller key, or the same key and an earlier place.
pub open spec fn sorts_before(inp: Seq<DirEntry>, i: int, j: int) -> bool {
    ||| str_lt(entry_key(inp[i]), entry_key(inp[j]))
    ||| entry_key(inp[i]) == entry_key(inp[j]) && i < j
}

/// `out` is `inp` rearranged by `p`: `out[k]` is `inp[p[k]]`, every `p[k]`
/// is an index of `inp`, and `p` lists them in the stable order by key
/// (which makes `p` a permutation).
pub open spec fn is_sort_permutation(out: Seq<DirEntry>, inp: Seq<DirEntry>, p: Seq<int>) -> bool {
    &&& out.len() == inp.len()
    &&& p.len() == inp.len()
    &&& forall|k: int| 0 <= k < p.len() ==> 0 <= #[trigger] p[k] < inp.len()
    &&& forall|k: int| 0 <= k < p.len() ==> out[k] == inp[#[trigger] p[k]]
    &&& forall|k: int, l: int|
        0 <= k < l < p.len() ==> sorts_before(inp, #[trigger] p[k], #[trigger] p[l])
}

/// `out` is `inp` sorted by lower-case name, entries with equal keys kept
/// in their order in `inp`.
pub open spec fn is_stable_sort(out: Seq<DirEntry>, inp: Seq<DirEntry>) -> bool {
    exists|p: Seq<int>| is_sort_permutation(out, inp, p)
}

/// The entries of `s` of the given kind, taken from the last one to the
/// first, the order in which `sort` pops them.
pub open spec fn popped_of_kind(s: Seq<DirEntry>, kind: EntryKind) -> Seq<DirEntry>
    decreases s.len(),
{
    if s.len() == 0 {
        Seq::empty()
    } else {
        let rest = popped_of_kind(s.drop_last(), kind);
        if s.last().kind == kind {
            seq![s.last()] + rest
        } else {
            rest
        }
    }
}

fn entry_key_of(e: &DirEntry) -> (k: String)
    ensures
        k@ == entry_key(*e),
{
    to_lowercase(e.name.as_str())
}

fn sort_group(group: Vec<DirEntry>) -> (out: Vec<DirEntry>)
    ensures
        is_stable_sort(out@, group@),
{
    let ghost inp = group@;
    let mut rest = group;
    let mut out: Vec<DirEntry> = Vec::new();
    let mut keys: Vec<String> = Vec::new();
    let ghost mut perm: Seq<int> = Seq::empty();
    let n = rest.len();
    let mut i: usize = 0;
    while i < n
        invariant
            n == inp.len(),
            i <= n,
            rest@ == inp.skip(i as int),
            out@.len() == i,
            keys@.len() == i,
            perm.len() == i,
            forall|k: int| 0 <= k < i ==> 0 <= #[trigger] perm[k] < i,
            forall|k: int| 0 <= k < i ==> out@[k] == inp[#[trigger] perm[k]],
            forall|k: int| 0 <= k < i ==> (#[trigger] keys@[k])@ == entry_key(out@[k]),
            forall|k: int, l: int|
                0 <= k < l < i ==> sorts_before(inp, #[trigger] perm[k], #[trigger] perm[l]),
        decreases n - i,
    {
        let e = rest.remove(0);
        assert(e == inp[i as int]);
        let key = entry_key_of(&e);
        let mut pos: usize = 0;
        while pos < out.len() && !lt_str(key.as_str(), keys[pos].as_str())
            invariant
                out@.len() == i,
                keys@.len() == i,
                pos <= i,
                forall|q: int| 0 <= q < pos ==> !str_lt(key@, #[trigger] keys@[q]@),
            decreases i - pos,
        {
            pos = pos + 1;
        }
        let ghost old_perm = perm;
        let ghost old_out = out@;
        proof {
            assert forall|k: int| 0 <= k < pos implies sorts_before(inp, #[trigger] old_perm[k], i as int) by {
                lemma_str_lt_total(keys@[k]@, key@);
            }
            assert forall|l: int| pos <= l < i implies sorts_before(inp, i as int, #[trigger] old_perm[l]) by {
                assert(str_lt(key@, keys@[pos as int]@));
                if l > pos {
                    assert(sorts_before(inp, old_perm[pos as int], old_perm[l]));
                    if str_lt(keys@[pos as int]@, keys@[l]@) {
                        lemma_str_lt_transitive(key@, keys@[pos as int]@, keys@[l]@);
                    }
                }
            }
        }
        out.insert(pos, e);
        keys.insert(pos, key);
        proof {
            perm = old_perm.insert(pos as int, i as int);
            assert forall|k: int, l: int| 0 <= k < l < i + 1 implies sorts_before(inp, #[trigger] perm[k], #[trigger] perm[l]) by {
                if k < pos && l < pos {
                    assert(perm[k] == old_perm[k] && perm[l] == old_perm[l]);
                } else if k < pos && l == pos {
                } else if k < pos && l > pos {
                    assert(perm[k] == old_perm[k] && perm[l] == old_perm[l - 1]);
                } else if k == pos {
                    assert(perm[l] == old_perm[l - 1]);
                } else {
                    assert(perm[k] == old_perm[k - 1] && perm[l] == old_perm[l - 1]);
                }
            }
            assert forall|k: int| 0 <= k < i + 1 implies out@[k] == inp[#[trigger] perm[k]] by {
                if k < pos {
                    assert(out@[k] == old_out[k]);
                } else if k > pos {
                    assert(out@[k] == old_out[k - 1]);
                }
            }
            assert forall|k: int| 0 <= k < i + 1 implies 0 <= #[trigger] perm[k] < i + 1 by {
                if k < pos {
                    assert(perm[k] == old_perm[k]);
                } else if k > pos {
                    assert(perm[k] == old_perm[k - 1]);
                }
            }
            assert(inp.skip(i as int).drop_first() =~= inp.skip(i + 1));
        }
        i = i + 1;
    }
    assert(is_sort_permutation(out@, inp, perm));
    out
}


// ---------------------------------------------------------------------------
// Colours from the configuration
// ---------------------------------------------------------------------------

/// The colour settings that the list reads from the configuration: the
/// `tree` table, from a role (`"folder"`, `"file"`) to a colour name, and
/// the `colors` table, from a colour name to a hexadecimal colour.
pub struct ColorConfig {
    pub tree: Vec<(String, String)>,
    pub colors: Vec<(String, String)>,
}

/// The value of the first pair of `table` whose key is `key`.
pub open spec fn lookup(table: Seq<(String, String)>, key: Seq<char>) -> Option<Seq<char>>
    decreases table.len(),
{
    if table.len() == 0 {
        None
    } else if table[0].0@ == key {
        Some(table[0].1@)
    } else {
        lookup(table.drop_first(), key)
    }
}

fn lookup_exec<'a>(table: &'a Vec<(String, String)>, key: &String) -> (r: Option<&'a String>)
    ensures
        match r {
            Some(v) => lookup(table@, key@) == Some(v@),
            None => lookup(table@, key@) is None,
        },
{
    let mut i: usize = 0;
    assert(table@.skip(0) =~= table@);
    while i < table.len()
        invariant
            i <= table@.len(),
            lookup(table@, key@) == lookup(table@.skip(i as int), key@),
        decreases table.len() - i,
    {
        assert(table@.skip(i as int)[0] == table@[i as int]);
        assert(table@.skip(i as int).drop_first() =~= table@.skip(i + 1));
        if table[i].0 == *key {
            return Some(&table[i].1);
        }
        i = i + 1;
    }
    None
}

/// The colour name the `tree` table gives a role, `"orange"` when it has none.
pub open spec fn color_name(config: ColorConfig, role: Seq<char>) -> Seq<char> {
    match lookup(config.tree@, role) {
        Some(name) => name,
        None => "orange"@,
    }
}

/// The configuration holds a readable colour for `role`.
pub open spec fn color_ok(config: ColorConfig, role: Seq<char>) -> bool {
    &&& lookup(config.colors@, color_name(config, role)) is Some
    &&& rgb_parsable(lookup(config.colors@, color_name(config, role))->0)
}

/// The colour of `role`.
pub open spec fn color_of(config: ColorConfig, role: Seq<char>) -> Rgb {
    rgb_of(lookup(config.colors@, color_name(config, role))->0)
}

/// The colour of a role: its colour name from the `tree` table (`"orange"`
/// when it has none), then that name's colour from the `colors` table.
fn get_color(arg: &String, config: &ColorConfig) -> (c: Rgb)
    requires
        color_ok(*config, arg@),
    ensures
        c == color_of(*config, arg@),
{
    let orange = String::from_str("orange");
    let name: &String = match lookup_exec(&config.tree, arg) {
        Some(v) => v,
        None => &orange,
    };
    match lookup_exec(&config.colors, name) {
        Some(html) => to_rgb(html.as_str()),
        None => {
            proof {
                assert(false);
            }
            Rgb { r: 0, g: 0, b: 0 }
        },
    }
}

/// Whether the configuration holds a readable colour for `role`.
fn color_ok_exec(config: &ColorConfig, role: &String) -> (b: bool)
    ensures
        b == color_ok(*config, role@),
{
    let orange = String::from_str("orange");
    proof {
        reveal_strlit("orange");
    }
    let name: &String = match lookup_exec(&config.tree, role) {
        Some(v) => v,
        None => &orange,
    };
    match lookup_exec(&config.colors, name) {
        Some(html) => rgb_parsable_exec(html.as_str()),
        None => false,
    }
}

/// Whether the configuration holds a readable colour for every role that
/// `entries` need, as laying them out requires.
pub fn colors_ready(config: &ColorConfig, entries: &Vec<DirEntry>) -> (b: bool)
    ensures
        b == colors_cover(*config, entries@),
{
    let folder = String::from_str("folder");
    let file = String::from_str("file");
    proof {
        reveal_strlit("folder");
        reveal_strlit("file");
    }
    let folder_ok = color_ok_exec(config, &folder);
    let file_ok = color_ok_exec(config, &file);
    let mut i: usize = 0;
    while i < entries.len()
        invariant
            i <= entries@.len(),
            folder_ok == color_ok(*config, "folder"@),
            file_ok == color_ok(*config, "file"@),
            forall|k: int|
                0 <= k < i && entries@[k].kind != EntryKind::Unknown ==> color_ok(*config, role_of(#[trigger] entries@[k])),
        decreases entries@.len() - i,
    {
        match entries[i].kind {
            EntryKind::Dir => {
                if !folder_ok {
                    assert(role_of(entries@[i as int]) == "folder"@);
                    return false;
                }
            },
            EntryKind::File => {
                if !file_ok {
                    assert(role_of(entries@[i as int]) == "file"@);
                    return false;
                }
            },
            EntryKind::Unknown => {},
        }
        i = i + 1;
    }
    true
}

// ---------------------------------------------------------------------------
// Spans and display entries
// ---------------------------------------------------------------------------

/// A piece of text with a foreground colour, on a white background or none.
#[derive(Debug)]
pub struct Span {
    pub content: String,
    pub fg: Rgb,
    pub on_white: bool,
}

impl Span {
    pub fn copy(&self) -> (s: Span)
        ensures
            s.content@ == self.content@,
            s.fg == self.fg,
            s.on_white == self.on_white,
    {
        Span { content: self.content.clone(), fg: self.fg, on_white: self.on_white }
    }
}

/// An entry with the span that shows it.
pub struct Bindagen {
    pub entry: DirEntry,
    pub span: Span,
}

/// The role an entry's colour is read under.
pub open spec fn role_of(e: DirEntry) -> Seq<char> {
    if e.kind == EntryKind::Dir {
        "folder"@
    } else {
        "file"@
    }
}

/// The icon in front of an entry's name.
pub open spec fn icon_of(e: DirEntry) -> char {
    if e.kind == EntryKind::Dir {
        '\u{ea83}'
    } else {
        '\u{ea7b}'
    }
}

/// The text that shows an entry: its icon, a space and its name.
pub open spec fn span_text(e: DirEntry) -> Seq<char> {
    seq![icon_of(e), ' '] + e.name@
}

/// The entries of `s` whose type is known, in order.
pub open spec fn known_entries(s: Seq<DirEntry>) -> Seq<DirEntry>
    decreases s.len(),
{
    if s.len() == 0 {
        Seq::empty()
    } else if s.last().kind == EntryKind::Unknown {
        known_entries(s.drop_last())
    } else {
        known_entries(s.drop_last()).push(s.last())
    }
}

/// The configuration has a readable colour for each role that `s` needs.
pub open spec fn colors_cover(config: ColorConfig, s: Seq<DirEntry>) -> bool {
    forall|k: int|
        0 <= k < s.len() && s[k].kind != EntryKind::Unknown ==> color_ok(config, role_of(#[trigger] s[k]))
}

/// `b` shows `e`: it holds `e` and a span of `e`'s icon and name in `e`'s
/// colour, on no background.
pub open spec fn shows(b: Bindagen, e: DirEntry, config: ColorConfig) -> bool {
    &&& b.entry == e
    &&& b.span.content@ == span_text(e)
    &&& b.span.fg == color_of(config, role_of(e))
    &&& !b.span.on_white
}

/// One entry as laid out in a panel.
#[derive(Debug)]
pub struct DisplayEntry {
    pub entry: DirEntry,
    pub span: Span,
    pub rect: Rect,
    pub selected: bool,
}

impl DisplayEntry {
    pub fn new(entry: DirEntry, span: Span, rect: Rect, selected: bool) -> (d: Self)
        ensures
            d.entry == entry,
            d.span == span,
            d.rect == rect,
            d.selected == selected,
    {
        DisplayEntry { entry, span, rect, selected }
    }

    /// The span to draw: the entry's span, on white when it is selected.
    pub fn render(&self) -> (s: Span)
        ensures
            s.content@ == self.span.content@,
            s.fg == self.span.fg,
            s.on_white == (self.selected || self.span.on_white),
    {
        if self.selected {
            Span { content: self.span.content.clone(), fg: self.span.fg, on_white: true }
        } else {
            self.span.copy()
        }
    }
}

/// A column of entries, one per line.
pub struct SingleLine {
    pub vec: Vec<DisplayEntry>,
    pub selected: usize,
}

impl SingleLine {
    pub fn new_default() -> (s: Self)
        ensures
            s.vec@.len() == 0,
            s.selected == 0,
    {
        SingleLine { vec: Vec::new(), selected: 0 }
    }
}

/// A pair of values: `x` first, then `y`.
#[derive(Clone, Copy, Debug, PartialEq, Eq)]
pub struct Vec2<T>(pub T, pub T);

/// Rows of entries laid out side by side; `selected` is (column, row).
pub struct MultiLineStruct {
    pub vec: Vec<Vec<DisplayEntry>>,
    pub selected: Vec2<usize>,
}

/// The rows of `v`, each as a sequence.
pub open spec fn rows_view(v: Vec<Vec<DisplayEntry>>) -> Seq<Seq<DisplayEntry>> {
    v@.map_values(|r: Vec<DisplayEntry>| r@)
}

impl MultiLineStruct {
    pub fn new_default() -> (m: Self)
        ensures
            rows_view(m.vec) == seq![Seq::<DisplayEntry>::empty()],
            m.selected == Vec2(0usize, 0usize),
    {
        let rows: Vec<Vec<DisplayEntry>> = vec![Vec::new()];
        proof {
            assert(rows_view(rows) =~= seq![Seq::<DisplayEntry>::empty()]);
        }
        MultiLineStruct { vec: rows, selected: Vec2(0, 0) }
    }
}

/// How the entries are laid out, once they are.
pub enum DisplayEntries {
    SingleLine(SingleLine),
    MultiLine(MultiLineStruct),
    Unitialized,
}

/// The entry that the layout's selection points at, when there is one.
pub open spec fn selected_entry(d: DisplayEntries) -> Option<DisplayEntry> {
    match d {
        DisplayEntries::SingleLine(line) => if line.selected < line.vec@.len() {
            Some(line.vec@[line.selected as int])
        } else {
            None
        },
        DisplayEntries::MultiLine(m) => if m.selected.1 < m.vec@.len() && m.selected.0
            < m.vec@[m.selected.1 as int]@.len() {
            Some(m.vec@[m.selected.1 as int]@[m.selected.0 as int])
        } else {
            None
        },
        DisplayEntries::Unitialized => None,
    }
}

impl DisplayEntries {
    pub fn is_unitialized(&self) -> (b: bool)
        ensures
            b == (*self is Unitialized),
    {
        match self {
            DisplayEntries::SingleLine(_) => false,
            DisplayEntries::MultiLine(_) => false,
            DisplayEntries::Unitialized => true,
        }
    }

    /// The selected entry.
    pub fn get_selected(&self) -> (e: &DisplayEntry)
        requires
            selected_entry(*self) is Some,
        ensures
            selected_entry(*self) == Some(*e),
    {
        match self {
            DisplayEntries::SingleLine(line) => &line.vec[line.selected],
            DisplayEntries::MultiLine(multi_line) => {
                &multi_line.vec[multi_line.selected.1][multi_line.selected.0]
            },
            DisplayEntries::Unitialized => {
                vstd::pervasive::unreached()
            },
        }
    }
}

// ---------------------------------------------------------------------------
// The list
// ---------------------------------------------------------------------------

/// How the list is laid out.
pub struct FsListOptions {
    pub single_line: bool,
    pub show_file_size: bool,
    pub space_size: u16,
}

impl FsListOptions {
    pub fn new_default() -> (o: Self)
        ensures
            !o.single_line,
            !o.show_file_size,
            o.space_size == 4,
    {
        let single_line = false;
        let show_file_size = false;
        let space_size: u16 = 4;
        FsListOptions { single_line, show_file_size, space_size }
    }
}

/// The entries of a directory and their layout.
pub struct FsList {
    pub entries: Vec<DirEntry>,
    pub cwd: String,
    pub options: FsListOptions,
    pub display_entries: DisplayEntries,
}

/// The entries after `sort`: the directories, then the other entries whose
/// type is known, each group sorted by lower-case name; within a group,
/// entries with equal keys come in the reverse of their order in `old`.
pub open spec fn is_sorted_listing(new: Seq<DirEntry>, old: Seq<DirEntry>) -> bool {
    let dirs = popped_of_kind(old, EntryKind::Dir);
    let files = popped_of_kind(old, EntryKind::File);
    &&& new.len() == dirs.len() + files.len()
    &&& is_stable_sort(new.take(dirs.len() as int), dirs)
    &&& is_stable_sort(new.skip(dirs.len() as int), files)
}

proof fn lemma_popped_kind(s: Seq<DirEntry>, kind: EntryKind)
    ensures
        forall|i: int| 0 <= i < popped_of_kind(s, kind).len() ==> (#[trigger] popped_of_kind(s, kind)[i]).kind == kind,
    decreases s.len(),
{
    if s.len() > 0 {
        lemma_popped_kind(s.drop_last(), kind);
        let rest = popped_of_kind(s.drop_last(), kind);
        if s.last().kind == kind {
            assert forall|i: int| 0 <= i < popped_of_kind(s, kind).len() implies (#[trigger] popped_of_kind(s, kind)[i]).kind == kind by {
                if i > 0 {
                    assert(popped_of_kind(s, kind)[i] == rest[i - 1]);
                }
            }
        }
    }
}

proof fn lemma_stable_sort_ordered(out: Seq<DirEntry>, inp: Seq<DirEntry>, kind: EntryKind)
    requires
        is_stable_sort(out, inp),
        forall|i: int| 0 <= i < inp.len() ==> (#[trigger] inp[i]).kind == kind,
    ensures
        forall|k: int| 0 <= k < out.len() ==> (#[trigger] out[k]).kind == kind,
        forall|k: int, l: int|
            0 <= k < l < out.len() ==> !str_lt(entry_key(#[trigger] out[l]), entry_key(#[trigger] out[k])),
{
    let p = choose|p: Seq<int>| is_sort_permutation(out, inp, p);
    assert forall|k: int| 0 <= k < out.len() implies (#[trigger] out[k]).kind == kind by {
        assert(out[k] == inp[p[k]]);
    }
    assert forall|k: int, l: int| 0 <= k < l < out.len() implies !str_lt(entry_key(#[trigger] out[l]), entry_key(#[trigger] out[k])) by {
        assert(sorts_before(inp, p[k], p[l]));
        assert(out[k] == inp[p[k]] && out[l] == inp[p[l]]);
        lemma_str_lt_asymmetric(entry_key(out[k]), entry_key(out[l]));
        lemma_str_lt_irreflexive(entry_key(out[k]));
    }
}

/// Law: after `sort`, every directory comes before every other entry, and
/// within each group lower-case names never decrease.
pub proof fn lemma_sorted_listing_order(new: Seq<DirEntry>, old: Seq<DirEntry>)
    requires
        is_sorted_listing(new, old),
    ensures
        ({
            let d = popped_of_kind(old, EntryKind::Dir).len() as int;
            &&& forall|k: int| 0 <= k < d ==> (#[trigger] new[k]).kind == EntryKind::Dir
            &&& forall|k: int| d <= k < new.len() ==> (#[trigger] new[k]).kind == EntryKind::File
            &&& forall|k: int, l: int|
                0 <= k < l < d ==> !str_lt(entry_key(#[trigger] new[l]), entry_key(#[trigger] new[k]))
            &&& forall|k: int, l: int|
                d <= k < l < new.len() ==> !str_lt(entry_key(#[trigger] new[l]), entry_key(#[trigger] new[k]))
        }),
{
    let dirs = popped_of_kind(old, EntryKind::Dir);
    let files = popped_of_kind(old, EntryKind::File);
    let d = dirs.len() as int;
    lemma_popped_kind(old, EntryKind::Dir);
    lemma_popped_kind(old, EntryKind::File);
    lemma_stable_sort_ordered(new.take(d), dirs, EntryKind::Dir);
    lemma_stable_sort_ordered(new.skip(d), files, EntryKind::File);
    assert forall|k: int| 0 <= k < d implies (#[trigger] new[k]).kind == EntryKind::Dir by {
        assert(new.take(d)[k] == new[k]);
    }
    assert forall|k: int| d <= k < new.len() implies (#[trigger] new[k]).kind == EntryKind::File by {
        assert(new.skip(d)[k - d] == new[k]);
    }
    assert forall|k: int, l: int| 0 <= k < l < d implies !str_lt(entry_key(#[trigger] new[l]), entry_key(#[trigger] new[k])) by {
        assert(new.take(d)[k] == new[k] && new.take(d)[l] == new[l]);
    }
    assert forall|k: int, l: int| d <= k < l < new.len() implies !str_lt(entry_key(#[trigger] new[l]), entry_key(#[trigger] new[k])) by {
        assert(new.skip(d)[k - d] == new[k] && new.skip(d)[l - d] == new[l]);
    }
}

/// Law: after `sort`, among the directories and among the files, an entry
/// whose lower-case name is a proper prefix of another's comes first.
pub proof fn lemma_sorted_prefix_first(new: Seq<DirEntry>, old: Seq<DirEntry>, k: int, l: int, s: Seq<char>)
    requires
        is_sorted_listing(new, old),
        0 <= k < new.len(),
        0 <= l < new.len(),
        new[k].kind == new[l].kind,
        s.len() > 0,
        entry_key(new[l]) == entry_key(new[k]) + s,
    ensures
        k < l,
{
    lemma_sorted_listing_order(new, old);
    lemma_str_lt_proper_prefix(entry_key(new[k]), s);
    if l == k {
        assert(entry_key(new[l]).len() == entry_key(new[k]).len() + s.len());
    }
    if l < k {
        let d = popped_of_kind(old, EntryKind::Dir).len() as int;
        if k < d {
            assert(new[k].kind == EntryKind::Dir);
            assert(l < d);
        } else {
            assert(new[k].kind == EntryKind::File);
            assert(new[l].kind == EntryKind::File);
            assert(d <= l);
        }
        assert(!str_lt(entry_key(new[k]), entry_key(new[l])));
    }
}

/// No two entries of `s` of the same kind have the same lower-case name.
pub open spec fn distinct_keys(s: Seq<DirEntry>) -> bool {
    forall|k: int, l: int|
        0 <= k < l < s.len() && (#[trigger] s[k]).kind == (#[trigger] s[l]).kind ==> entry_key(s[k]) != entry_key(
            s[l],
        )
}

/// Keys strictly increase along `a`.
pub open spec fn strictly_sorted(a: Seq<DirEntry>) -> bool {
    forall|k: int, l: int| 0 <= k < l < a.len() ==> str_lt(entry_key(#[trigger] a[k]), entry_key(#[trigger] a[l]))
}

proof fn lemma_popped_blocks(s: Seq<DirEntry>, d: int)
    requires
        0 <= d <= s.len(),
        forall|k: int| 0 <= k < d ==> (#[trigger] s[k]).kind == EntryKind::Dir,
        forall|k: int| d <= k < s.len() ==> (#[trigger] s[k]).kind == EntryKind::File,
    ensures
        popped_of_kind(s, EntryKind::Dir).len() == d,
        popped_of_kind(s, EntryKind::File).len() == s.len() - d,
        forall|j: int| 0 <= j < d ==> #[trigger] popped_of_kind(s, EntryKind::Dir)[j] == s[d - 1 - j],
        forall|j: int| 0 <= j < s.len() - d ==> #[trigger] popped_of_kind(s, EntryKind::File)[j] == s[s.len() - 1 - j],
    decreases s.len(),
{
    if s.len() > 0 {
        let t = s.drop_last();
        if s.len() > d {
            lemma_popped_blocks(t, d);
            assert forall|j: int| 0 <= j < s.len() - d implies #[trigger] popped_of_kind(s, EntryKind::File)[j]
                == s[s.len() - 1 - j] by {
                if j > 0 {
                    assert(popped_of_kind(s, EntryKind::File)[j] == popped_of_kind(t, EntryKind::File)[j - 1]);
                }
            }
        } else {
            lemma_popped_blocks(t, d - 1);
            assert forall|j: int| 0 <= j < d implies #[trigger] popped_of_kind(s, EntryKind::Dir)[j] == s[d - 1 - j] by {
                if j > 0 {
                    assert(popped_of_kind(s, EntryKind::Dir)[j] == popped_of_kind(t, EntryKind::Dir)[j - 1]);
                }
            }
        }
    }
}

proof fn lemma_decreasing_perm(p: Seq<int>, n: int, k: int)
    requires
        p.len() == n,
        0 <= k < n,
        forall|i: int| 0 <= i < n ==> 0 <= #[trigger] p[i] < n,
        forall|i: int, j: int| 0 <= i < j < n ==> #[trigger] p[i] > #[trigger] p[j],
    ensures
        p[k] <= n - 1 - k,
    decreases k,
{
    if k > 0 {
        lemma_decreasing_perm(p, n, k - 1);
        assert(p[k - 1] > p[k]);
    }
}

proof fn lemma_decreasing_perm_low(p: Seq<int>, n: int, k: int)
    requires
        p.len() == n,
        0 <= k < n,
        forall|i: int| 0 <= i < n ==> 0 <= #[trigger] p[i] < n,
        forall|i: int, j: int| 0 <= i < j < n ==> #[trigger] p[i] > #[trigger] p[j],
    ensures
        p[k] >= n - 1 - k,
    decreases n - k,
{
    if k < n - 1 {
        lemma_decreasing_perm_low(p, n, k + 1);
        assert(p[k] > p[k + 1]);
    }
}

/// A stable sort of the reverse of a strictly sorted sequence gives the
/// sequence back.
proof fn lemma_sort_of_reversed(a: Seq<DirEntry>, rev: Seq<DirEntry>, out: Seq<DirEntry>)
    requires
        strictly_sorted(a),
        rev.len() == a.len(),
        forall|j: int| 0 <= j < a.len() ==> #[trigger] rev[j] == a[a.len() - 1 - j],
        is_stable_sort(out, rev),
    ensures
        out == a,
{
    let n = a.len() as int;
    let p = choose|p: Seq<int>| is_sort_permutation(out, rev, p);
    assert forall|i: int, j: int| 0 <= i < j < n implies #[trigger] p[i] > #[trigger] p[j] by {
        assert(sorts_before(rev, p[i], p[j]));
        let x = n - 1 - p[i];
        let y = n - 1 - p[j];
        assert(rev[p[i]] == a[x] && rev[p[j]] == a[y]);
        if p[i] == p[j] {
            lemma_str_lt_irreflexive(entry_key(a[x]));
        } else if p[i] < p[j] {
            assert(str_lt(entry_key(a[y]), entry_key(a[x])));
            lemma_str_lt_asymmetric(entry_key(a[y]), entry_key(a[x]));
            lemma_str_lt_irreflexive(entry_key(a[x]));
        }
    }
    assert forall|k: int| 0 <= k < n implies #[trigger] out[k] == a[k] by {
        lemma_decreasing_perm(p, n, k);
        lemma_decreasing_perm_low(p, n, k);
        assert(out[k] == rev[p[k]]);
    }
    assert(out =~= a);
}

/// Law: sorting a sorted listing again keeps its order, provided no two
/// directories, and no two files, share a lower-case name (entries with
/// equal keys would come back reversed).
pub proof fn lemma_sort_twice(old: Seq<DirEntry>, once: Seq<DirEntry>, twice: Seq<DirEntry>)
    requires
        is_sorted_listing(once, old),
        is_sorted_listing(twice, once),
        distinct_keys(once),
    ensures
        twice == once,
{
    let d = popped_of_kind(old, EntryKind::Dir).len() as int;
    lemma_sorted_listing_order(once, old);
    let a = once.take(d);
    let b = once.skip(d);
    assert forall|k: int, l: int| 0 <= k < l < a.len() implies str_lt(entry_key(#[trigger] a[k]), entry_key(#[trigger] a[l])) by {
        assert(a[k] == once[k] && a[l] == once[l]);
        assert(once[k].kind == EntryKind::Dir && once[l].kind == EntryKind::Dir);
        lemma_str_lt_total(entry_key(once[k]), entry_key(once[l]));
    }
    assert forall|k: int, l: int| 0 <= k < l < b.len() implies str_lt(entry_key(#[trigger] b[k]), entry_key(#[trigger] b[l])) by {
        assert(b[k] == once[d + k] && b[l] == once[d + l]);
        assert(once[d + k].kind == EntryKind::File && once[d + l].kind == EntryKind::File);
        lemma_str_lt_total(entry_key(once[d + k]), entry_key(once[d + l]));
    }
    lemma_popped_blocks(once, d);
    let dirs = popped_of_kind(once, EntryKind::Dir);
    let files = popped_of_kind(once, EntryKind::File);
    assert forall|j: int| 0 <= j < a.len() implies #[trigger] dirs[j] == a[a.len() - 1 - j] by {}
    assert forall|j: int| 0 <= j < b.len() implies #[trigger] files[j] == b[b.len() - 1 - j] by {
        assert(files[j] == once[once.len() - 1 - j]);
    }
    lemma_sort_of_reversed(a, dirs, twice.take(d));
    lemma_sort_of_reversed(b, files, twice.skip(d));
    assert(twice =~= twice.take(d) + twice.skip(d));
    assert(once =~= a + b);
}

impl FsList {
    /// Sorts the entries: directories first, then files, each group by
    /// lower-case name; entries whose type could not be read are dropped.
    pub fn sort(&mut self)
        ensures
            is_sorted_listing(final(self).entries@, old(self).entries@),
            final(self).cwd == old(self).cwd,
            final(self).options == old(self).options,
            final(self).display_entries == old(self).display_entries,
    {
        let ghost orig = self.entries@;
        let mut dirs: Vec<DirEntry> = Vec::new();
        let mut files: Vec<DirEntry> = Vec::new();
        loop
            invariant
                self.cwd == old(self).cwd,
                self.options == old(self).options,
                self.display_entries == old(self).display_entries,
                popped_of_kind(orig, EntryKind::Dir) == dirs@ + popped_of_kind(self.entries@, EntryKind::Dir),
                popped_of_kind(orig, EntryKind::File) == files@ + popped_of_kind(self.entries@, EntryKind::File),
            ensures
                popped_of_kind(orig, EntryKind::Dir) == dirs@,
                popped_of_kind(orig, EntryKind::File) == files@,
            decreases self.entries@.len(),
        {
            let ghost before = self.entries@;
            let entry = self.entries.pop();
            match entry {
                None => {
                    assert(before.len() == 0);
                    assert(dirs@ + Seq::<DirEntry>::empty() =~= dirs@);
                    assert(files@ + Seq::<DirEntry>::empty() =~= files@);
                    break;
                },
                Some(entry) => {
                    assert(before.drop_last() == self.entries@);
                    match entry.kind {
                        EntryKind::Dir => {
                            assert(dirs@.push(entry) + popped_of_kind(self.entries@, EntryKind::Dir)
                                =~= dirs@ + (seq![entry] + popped_of_kind(self.entries@, EntryKind::Dir)));
                            dirs.push(entry);
                        },
                        EntryKind::File => {
                            assert(files@.push(entry) + popped_of_kind(self.entries@, EntryKind::File)
                                =~= files@ + (seq![entry] + popped_of_kind(self.entries@, EntryKind::File)));
                            files.push(entry);
                        },
                        EntryKind::Unknown => {},
                    }
                },
            }
        }
        let mut dirs = sort_group(dirs);
        let mut files = sort_group(files);
        let ghost d = dirs@;
        let ghost f = files@;
        dirs.append(&mut files);
        proof {
            assert(dirs@.take(d.len() as int) =~= d);
            assert(dirs@.skip(d.len() as int) =~= f);
        }
        self.entries = dirs;
    }

    /// A list of the given entries of the directory `cwd`, sorted, not yet
    /// laid out.
    pub fn new(cwd: String, entries: Vec<DirEntry>) -> (l: Self)
        ensures
            is_sorted_listing(l.entries@, entries@),
            l.cwd == cwd,
            !l.options.single_line,
            !l.options.show_file_size,
            l.options.space_size == 4,
            l.display_entries is Unitialized,
    {
        let options = FsListOptions::new_default();
        let display_entries = DisplayEntries::Unitialized;
        let mut fs_list = FsList { entries, cwd, options, display_entries };
        fs_list.sort();
        fs_list
    }

    /// Takes all entries out of the list and gives a span to each whose type
    /// is known, in order.
    pub fn to_spans(&mut self, config: &ColorConfig) -> (v: Vec<Bindagen>)
        requires
            colors_cover(*config, old(self).entries@),
        ensures
            final(self).entries@.len() == 0,
            final(self).cwd == old(self).cwd,
            final(self).options == old(self).options,
            final(self).display_entries == old(self).display_entries,
            v@.len() == known_entries(old(self).entries@).len(),
            forall|k: int|
                0 <= k < v@.len() ==> shows(#[trigger] v@[k], known_entries(old(self).entries@)[k], *config),
    {
        let ghost orig = self.entries@;
        let mut rest: Vec<DirEntry> = Vec::new();
        std::mem::swap(&mut rest, &mut self.entries);
        let mut out: Vec<Bindagen> = Vec::new();
        let n = rest.len();
        let mut j: usize = 0;
        let folder = String::from_str("folder");
        let file = String::from_str("file");
        while j < n
            invariant
                n == orig.len(),
                j <= n,
                rest@ == orig.skip(j as int),
                folder@ == "folder"@,
                file@ == "file"@,
                colors_cover(*config, orig),
                out@.len() == known_entries(orig.take(j as int)).len(),
                forall|k: int|
                    0 <= k < out@.len() ==> shows(#[trigger] out@[k], known_entries(orig.take(j as int))[k], *config),
            decreases n - j,
        {
            let entry = rest.remove(0);
            assert(entry == orig[j as int]);
            assert(orig.take(j + 1).drop_last() =~= orig.take(j as int));
            assert(orig.skip(j as int).drop_first() =~= orig.skip(j + 1));
            match entry.kind {
                EntryKind::Unknown => {},
                EntryKind::Dir => {
                    let color = get_color(&folder, config);
                    let mut string = String::from_str("\u{ea83} ");
                    proof {
                        reveal_strlit("\u{ea83} ");
                    }
                    string.append(entry.name.as_str());
                    assert(string@ =~= span_text(entry));
                    let span = Span { content: string, fg: color, on_white: false };
                    out.push(Bindagen { span, entry });
                },
                EntryKind::File => {
                    let color = get_color(&file, config);
                    let mut string = String::from_str("\u{ea7b} ");
                    proof {
                        reveal_strlit("\u{ea7b} ");
                    }
                    string.append(entry.name.as_str());
                    assert(string@ =~= span_text(entry));
                    let span = Span { content: string, fg: color, on_white: false };
                    out.push(Bindagen { span, entry });
                },
            }
            j = j + 1;
        }
        assert(orig.take(n as int) =~= orig);
        out
    }
}


// ---------------------------------------------------------------------------
// Laying the entries out
// ---------------------------------------------------------------------------

/// The width of `s` on a terminal, as ratatui's `Span::width` measures it.
pub uninterp spec fn display_width(s: Seq<char>) -> usize;

/// ratatui's `Span::width`: the Unicode display width of the span's text, a
/// function of the text alone; named here, not stated.
#[verifier::external_body]
fn span_width(s: &String) -> (w: usize)
    ensures
        w == display_width(s@),
{
    ratatui::text::Span::raw(s.as_str()).width()
}

/// Why a list operation failed.
#[derive(Clone, Copy, Debug, PartialEq, Eq)]
pub enum FsListError {
    /// An entry is wider than a `u16` can hold.
    TooWide,
    /// The selection would leave the entries.
    OutOfRange,
    /// The selected entry is not a directory.
    NotADirectory,
}

/// The widths of the spans in `s`.
pub open spec fn bind_widths(s: Seq<Bindagen>) -> Seq<int> {
    Seq::new(s.len(), |k: int| display_width(s[k].span.content@) as int)
}

/// The widths of the spans that show the entries of `s`.
pub open spec fn span_widths(s: Seq<DirEntry>) -> Seq<int> {
    Seq::new(s.len(), |k: int| display_width(span_text(s[k])) as int)
}

/// Where the `k`th entry of width `w` goes when the free cursor is at `at`:
/// whether it starts a new row, and its column and row. Entries after the
/// first are `space` cells apart; one that would pass `width` starts the
/// next row at column zero.
pub open spec fn multi_place(at: (int, int), k: int, w: int, space: int, width: int) -> (bool, int, int) {
    let nx = at.0 + if k == 0 {
        0
    } else {
        space
    };
    if w + nx > width {
        (true, 0, at.1 + 1)
    } else {
        (false, nx, at.1)
    }
}

/// The cursor before the `k`th entry: just after the entry before it.
pub open spec fn multi_cursor(ws: Seq<int>, k: int, space: int, width: int) -> (int, int)
    decreases k,
{
    if k <= 0 {
        (0, 0)
    } else {
        let p = multi_place(multi_cursor(ws, k - 1, space, width), k - 1, ws[k - 1], space, width);
        (p.1 + ws[k - 1], p.2)
    }
}

/// The `k`th entry starts a new row.
pub open spec fn multi_new_line(ws: Seq<int>, k: int, space: int, width: int) -> bool {
    multi_place(multi_cursor(ws, k, space, width), k, ws[k], space, width).0
}

/// The cells of the `k`th entry in `area`.
pub open spec fn multi_rect(ws: Seq<int>, k: int, space: int, area: Rect) -> Rect {
    let p = multi_place(multi_cursor(ws, k, space, area.width as int), k, ws[k], space, area.width as int);
    Rect { x: (area.x + p.1) as u16, y: (area.y + p.2) as u16, width: ws[k] as u16, height: 1 }
}

/// Placing the `k`th entry computes nothing that leaves `u16`.
pub open spec fn multi_step_fits(ws: Seq<int>, k: int, space: int, area: Rect) -> bool {
    let at = multi_cursor(ws, k, space, area.width as int);
    let nx = at.0 + if k == 0 {
        0
    } else {
        space
    };
    let p = multi_place(at, k, ws[k], space, area.width as int);
    &&& nx <= u16::MAX
    &&& ws[k] + nx <= u16::MAX
    &&& p.0 ==> at.1 + 1 <= u16::MAX
    &&& area.x + p.1 <= u16::MAX
    &&& area.y + p.2 <= u16::MAX
    &&& p.1 + ws[k] <= u16::MAX
}

/// Laying out entries of widths `ws` computes nothing that leaves `u16`, up
/// to the first entry too wide for a `u16`.
pub open spec fn multi_fits(ws: Seq<int>, space: int, area: Rect) -> bool {
    forall|k: int|
        0 <= k < ws.len() && (forall|j: int| 0 <= j <= k ==> ws[j] <= u16::MAX)
            ==> #[trigger] multi_step_fits(ws, k, space, area)
}

/// The rows that the entries `items` fill, a new row where an entry starts
/// one, beginning from a single empty row.
pub open spec fn multi_rows(items: Seq<DisplayEntry>, ws: Seq<int>, space: int, width: int) -> Seq<Seq<DisplayEntry>>
    decreases items.len(),
{
    if items.len() == 0 {
        seq![Seq::empty()]
    } else {
        let prev = multi_rows(items.drop_last(), ws, space, width);
        if multi_new_line(ws, items.len() - 1, space, width) {
            prev.push(seq![items.last()])
        } else {
            prev.update(prev.len() - 1, prev.last().push(items.last()))
        }
    }
}

proof fn lemma_multi_rows_nonempty(items: Seq<DisplayEntry>, ws: Seq<int>, space: int, width: int)
    ensures
        multi_rows(items, ws, space, width).len() >= 1,
    decreases items.len(),
{
    if items.len() > 0 {
        lemma_multi_rows_nonempty(items.drop_last(), ws, space, width);
    }
}

/// The cells of the `k`th entry in one column of `area`.
pub open spec fn single_rect(k: int, area: Rect) -> Rect {
    Rect { x: area.x, y: (area.y + k) as u16, width: area.width, height: 1 }
}

/// `d` lays out the span `b` at `rect`, selected or not.
pub open spec fn placed(d: DisplayEntry, b: Bindagen, rect: Rect, selected: bool) -> bool {
    &&& d.entry == b.entry
    &&& d.span == b.span
    &&& d.rect == rect
    &&& d.selected == selected
}

/// `items` lays out `spans` one after the other across `area`.
pub open spec fn multi_layout_of(items: Seq<DisplayEntry>, spans: Seq<Bindagen>, space: int, area: Rect) -> bool {
    &&& items.len() == spans.len()
    &&& forall|k: int|
        0 <= k < items.len() ==> placed(
            #[trigger] items[k],
            spans[k],
            multi_rect(bind_widths(spans), k, space, area),
            k == 0,
        )
}

fn layout_single(spans: Vec<Bindagen>, rect: Rect) -> (line: SingleLine)
    requires
        spans@.len() <= u16::MAX,
        spans@.len() > 0 ==> rect.y + spans@.len() - 1 <= u16::MAX,
    ensures
        line.selected == 0,
        line.vec@.len() == spans@.len(),
        forall|k: int|
            0 <= k < spans@.len() ==> placed(#[trigger] line.vec@[k], spans@[k], single_rect(k, rect), k == 0),
{
    let ghost inp = spans@;
    let mut spans = spans;
    let mut line = SingleLine::new_default();
    let mut at_y: u16 = 0;
    let n = spans.len();
    let mut index: usize = 0;
    while index < n
        invariant
            n == inp.len(),
            n <= u16::MAX,
            n > 0 ==> rect.y + n - 1 <= u16::MAX,
            index <= n,
            at_y == index,
            spans@ == inp.skip(index as int),
            line.selected == 0,
            line.vec@.len() == index,
            forall|k: int|
                0 <= k < index ==> placed(#[trigger] line.vec@[k], inp[k], single_rect(k, rect), k == 0),
        decreases n - index,
    {
        let b = spans.remove(0);
        assert(b == inp[index as int]);
        assert(inp.skip(index as int).drop_first() =~= inp.skip(index + 1));
        let selected = index == 0;
        let new_rect = rect_new(rect.x, rect.y + at_y, rect.width, 1);
        let entry = DisplayEntry::new(b.entry, b.span, new_rect, selected);
        line.vec.push(entry);
        at_y = at_y + 1;
        index = index + 1;
    }
    line
}

fn layout_multi(spans: Vec<Bindagen>, rect: Rect, space_size: u16) -> (r: Result<MultiLineStruct, FsListError>)
    requires
        multi_fits(bind_widths(spans@), space_size as int, rect),
    ensures
        r is Err <==> exists|k: int| 0 <= k < spans@.len() && #[trigger] bind_widths(spans@)[k] > u16::MAX,
        r is Err ==> r == Err::<MultiLineStruct, FsListError>(FsListError::TooWide),
        r matches Ok(m) ==> {
            &&& m.selected == Vec2(0usize, 0usize)
            &&& exists|items: Seq<DisplayEntry>|
                {
                    &&& multi_layout_of(items, spans@, space_size as int, rect)
                    &&& rows_view(m.vec) == multi_rows(
                        items,
                        bind_widths(spans@),
                        space_size as int,
                        rect.width as int,
                    )
                }
        },
{
    let ghost inp = spans@;
    let ghost ws = bind_widths(inp);
    let ghost space = space_size as int;
    let ghost width = rect.width as int;
    let mut rest = spans;
    let mut rows: Vec<Vec<DisplayEntry>> = vec![Vec::new()];
    proof {
        assert(rows_view(rows) =~= seq![Seq::<DisplayEntry>::empty()]);
    }
    let ghost mut items: Seq<DisplayEntry> = Seq::empty();
    let mut at_x: u16 = 0;
    let mut at_y: u16 = 0;
    let n = rest.len();
    let mut index: usize = 0;
    while index < n
        invariant
            n == inp.len(),
            ws == bind_widths(inp),
            space == space_size as int,
            width == rect.width as int,
            multi_fits(ws, space, rect),
            index <= n,
            rest@ == inp.skip(index as int),
            inp == spans@,
            items.len() == index,
            (at_x as int, at_y as int) == multi_cursor(ws, index as int, space, width),
            forall|k: int| 0 <= k < index ==> #[trigger] ws[k] <= u16::MAX,
            forall|k: int|
                0 <= k < index ==> placed(
                    #[trigger] items[k],
                    inp[k],
                    multi_rect(ws, k, space, rect),
                    k == 0,
                ),
            rows_view(rows) == multi_rows(items, ws, space, width),
        decreases n - index,
    {
        let b = rest.remove(0);
        assert(b == inp[index as int]);
        assert(inp.skip(index as int).drop_first() =~= inp.skip(index + 1));
        let w = span_width(&b.span.content);
        assert(w == ws[index as int]);
        if w > 65535 {
            assert(bind_widths(inp)[index as int] > u16::MAX);
            return Err(FsListError::TooWide);
        }
        assert(forall|j: int| 0 <= j <= index ==> ws[j] <= u16::MAX);
        assert(multi_step_fits(ws, index as int, space, rect));
        let text_width = w as u16;
        let selected = index == 0;
        let space_here: u16 = if index == 0 {
            0
        } else {
            space_size
        };
        let new_x = at_x + space_here;
        let limit_x = text_width + new_x;
        let is_new_line: bool;
        if limit_x > rect.width {
            at_x = 0;
            at_y = at_y + 1;
            is_new_line = true;
        } else {
            at_x = new_x;
            is_new_line = false;
        }
        let new_rect = rect_new(rect.x + at_x, rect.y + at_y, text_width, 1);
        assert(new_rect == multi_rect(ws, index as int, space, rect));
        at_x = at_x + text_width;
        let entry = DisplayEntry::new(b.entry, b.span, new_rect, selected);
        let ghost g = entry;
        let ghost old_rows = rows_view(rows);
        proof {
            lemma_multi_rows_nonempty(items, ws, space, width);
        }
        if is_new_line {
            let mut row: Vec<DisplayEntry> = Vec::new();
            row.push(entry);
            assert(row@ =~= seq![g]);
            rows.push(row);
            proof {
                assert(rows_view(rows) =~= old_rows.push(seq![g]));
            }
        } else {
            let mut last = rows.pop().unwrap();
            last.push(entry);
            rows.push(last);
            proof {
                assert(rows_view(rows) =~= old_rows.update(old_rows.len() - 1, old_rows.last().push(g)));
            }
        }
        proof {
            let old_items = items;
            items = items.push(g);
            assert(items.drop_last() =~= old_items);
        }
        index = index + 1;
    }
    proof {
        assert(multi_layout_of(items, inp, space, rect));
    }
    Ok(MultiLineStruct { vec: rows, selected: Vec2(0, 0) })
}


/// The area the entries are laid out in: inside the border when the panel
/// has one.
pub open spec fn layout_area(panel_rect: Rect, boxed: bool) -> Rect {
    if boxed {
        bordered_inner_spec(panel_rect)
    } else {
        panel_rect
    }
}

/// Laying out `s` computes nothing that leaves `u16` (one column: no more
/// lines than fit below the top of `area`; rows: `multi_fits`).
pub open spec fn layout_fits(s: Seq<DirEntry>, options: FsListOptions, area: Rect) -> bool {
    let kept = known_entries(s);
    if options.single_line {
        &&& kept.len() <= u16::MAX
        &&& kept.len() > 0 ==> area.y + kept.len() - 1 <= u16::MAX
    } else {
        multi_fits(span_widths(kept), options.space_size as int, area)
    }
}

/// `d` shows entry `e` at `rect`, selected or not.
pub open spec fn laid_out(d: DisplayEntry, e: DirEntry, config: ColorConfig, rect: Rect, selected: bool) -> bool {
    &&& d.entry == e
    &&& d.span.content@ == span_text(e)
    &&& d.span.fg == color_of(config, role_of(e))
    &&& !d.span.on_white
    &&& d.rect == rect
    &&& d.selected == selected
}

/// What a successful `update_display` leaves: the entries of `s` whose type
/// is known, laid out in `area` as the options say, the first one selected.
pub open spec fn is_layout_of(d: DisplayEntries, s: Seq<DirEntry>, options: FsListOptions, config: ColorConfig, area: Rect) -> bool {
    let kept = known_entries(s);
    let ws = span_widths(kept);
    let space = options.space_size as int;
    match d {
        DisplayEntries::SingleLine(line) => {
            &&& options.single_line
            &&& line.selected == 0
            &&& line.vec@.len() == kept.len()
            &&& forall|k: int|
                0 <= k < kept.len() ==> laid_out(#[trigger] line.vec@[k], kept[k], config, single_rect(k, area), k == 0)
        },
        DisplayEntries::MultiLine(m) => {
            &&& !options.single_line
            &&& m.selected == Vec2(0usize, 0usize)
            &&& exists|items: Seq<DisplayEntry>|
                {
                    &&& items.len() == kept.len()
                    &&& (forall|k: int|
                        0 <= k < kept.len() ==> laid_out(#[trigger] items[k], kept[k], config, multi_rect(ws, k, space, area), k == 0))
                    &&& rows_view(m.vec) == multi_rows(items, ws, space, area.width as int)
                }
        },
        DisplayEntries::Unitialized => false,
    }
}

/// Law: the entries that share a row go left to right without overlapping:
/// an entry that does not start a row ends within the width and, after the
/// first entry, begins `space` cells after the end of the entry before it,
/// on the same row.
pub proof fn lemma_row_entries_apart(ws: Seq<int>, k: int, space: int, width: int)
    requires
        0 <= k < ws.len(),
        !multi_new_line(ws, k, space, width),
    ensures
        ({
            let p = multi_place(multi_cursor(ws, k, space, width), k, ws[k], space, width);
            &&& p.1 + ws[k] <= width
            &&& k > 0 ==> {
                let q = multi_place(multi_cursor(ws, k - 1, space, width), k - 1, ws[k - 1], space, width);
                p.2 == q.2 && p.1 == q.1 + ws[k - 1] + space
            }
        }),
{
}

proof fn lemma_multi_rows_first(items: Seq<DisplayEntry>, ws: Seq<int>, space: int, width: int)
    requires
        items.len() > 0,
        !multi_new_line(ws, 0, space, width),
    ensures
        multi_rows(items, ws, space, width)[0].len() > 0,
        multi_rows(items, ws, space, width)[0][0] == items[0],
    decreases items.len(),
{
    let prev = multi_rows(items.drop_last(), ws, space, width);
    lemma_multi_rows_nonempty(items.drop_last(), ws, space, width);
    if items.len() > 1 {
        lemma_multi_rows_first(items.drop_last(), ws, space, width);
    } else {
        assert(prev =~= seq![Seq::<DisplayEntry>::empty()]);
    }
}

/// Law: a layout of at least one entry selects the first entry, flagged as
/// selected, provided in rows that the first entry fits the width of the
/// area (a wider one starts a second row and leaves the first empty).
pub proof fn lemma_layout_selects_first(
    d: DisplayEntries,
    s: Seq<DirEntry>,
    options: FsListOptions,
    config: ColorConfig,
    area: Rect,
)
    requires
        is_layout_of(d, s, options, config, area),
        known_entries(s).len() > 0,
        !options.single_line ==> span_widths(known_entries(s))[0] <= area.width,
    ensures
        selected_entry(d) matches Some(e) && e.entry == known_entries(s)[0] && e.selected,
{
    let kept = known_entries(s);
    let ws = span_widths(kept);
    let space = options.space_size as int;
    match d {
        DisplayEntries::SingleLine(line) => {
            assert(laid_out(line.vec@[0], kept[0], config, single_rect(0, area), true));
        },
        DisplayEntries::MultiLine(m) => {
            let items = choose|items: Seq<DisplayEntry>|
                {
                    &&& items.len() == kept.len()
                    &&& (forall|k: int|
                        0 <= k < kept.len() ==> laid_out(#[trigger] items[k], kept[k], config, multi_rect(ws, k, space, area), k == 0))
                    &&& rows_view(m.vec) == multi_rows(items, ws, space, area.width as int)
                };
            assert(laid_out(items[0], kept[0], config, multi_rect(ws, 0, space, area), true));
            lemma_multi_rows_first(items, ws, space, area.width as int);
            lemma_multi_rows_nonempty(items, ws, space, area.width as int);
            assert(rows_view(m.vec).len() == m.vec@.len());
            assert(rows_view(m.vec)[0] == m.vec@[0]@);
        },
        DisplayEntries::Unitialized => {},
    }
}

/// Laying out the rows stops at an entry wider than a `u16` can hold.
pub open spec fn has_too_wide(s: Seq<DirEntry>, options: FsListOptions) -> bool {
    &&& !options.single_line
    &&& exists|k: int| 0 <= k < known_entries(s).len() && #[trigger] span_widths(known_entries(s))[k] > u16::MAX
}

impl FsList {
    /// Lays the entries out in the panel, once: after the first call the
    /// layout stays as it is. The entries move into the layout.
    pub fn update_display(&mut self, panel_rect: Rect, boxed: bool, config: &ColorConfig) -> (r: Result<(), FsListError>)
        requires
            old(self).display_entries is Unitialized ==> colors_cover(*config, old(self).entries@),
            old(self).display_entries is Unitialized ==> layout_fits(
                old(self).entries@,
                old(self).options,
                layout_area(panel_rect, boxed),
            ),
        ensures
            !(old(self).display_entries is Unitialized) ==> r == Ok::<(), FsListError>(()) && *final(self)
                == *old(self),
            old(self).display_entries is Unitialized ==> {
                &&& final(self).entries@.len() == 0
                &&& final(self).cwd == old(self).cwd
                &&& final(self).options == old(self).options
                &&& (r is Err <==> has_too_wide(old(self).entries@, old(self).options))
                &&& r is Err ==> r == Err::<(), FsListError>(FsListError::TooWide)
                    && final(self).display_entries is Unitialized
                &&& r is Ok ==> is_layout_of(
                    final(self).display_entries,
                    old(self).entries@,
                    old(self).options,
                    *config,
                    layout_area(panel_rect, boxed),
                )
            },
    {
        if !self.display_entries.is_unitialized() {
            return Ok(());
        }
        let ghost orig = self.entries@;
        let ghost kept = known_entries(orig);
        let mut rect = panel_rect;
        if boxed {
            rect = bordered_inner(rect);
        }
        let spans = self.to_spans(config);
        let ghost sp = spans@;
        proof {
            assert(bind_widths(sp) =~= span_widths(kept));
        }
        if self.options.single_line {
            let line = layout_single(spans, rect);
            self.display_entries = DisplayEntries::SingleLine(line);
            Ok(())
        } else {
            match layout_multi(spans, rect, self.options.space_size) {
                Ok(m) => {
                    proof {
                        let items = choose|items: Seq<DisplayEntry>|
                            {
                                &&& multi_layout_of(items, sp, self.options.space_size as int, rect)
                                &&& rows_view(m.vec) == multi_rows(
                                    items,
                                    bind_widths(sp),
                                    self.options.space_size as int,
                                    rect.width as int,
                                )
                            };
                        assert(forall|k: int|
                            0 <= k < kept.len() ==> laid_out(
                                #[trigger] items[k],
                                kept[k],
                                *config,
                                multi_rect(span_widths(kept), k, self.options.space_size as int, rect),
                                k == 0,
                            ));
                    }
                    self.display_entries = DisplayEntries::MultiLine(m);
                    Ok(())
                },
                Err(e) => Err(e),
            }
        }
    }
}


/// The width of the span that shows `e`.
fn entry_width(e: &DirEntry) -> (w: usize)
    requires
        e.kind != EntryKind::Unknown,
    ensures
        w == display_width(span_text(*e)),
{
    let mut string = if e.kind == EntryKind::Dir {
        let s = String::from_str("\u{ea83} ");
        proof {
            reveal_strlit("\u{ea83} ");
        }
        s
    } else {
        let s = String::from_str("\u{ea7b} ");
        proof {
            reveal_strlit("\u{ea7b} ");
        }
        s
    };
    string.append(e.name.as_str());
    assert(string@ =~= span_text(*e));
    span_width(&string)
}

/// The widths of the spans of the entries of `entries` whose type is known.
fn known_widths(entries: &Vec<DirEntry>) -> (ws: Vec<usize>)
    ensures
        ws@.len() == known_entries(entries@).len(),
        forall|k: int| 0 <= k < ws@.len() ==> #[trigger] ws@[k] as int == span_widths(known_entries(entries@))[k],
{
    let mut ws: Vec<usize> = Vec::new();
    let mut j: usize = 0;
    while j < entries.len()
        invariant
            j <= entries@.len(),
            ws@.len() == known_entries(entries@.take(j as int)).len(),
            forall|k: int|
                0 <= k < ws@.len() ==> #[trigger] ws@[k] as int == span_widths(known_entries(entries@.take(j as int)))[k],
        decreases entries.len() - j,
    {
        assert(entries@.take(j + 1).drop_last() =~= entries@.take(j as int));
        assert(entries@.take(j + 1).last() == entries@[j as int]);
        if entries[j].kind != EntryKind::Unknown {
            let w = entry_width(&entries[j]);
            ws.push(w);
        }
        j = j + 1;
    }
    assert(entries@.take(entries@.len() as int) =~= entries@);
    ws
}

/// Whether laying out entries of widths `ws` in rows stays within `u16`.
fn multi_fits_exec(ws: &Vec<usize>, space_size: u16, area: Rect) -> (b: bool)
    ensures
        b == multi_fits(Seq::new(ws@.len(), |k: int| ws@[k] as int), space_size as int, area),
{
    let ghost wsi = Seq::new(ws@.len(), |k: int| ws@[k] as int);
    let ghost space = space_size as int;
    let ghost width = area.width as int;
    let max: u64 = 65535;
    let mut at_x: u64 = 0;
    let mut at_y: u64 = 0;
    let mut k: usize = 0;
    while k < ws.len()
        invariant
            k <= ws@.len(),
            wsi == Seq::new(ws@.len(), |k: int| ws@[k] as int),
            space == space_size as int,
            width == area.width as int,
            max == 65535,
            (at_x as int, at_y as int) == multi_cursor(wsi, k as int, space, width),
            at_x <= max,
            at_y <= max,
            forall|j: int| 0 <= j < k ==> wsi[j] <= u16::MAX,
            forall|j: int| 0 <= j < k ==> #[trigger] multi_step_fits(wsi, j, space, area),
        decreases ws@.len() - k,
    {
        let w = ws[k];
        if w as u64 > max {
            assert forall|i: int|
                0 <= i < wsi.len() && (forall|j: int| 0 <= j <= i ==> wsi[j] <= u16::MAX) implies #[trigger] multi_step_fits(wsi, i, space, area) by {
                if i >= k {
                    assert(wsi[k as int] > u16::MAX);
                }
            }
            return true;
        }
        let w = w as u64;
        let space_here: u64 = if k == 0 {
            0
        } else {
            space_size as u64
        };
        let new_x = at_x + space_here;
        if new_x > max || w + new_x > max {
            assert(!multi_step_fits(wsi, k as int, space, area));
            return false;
        }
        let (nx, ny) = if w + new_x > area.width as u64 {
            if at_y + 1 > max {
                assert(!multi_step_fits(wsi, k as int, space, area));
                return false;
            }
            (0u64, at_y + 1)
        } else {
            (new_x, at_y)
        };
        if area.x as u64 + nx > max || area.y as u64 + ny > max || nx + w > max {
            assert(!multi_step_fits(wsi, k as int, space, area));
            return false;
        }
        assert(multi_step_fits(wsi, k as int, space, area));
        at_x = nx + w;
        at_y = ny;
        k = k + 1;
    }
    true
}

impl FsList {
    /// `update_display` when it would compute nothing out of `u16`; `None`,
    /// with the list unchanged, when it would.
    pub fn update_display_checked(&mut self, panel_rect: Rect, boxed: bool, config: &ColorConfig) -> (r: Option<Result<(), FsListError>>)
        requires
            old(self).display_entries is Unitialized ==> colors_cover(*config, old(self).entries@),
        ensures
            r is None <==> (old(self).display_entries is Unitialized && !layout_fits(
                old(self).entries@,
                old(self).options,
                layout_area(panel_rect, boxed),
            )),
            r is None ==> *final(self) == *old(self),
            !(old(self).display_entries is Unitialized) ==> r == Some(Ok::<(), FsListError>(())) && *final(self) == *old(self),
            old(self).display_entries is Unitialized && r is Some ==> {
                &&& final(self).entries@.len() == 0
                &&& final(self).cwd == old(self).cwd
                &&& final(self).options == old(self).options
                &&& (r->0 is Err <==> has_too_wide(old(self).entries@, old(self).options))
                &&& r->0 is Err ==> r == Some(Err::<(), FsListError>(FsListError::TooWide))
                    && final(self).display_entries is Unitialized
                &&& r->0 is Ok ==> is_layout_of(
                    final(self).display_entries,
                    old(self).entries@,
                    old(self).options,
                    *config,
                    layout_area(panel_rect, boxed),
                )
            },
    {
        if self.display_entries.is_unitialized() {
            let area = if boxed {
                bordered_inner(panel_rect)
            } else {
                panel_rect
            };
            let ws = known_widths(&self.entries);
            let fits = if self.options.single_line {
                let n = ws.len();
                n <= 65535 && (n == 0 || area.y as usize + n - 1 <= 65535)
            } else {
                let b = multi_fits_exec(&ws, self.options.space_size, area);
                proof {
                    assert(Seq::new(ws@.len(), |k: int| ws@[k] as int) =~= span_widths(known_entries(self.entries@)));
                }
                b
            };
            if !fits {
                return None;
            }
        }
        Some(self.update_display(panel_rect, boxed, config))
    }
}


// ---------------------------------------------------------------------------
// Moving the selection
// ---------------------------------------------------------------------------

/// `e` with its selection flag set to `b`.
pub open spec fn with_flag(e: DisplayEntry, b: bool) -> DisplayEntry {
    DisplayEntry { entry: e.entry, span: e.span, rect: e.rect, selected: b }
}

/// The index a selection at `sel` moves to by `d`: computed in `i16` and
/// read back as a `usize`, so that a step before the start gives an index
/// past any list.
pub open spec fn moved(sel: usize, d: i16) -> usize {
    ((sel as i16) + d) as usize
}

/// The step from `sel` by `d` stays within `i16`.
pub open spec fn move_fits(sel: usize, d: i16) -> bool {
    i16::MIN <= (sel as i16) + d <= i16::MAX
}

/// `move_selected` may be called: the list is laid out and the steps stay
/// within `i16`.
pub open spec fn can_move(d: DisplayEntries, dir: Vec2<i16>) -> bool {
    match d {
        DisplayEntries::SingleLine(line) => move_fits(line.selected, dir.1),
        DisplayEntries::MultiLine(m) => move_fits(m.selected.1, dir.1) && move_fits(m.selected.0, dir.0),
        DisplayEntries::Unitialized => false,
    }
}

/// `rows` with the flag of the entry at row `i`, column `j` set to `b`.
pub open spec fn rows_with_flag(rows: Seq<Seq<DisplayEntry>>, i: int, j: int, b: bool) -> Seq<Seq<DisplayEntry>> {
    rows.update(i, rows[i].update(j, with_flag(rows[i][j], b)))
}

/// Moving the selection by `dir` takes `old` to `new` with result `r`: when
/// the target is outside the entries, nothing changes and the move fails;
/// otherwise the target is flagged and becomes the selection, then the
/// entry that was selected loses its flag, or, when there is no such entry,
/// the move fails there.
pub open spec fn moves_to(old: DisplayEntries, new: DisplayEntries, dir: Vec2<i16>, r: Result<(), FsListError>) -> bool {
    match (old, new) {
        (DisplayEntries::SingleLine(o), DisplayEntries::SingleLine(n)) => {
            let v = o.vec@;
            let i = moved(o.selected, dir.1);
            if i >= v.len() {
                n.vec@ == v && n.selected == o.selected && r == Err::<(), FsListError>(FsListError::OutOfRange)
            } else {
                let v1 = v.update(i as int, with_flag(v[i as int], true));
                &&& n.selected == i
                &&& if o.selected >= v.len() {
                    n.vec@ == v1 && r == Err::<(), FsListError>(FsListError::OutOfRange)
                } else {
                    n.vec@ == v1.update(o.selected as int, with_flag(v1[o.selected as int], false))
                        && r == Ok::<(), FsListError>(())
                }
            }
        },
        (DisplayEntries::MultiLine(o), DisplayEntries::MultiLine(n)) => {
            let rows = rows_view(o.vec);
            let i1 = moved(o.selected.1, dir.1);
            let j1 = moved(o.selected.0, dir.0);
            let back = o.selected;
            if i1 >= rows.len() || j1 >= rows[i1 as int].len() {
                rows_view(n.vec) == rows && n.selected == o.selected && r == Err::<(), FsListError>(
                    FsListError::OutOfRange,
                )
            } else {
                let rows1 = rows_with_flag(rows, i1 as int, j1 as int, true);
                &&& n.selected == Vec2(j1, i1)
                &&& if back.1 >= rows1.len() || back.0 >= rows1[back.1 as int].len() {
                    rows_view(n.vec) == rows1 && r == Err::<(), FsListError>(FsListError::OutOfRange)
                } else {
                    rows_view(n.vec) == rows_with_flag(rows1, back.1 as int, back.0 as int, false) && r
                        == Ok::<(), FsListError>(())
                }
            }
        },
        _ => false,
    }
}

fn set_flag(v: &mut Vec<DisplayEntry>, i: usize, b: bool)
    requires
        i < old(v)@.len(),
    ensures
        final(v)@ == old(v)@.update(i as int, with_flag(old(v)@[i as int], b)),
{
    let mut e = v.remove(i);
    e.selected = b;
    v.insert(i, e);
    assert(v@ =~= old(v)@.update(i as int, with_flag(old(v)@[i as int], b)));
}

fn set_flag_2d(rows: &mut Vec<Vec<DisplayEntry>>, i: usize, j: usize, b: bool)
    requires
        i < old(rows)@.len(),
        j < old(rows)@[i as int]@.len(),
    ensures
        rows_view(*final(rows)) == rows_with_flag(rows_view(*old(rows)), i as int, j as int, b),
{
    let mut row = rows.remove(i);
    set_flag(&mut row, j, b);
    rows.insert(i, row);
    assert(rows_view(*rows) =~= rows_with_flag(rows_view(*old(rows)), i as int, j as int, b));
}

impl FsList {
    /// Moves the selection by `dir`: one line up or down in a column, or by
    /// column and row in rows.
    pub fn move_selected(&mut self, dir: Vec2<i16>) -> (r: Result<(), FsListError>)
        requires
            can_move(old(self).display_entries, dir),
        ensures
            moves_to(old(self).display_entries, final(self).display_entries, dir, r),
            final(self).entries == old(self).entries,
            final(self).cwd == old(self).cwd,
            final(self).options == old(self).options,
    {
        match &mut self.display_entries {
            DisplayEntries::SingleLine(line) => {
                let i = (line.selected as i16 + dir.1) as usize;
                if i >= line.vec.len() {
                    return Err(FsListError::OutOfRange);
                }
                set_flag(&mut line.vec, i, true);
                let back = line.selected;
                line.selected = i;
                if back >= line.vec.len() {
                    return Err(FsListError::OutOfRange);
                }
                set_flag(&mut line.vec, back, false);
                Ok(())
            },
            DisplayEntries::MultiLine(multi_line) => {
                let back = multi_line.selected;
                let i1 = (multi_line.selected.1 as i16 + dir.1) as usize;
                let j1 = (multi_line.selected.0 as i16 + dir.0) as usize;
                if i1 >= multi_line.vec.len() || j1 >= multi_line.vec[i1].len() {
                    return Err(FsListError::OutOfRange);
                }
                multi_line.selected = Vec2(j1, i1);
                set_flag_2d(&mut multi_line.vec, i1, j1, true);
                if back.1 >= multi_line.vec.len() || back.0 >= multi_line.vec[back.1].len() {
                    return Err(FsListError::OutOfRange);
                }
                set_flag_2d(&mut multi_line.vec, back.1, back.0, false);
                Ok(())
            },
            DisplayEntries::Unitialized => vstd::pervasive::unreached(),
        }
    }
}


/// In the column `v`, exactly the entry at `s` is flagged as selected.
pub open spec fn flagged_exactly(v: Seq<DisplayEntry>, s: int) -> bool {
    &&& 0 <= s < v.len()
    &&& forall|k: int| 0 <= k < v.len() ==> (#[trigger] v[k]).selected == (k == s)
}

/// In `rows`, exactly the entry at column `x`, row `y` is flagged.
pub open spec fn rows_flagged_exactly(rows: Seq<Seq<DisplayEntry>>, x: int, y: int) -> bool {
    &&& 0 <= y < rows.len()
    &&& 0 <= x < rows[y].len()
    &&& forall|i: int, j: int|
        0 <= i < rows.len() && 0 <= j < rows[i].len() ==> (#[trigger] rows[i][j]).selected == (i == y && j
            == x)
}

/// Law: in a column whose only flagged entry is the selected one, a move by
/// a non-zero step that succeeds leaves exactly the new selection flagged.
pub proof fn lemma_single_move_keeps_one_flag(o: SingleLine, n: SingleLine, dir: Vec2<i16>, r: Result<(), FsListError>)
    requires
        flagged_exactly(o.vec@, o.selected as int),
        o.selected <= i16::MAX,
        0 <= o.selected + dir.1 <= i16::MAX,
        dir.1 != 0,
        moves_to(DisplayEntries::SingleLine(o), DisplayEntries::SingleLine(n), dir, r),
        r is Ok,
    ensures
        flagged_exactly(n.vec@, n.selected as int),
{
    let t = moved(o.selected, dir.1);
    assert((o.selected as i16) as int == o.selected as int);
    assert(t as int == o.selected + dir.1);
}

/// Law: in rows whose only flagged entry is the selected one, a move by a
/// step with a non-zero part that succeeds leaves exactly the new selection
/// flagged.
pub proof fn lemma_multi_move_keeps_one_flag(o: MultiLineStruct, n: MultiLineStruct, dir: Vec2<i16>, r: Result<(), FsListError>)
    requires
        rows_flagged_exactly(rows_view(o.vec), o.selected.0 as int, o.selected.1 as int),
        o.selected.0 <= i16::MAX,
        o.selected.1 <= i16::MAX,
        0 <= o.selected.0 + dir.0 <= i16::MAX,
        0 <= o.selected.1 + dir.1 <= i16::MAX,
        dir.0 != 0 || dir.1 != 0,
        moves_to(DisplayEntries::MultiLine(o), DisplayEntries::MultiLine(n), dir, r),
        r is Ok,
    ensures
        rows_flagged_exactly(rows_view(n.vec), n.selected.0 as int, n.selected.1 as int),
{
    let ti = moved(o.selected.1, dir.1);
    let tj = moved(o.selected.0, dir.0);
    assert((o.selected.1 as i16) as int == o.selected.1 as int);
    assert((o.selected.0 as i16) as int == o.selected.0 as int);
    assert(ti as int == o.selected.1 + dir.1);
    assert(tj as int == o.selected.0 + dir.0);
    let rows = rows_view(o.vec);
    let rn = rows_view(n.vec);
    assert forall|i: int, j: int| 0 <= i < rn.len() && 0 <= j < rn[i].len() implies (#[trigger] rn[i][j]).selected == (
    i == ti && j == tj) by {
        assert(rows[i][j].selected == (i == o.selected.1 && j == o.selected.0));
    }
}

/// Law: in a column whose only flagged entry is the selected one, moving
/// the selection by a non-zero step and back, both moves succeeding, gives
/// back the same column and selection.
pub proof fn lemma_single_move_back(o: SingleLine, m: SingleLine, n: SingleLine, dir: Vec2<i16>, r1: Result<(), FsListError>, r2: Result<(), FsListError>)
    requires
        flagged_exactly(o.vec@, o.selected as int),
        o.selected <= i16::MAX,
        0 <= o.selected + dir.1 <= i16::MAX,
        dir.1 != 0,
        dir.1 != i16::MIN,
        moves_to(DisplayEntries::SingleLine(o), DisplayEntries::SingleLine(m), dir, r1),
        r1 is Ok,
        moves_to(DisplayEntries::SingleLine(m), DisplayEntries::SingleLine(n), Vec2((-dir.0) as i16, (-dir.1) as i16), r2),
        r2 is Ok,
    ensures
        n.vec@ == o.vec@,
        n.selected == o.selected,
{
    let t = moved(o.selected, dir.1);
    assert((o.selected as i16) as int == o.selected as int);
    assert(t as int == o.selected + dir.1);
    assert((t as i16) as int == t as int);
    assert(moved(t, (-dir.1) as i16) == o.selected);
    assert(n.vec@ =~= o.vec@);
}

/// Law: in rows whose only flagged entry is the selected one, moving the
/// selection by a step with a non-zero part and back, both moves
/// succeeding, gives back the same rows and selection.
pub proof fn lemma_multi_move_back(o: MultiLineStruct, m: MultiLineStruct, n: MultiLineStruct, dir: Vec2<i16>, r1: Result<(), FsListError>, r2: Result<(), FsListError>)
    requires
        rows_flagged_exactly(rows_view(o.vec), o.selected.0 as int, o.selected.1 as int),
        o.selected.0 <= i16::MAX,
        o.selected.1 <= i16::MAX,
        0 <= o.selected.0 + dir.0 <= i16::MAX,
        0 <= o.selected.1 + dir.1 <= i16::MAX,
        dir.0 != 0 || dir.1 != 0,
        dir.0 != i16::MIN,
        dir.1 != i16::MIN,
        moves_to(DisplayEntries::MultiLine(o), DisplayEntries::MultiLine(m), dir, r1),
        r1 is Ok,
        moves_to(DisplayEntries::MultiLine(m), DisplayEntries::MultiLine(n), Vec2((-dir.0) as i16, (-dir.1) as i16), r2),
        r2 is Ok,
    ensures
        rows_view(n.vec) == rows_view(o.vec),
        n.selected == o.selected,
{
    let ti = moved(o.selected.1, dir.1);
    let tj = moved(o.selected.0, dir.0);
    assert((o.selected.1 as i16) as int == o.selected.1 as int);
    assert((o.selected.0 as i16) as int == o.selected.0 as int);
    assert(ti as int == o.selected.1 + dir.1);
    assert(tj as int == o.selected.0 + dir.0);
    assert((ti as i16) as int == ti as int);
    assert((tj as i16) as int == tj as int);
    assert(moved(ti, (-dir.1) as i16) == o.selected.1);
    assert(moved(tj, (-dir.0) as i16) == o.selected.0);
    let rows = rows_view(o.vec);
    let rn = rows_view(n.vec);
    assert forall|i: int| 0 <= i < rows.len() implies rn[i] =~= rows[i] by {
        assert forall|j: int| 0 <= j < rows[i].len() implies rn[i][j] == rows[i][j] by {
            assert(rows[i][j].selected == (i == o.selected.1 && j == o.selected.0));
        }
    }
    assert(rn =~= rows);
}


// ---------------------------------------------------------------------------
// Acting on the selected entry
// ---------------------------------------------------------------------------

/// The index of the last `'.'` in `s`, if any.
pub open spec fn last_dot(s: Seq<char>) -> Option<int>
    decreases s.len(),
{
    if s.len() == 0 {
        None
    } else if s.last() == '.' {
        Some(s.len() - 1)
    } else {
        last_dot(s.drop_last())
    }
}

/// The extension of a file name, as `Path::extension` documents it: none
/// without a `'.'` or when the only `'.'` starts the name, otherwise what
/// follows the last `'.'`.
pub open spec fn extension(name: Seq<char>) -> Option<Seq<char>> {
    match last_dot(name) {
        None => None,
        Some(p) => if p == 0 {
            None
        } else {
            Some(name.skip(p + 1))
        },
    }
}

proof fn lemma_last_dot(s: Seq<char>)
    ensures
        match last_dot(s) {
            None => forall|k: int| 0 <= k < s.len() ==> s[k] != '.',
            Some(p) => 0 <= p < s.len() && s[p] == '.' && forall|k: int| p < k < s.len() ==> s[k] != '.',
        },
    decreases s.len(),
{
    if s.len() > 0 {
        lemma_last_dot(s.drop_last());
        assert(forall|k: int| 0 <= k < s.len() - 1 ==> s.drop_last()[k] == s[k]);
    }
}

/// `s` is one of the image extensions the viewer shows.
pub open spec fn is_image_extension(s: Option<Seq<char>>) -> bool {
    s == Some("png"@) || s == Some("jpg"@)
}

/// Law: the extension is what follows the last `'.'`: a non-empty stem, a
/// dot and a text without dots has that text as its extension.
pub proof fn lemma_extension_after_last_dot(p: Seq<char>, e: Seq<char>)
    requires
        p.len() > 0,
        forall|i: int| 0 <= i < e.len() ==> e[i] != '.',
    ensures
        extension(p + seq!['.'] + e) == Some(e),
{
    let name = p + seq!['.'] + e;
    let m = p.len() as int;
    lemma_last_dot(name);
    assert(name[m] == '.');
    match last_dot(name) {
        None => {},
        Some(q) => {
            if q < m {
                assert(name[m] != '.');
            }
            if q > m {
                assert(name[q] == e[q - m - 1]);
            }
            assert(name.skip(m + 1) =~= e);
        },
    }
}

/// Law: a file named by a non-empty stem and `.png` or `.jpg` is shown as a
/// picture.
pub proof fn lemma_picture_names(stem: Seq<char>)
    requires
        stem.len() > 0,
    ensures
        is_image_extension(extension(stem + seq!['.'] + seq!['p', 'n', 'g'])),
        is_image_extension(extension(stem + seq!['.'] + seq!['j', 'p', 'g'])),
{
    reveal_strlit("png");
    reveal_strlit("jpg");
    lemma_extension_after_last_dot(stem, seq!['p', 'n', 'g']);
    lemma_extension_after_last_dot(stem, seq!['j', 'p', 'g']);
    assert("png"@ =~= seq!['p', 'n', 'g']);
    assert("jpg"@ =~= seq!['j', 'p', 'g']);
}

/// Whether the file name `name` has the extension `png` or `jpg`.
fn has_image_extension(name: &str) -> (b: bool)
    ensures
        b == is_image_extension(extension(name@)),
{
    proof {
        reveal_strlit("png");
        reveal_strlit("jpg");
        lemma_last_dot(name@);
    }
    let n = name.unicode_len();
    let mut i: usize = n;
    while i > 0 && name.get_char(i - 1) != '.'
        invariant
            n == name@.len(),
            i <= n,
            forall|k: int| i <= k < n ==> name@[k] != '.',
        decreases i,
    {
        i = i - 1;
    }
    // `i` is one past the last dot, or zero when there is none.
    if i <= 1 {
        proof {
            if i == 1 {
                assert(name@[0] == '.');
            }
        }
        return false;
    }
    let len = n - i;
    assert(last_dot(name@) == Some(i - 1));
    if len != 3 {
        assert(name@.skip(i as int).len() != 3);
        return false;
    }
    let a = name.get_char(i);
    let b = name.get_char(i + 1);
    let c = name.get_char(i + 2);
    let r = (a == 'p' && b == 'n' && c == 'g') || (a == 'j' && b == 'p' && c == 'g');
    proof {
        assert(last_dot(name@) == Some(i - 1));
        let ext = name@.skip(i as int);
        assert(ext.len() == 3);
        if r {
            if a == 'p' {
                assert(ext =~= "png"@);
            } else {
                assert(ext =~= "jpg"@);
            }
        } else {
            assert(ext != "png"@ && ext != "jpg"@) by {
                if ext == "png"@ {
                    assert(ext[0] == 'p' && ext[1] == 'n' && ext[2] == 'g');
                }
                if ext == "jpg"@ {
                    assert(ext[0] == 'j' && ext[1] == 'p' && ext[2] == 'g');
                }
            }
        }
    }
    r
}

/// What the viewer shows for the selected entry.
#[derive(Debug)]
pub enum WidgetChoice {
    /// The listing of a directory.
    Dir(String),
    /// A picture.
    Image(String),
    /// The text of a file.
    Text(String),
}

impl FsList {
    /// The selected entry.
    pub fn get_focus(&self) -> (e: &DisplayEntry)
        requires
            selected_entry(self.display_entries) is Some,
        ensures
            selected_entry(self.display_entries) == Some(*e),
    {
        self.display_entries.get_selected()
    }

    /// The path of the directory to open when the selection is chosen; an
    /// error when the selected entry is not a directory.
    pub fn select(&self) -> (r: Result<&String, FsListError>)
        requires
            selected_entry(self.display_entries) is Some,
        ensures
            selected_entry(self.display_entries)->0.entry.kind == EntryKind::Dir ==> r == Ok::<
                &String,
                FsListError,
            >(&selected_entry(self.display_entries)->0.entry.path),
            selected_entry(self.display_entries)->0.entry.kind != EntryKind::Dir ==> r == Err::<
                &String,
                FsListError,
            >(FsListError::NotADirectory),
    {
        let selected = self.display_entries.get_selected();
        if selected.entry.kind == EntryKind::Dir {
            return Ok(&selected.entry.path);
        }
        Err(FsListError::NotADirectory)
    }

    /// What to show for the selected entry: a directory's listing, a `png`
    /// or `jpg` picture, or otherwise the file's text; each by its path.
    pub fn get_widget(&self) -> (w: WidgetChoice)
        requires
            selected_entry(self.display_entries) is Some,
        ensures
            ({
                let e = selected_entry(self.display_entries)->0.entry;
                match w {
                    WidgetChoice::Dir(p) => e.kind == EntryKind::Dir && p@ == e.path@,
                    WidgetChoice::Image(p) => e.kind != EntryKind::Dir && is_image_extension(extension(e.name@))
                        && p@ == e.path@,
                    WidgetChoice::Text(p) => e.kind != EntryKind::Dir && !is_image_extension(
                        extension(e.name@),
                    ) && p@ == e.path@,
                }
            }),
    {
        let selected = self.display_entries.get_selected();
        if selected.entry.kind == EntryKind::Dir {
            return WidgetChoice::Dir(selected.entry.path.clone());
        }
        if has_image_extension(selected.entry.name.as_str()) {
            return WidgetChoice::Image(selected.entry.path.clone());
        }
        WidgetChoice::Text(selected.entry.path.clone())
    }
}

/// The (row, column) that counting `selected` places along a square of as
/// many rows as columns as `multi_line` has rows gives.
fn get_i_j(multi_line: &[Vec<DisplayEntry>], selected: usize) -> (r: Result<(usize, usize), FsListError>)
    ensures
        r is Ok <==> selected < multi_line@.len() * multi_line@.len(),
        r matches Ok(p) ==> p.0 == (selected as int) / (multi_line@.len() as int) && p.1 == (selected as int)
            % (multi_line@.len() as int),
{
    let n = multi_line.len();
    if n == 0 {
        return Err(FsListError::OutOfRange);
    }
    let i = selected / n;
    let j = selected % n;
    if i < n {
        proof {
            assert(selected < n * n) by (nonlinear_arith)
                requires
                    i == selected / n,
                    i < n,
                    n > 0,
            ;
        }
        Ok((i, j))
    } else {
        proof {
            assert(selected >= n * n) by (nonlinear_arith)
                requires
                    i == selected / n,
                    i >= n,
                    n > 0,
            ;
        }
        Err(FsListError::OutOfRange)
    }
}

/// Puts `entry` in an empty list; a list that has entries stays as it is.
fn insert_alphabetical(entry: DirEntry, vec: &mut Vec<DirEntry>)
    ensures
        old(vec)@.len() == 0 ==> final(vec)@ == seq![entry],
        old(vec)@.len() != 0 ==> final(vec)@ == old(vec)@,
{
    if vec.len() == 0 {
        vec.push(entry);
        return;
    }
}

/// An entry by its name.
pub struct DisplayRufEntry {
    pub name: String,
}

/// The two kinds of entry.
pub enum EntryType {
    File,
    Dir,
}

} // verus!
