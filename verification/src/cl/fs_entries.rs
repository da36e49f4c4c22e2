//! A directory tree kept as a flat list: an open directory is followed by
//! its children.
use vstd::prelude::*;
use vstd::string::StringExecFns;

use crate::cl::{LineColor, RufufLine};

verus! {

/// A position in a panel.
#[derive(Debug, Clone, Copy, PartialEq, Eq)]
pub struct Cords {
    pub x: usize,
    pub y: usize,
}

/// Whether an entry is a file or a directory.
#[derive(Debug, Clone, Copy, PartialEq, Eq, Structural)]
pub enum EntryType {
    File,
    Directory,
}

/// One entry of the tree.
#[derive(Debug)]
pub struct FsEntry {
    pub entry_type: EntryType,
    /// Whether a directory shows its children.
    pub open: bool,
    /// The file name.
    pub name: String,
    /// The full path.
    pub path: String,
    /// How many entries after this one are its children, once opened.
    pub children_count: usize,
}

impl FsEntry {
    /// A closed entry, without children, as a directory read gives it.
    pub fn new(name: String, path: String, is_dir: bool) -> (e: Self)
        ensures
            e.name == name,
            e.path == path,
            e.entry_type == (if is_dir {
                EntryType::Directory
            } else {
                EntryType::File
            }),
            !e.open,
            e.children_count == 0,
    {
        let entry_type = if is_dir {
            EntryType::Directory
        } else {
            EntryType::File
        };
        FsEntry { entry_type, open: false, name, path, children_count: 0 }
    }
}

/// The part of ratatui's `ListState` that the list reads: how many lines
/// are scrolled off the top.
#[derive(Debug, Clone, Copy, PartialEq, Eq)]
pub struct ListState {
    pub offset: usize,
}

impl ListState {
    /// The state of a list not yet scrolled.
    pub fn new() -> (s: Self)
        ensures
            s.offset == 0,
    {
        ListState { offset: 0 }
    }
}

/// The entries of the tree, in the order they are shown.
#[derive(Debug)]
pub struct FsListLayout {
    pub nodes: Vec<FsEntry>,
    pub state: ListState,
}

/// `n` spaces.
pub open spec fn spaces(n: nat) -> Seq<char> {
    Seq::new(n, |i: int| ' ')
}

/// The text of an entry's line at `depth`: four spaces a level, then its name.
pub open spec fn line_text(e: FsEntry, depth: int) -> Seq<char> {
    spaces((depth * 4) as nat) + e.name@
}

/// Files are white, directories blue.
pub open spec fn line_color(e: FsEntry) -> LineColor {
    if e.entry_type == EntryType::File {
        LineColor::White
    } else {
        LineColor::Blue
    }
}

/// A line by its text, depth and colour.
pub open spec fn line_view(l: RufufLine) -> (Seq<char>, int, LineColor) {
    (l.text@, l.depth as int, l.color)
}

pub open spec fn lines_view(v: Seq<RufufLine>) -> Seq<(Seq<char>, int, LineColor)> {
    v.map_values(|l: RufufLine| line_view(l))
}

impl FsEntry {
    /// The entry's line at `depth`.
    pub fn to_line(&self, depth: usize) -> (l: RufufLine)
        requires
            depth * 4 <= usize::MAX,
        ensures
            line_view(l) == (line_text(*self, depth as int), depth as int, line_color(*self)),
    {
        let mut spaces_str = String::new();
        let mut k: usize = 0;
        assert(spaces_str@ =~= spaces(0));
        while k < depth
            invariant
                k <= depth,
                spaces_str@ == spaces((k * 4) as nat),
            decreases depth - k,
        {
            spaces_str.append("    ");
            proof {
                reveal_strlit("    ");
            }
            assert(spaces_str@ =~= spaces(((k + 1) * 4) as nat));
            k = k + 1;
        }
        spaces_str.append(self.name.as_str());
        if self.entry_type == EntryType::File {
            RufufLine { text: spaces_str, depth, color: LineColor::White }
        } else {
            RufufLine { text: spaces_str, depth, color: LineColor::Blue }
        }
    }
}

/// No entry's children run past the end of `usize`.
pub open spec fn counts_fit(nodes: Seq<FsEntry>) -> bool {
    forall|i: int| 0 <= i < nodes.len() ==> i + 1 + (#[trigger] nodes[i]).children_count <= usize::MAX
}

/// The lines of the entries from `index` on at `depth`, the way the list
/// walks them: below the top level only `amount` entries; after an open
/// directory with children, its `children_count` entries one level deeper,
/// after which the walk goes on past them.
pub open spec fn flatten(nodes: Seq<FsEntry>, depth: int, index: int, amount: int) -> Seq<(Seq<char>, int, LineColor)>
    decreases (if index < nodes.len() {
        nodes.len() - index
    } else {
        0
    }),
{
    if amount == 0 && depth != 0 {
        Seq::empty()
    } else if index < 0 || index >= nodes.len() {
        Seq::empty()
    } else {
        let e = nodes[index];
        let line = (line_text(e, depth), depth, line_color(e));
        let rest_amount = if amount != 0 {
            amount - 1
        } else {
            0
        };
        if e.entry_type != EntryType::File && e.children_count != 0 && e.open {
            seq![line] + flatten(nodes, depth + 1, index + 1, e.children_count as int) + flatten(
                nodes,
                depth,
                index + 1 + e.children_count,
                rest_amount,
            )
        } else {
            seq![line] + flatten(nodes, depth, index + 1, rest_amount)
        }
    }
}

impl FsListLayout {
    /// A tree of the given top-level entries, not scrolled.
    pub fn new(nodes: Vec<FsEntry>) -> (l: Self)
        ensures
            l.nodes == nodes,
            l.state.offset == 0,
    {
        FsListLayout { nodes, state: ListState::new() }
    }

    /// The lines of the entries from `index` on, at `depth`; below the top
    /// level, of `amount` entries and their open children.
    pub fn to_line_vec(&self, depth: usize, index: usize, amount: usize) -> (v: Vec<RufufLine>)
        requires
            counts_fit(self.nodes@),
            depth + self.nodes@.len() <= usize::MAX / 4 + index,
        ensures
            lines_view(v@) == flatten(self.nodes@, depth as int, index as int, amount as int),
        decreases (if index < self.nodes@.len() {
            self.nodes@.len() - index
        } else {
            0
        }),
    {
        let ghost nodes = self.nodes@;
        let mut buffer: Vec<RufufLine> = Vec::new();
        let mut idx = index;
        let mut amt = amount;
        loop
            invariant
                nodes == self.nodes@,
                counts_fit(nodes),
                idx >= index,
                depth + nodes.len() <= usize::MAX / 4 + index,
                lines_view(buffer@) + flatten(nodes, depth as int, idx as int, amt as int) == flatten(
                    nodes,
                    depth as int,
                    index as int,
                    amount as int,
                ),
            decreases (if idx < nodes.len() {
                nodes.len() - idx
            } else {
                0
            }),
        {
            if amt == 0 && depth != 0 {
                assert(flatten(nodes, depth as int, idx as int, amt as int) =~= Seq::empty());
                assert(lines_view(buffer@) + Seq::empty() =~= lines_view(buffer@));
                return buffer;
            }
            if idx >= self.nodes.len() {
                assert(flatten(nodes, depth as int, idx as int, amt as int) =~= Seq::empty());
                assert(lines_view(buffer@) + Seq::empty() =~= lines_view(buffer@));
                return buffer;
            }
            let ghost before = lines_view(buffer@);
            let entry = &self.nodes[idx];
            let line = entry.to_line(depth);
            buffer.push(line);
            assert(lines_view(buffer@) =~= before.push(line_view(line)));
            idx = idx + 1;
            if amt != 0 {
                amt = amt - 1;
            }
            if entry.entry_type == EntryType::File {
                assert(lines_view(buffer@) + flatten(nodes, depth as int, idx as int, amt as int)
                    =~= before + (seq![line_view(line)] + flatten(nodes, depth as int, idx as int, amt as int)));
                continue;
            }
            if entry.children_count != 0 && entry.open {
                let ghost mid = lines_view(buffer@);
                assert(index < nodes.len() && idx > index);
                let mut lines = self.to_line_vec(depth + 1, idx, entry.children_count);
                let ghost sub = lines_view(lines@);
                buffer.append(&mut lines);
                assert(lines_view(buffer@) =~= mid + sub);
                idx = idx + entry.children_count;
                assert(lines_view(buffer@) + flatten(nodes, depth as int, idx as int, amt as int)
                    =~= before + (seq![line_view(line)] + sub + flatten(nodes, depth as int, idx as int, amt as int)));
            } else {
                assert(lines_view(buffer@) + flatten(nodes, depth as int, idx as int, amt as int)
                    =~= before + (seq![line_view(line)] + flatten(nodes, depth as int, idx as int, amt as int)));
            }
        }
    }

    /// The lines of the whole tree.
    pub fn to_lines(&self) -> (v: Vec<RufufLine>)
        requires
            counts_fit(self.nodes@),
            self.nodes@.len() <= usize::MAX / 4,
        ensures
            lines_view(v@) == flatten(self.nodes@, 0, 0, 0),
    {
        self.to_line_vec(0, 0, 0)
    }
}


// ---------------------------------------------------------------------------
// Opening and closing directories
// ---------------------------------------------------------------------------

/// `e` opened, with `count` children.
pub open spec fn opened(e: FsEntry, count: nat) -> FsEntry {
    FsEntry {
        entry_type: e.entry_type,
        open: true,
        name: e.name,
        path: e.path,
        children_count: count as usize,
    }
}

/// `e` closed, still counting its children.
pub open spec fn closed(e: FsEntry) -> FsEntry {
    FsEntry {
        entry_type: e.entry_type,
        open: false,
        name: e.name,
        path: e.path,
        children_count: e.children_count,
    }
}

/// The tree after toggling the entry at `i`: a file stays; a closed
/// directory opens with `children` right after it; an open directory closes
/// and the `children_count` entries after it go.
pub open spec fn toggled(nodes: Seq<FsEntry>, i: int, children: Seq<FsEntry>) -> Seq<FsEntry> {
    let e = nodes[i];
    if e.entry_type == EntryType::File {
        nodes
    } else if !e.open {
        nodes.take(i) + seq![opened(e, children.len())] + children + nodes.skip(i + 1)
    } else {
        nodes.take(i) + seq![closed(e)] + nodes.skip(i + 1 + e.children_count)
    }
}

/// Toggling the entry at `i` removes no more entries than there are.
pub open spec fn can_toggle(nodes: Seq<FsEntry>, i: int) -> bool {
    &&& 0 <= i < nodes.len()
    &&& nodes[i].entry_type == EntryType::Directory && nodes[i].open ==> i + nodes[i].children_count
        < nodes.len()
}

impl FsListLayout {
    /// The path to list when toggling the entry at `index` opens it: some
    /// exactly for a closed directory.
    pub fn listing_needed(&self, index: usize) -> (p: Option<&String>)
        requires
            index < self.nodes@.len(),
        ensures
            p is Some <==> (self.nodes@[index as int].entry_type == EntryType::Directory
                && !self.nodes@[index as int].open),
            p matches Some(path) ==> *path == self.nodes@[index as int].path,
    {
        let entry = &self.nodes[index];
        if entry.entry_type == EntryType::Directory && !entry.open {
            Some(&entry.path)
        } else {
            None
        }
    }

    /// Opens or closes the directory at `index`; opening inserts `children`,
    /// the directory's listing, after it. A file stays as it is.
    pub fn toggle(&mut self, index: usize, children: Vec<FsEntry>)
        requires
            can_toggle(old(self).nodes@, index as int),
        ensures
            final(self).nodes@ == toggled(old(self).nodes@, index as int, children@),
            final(self).state == old(self).state,
    {
        let ghost nodes = self.nodes@;
        if self.nodes[index].entry_type == EntryType::Directory {
            if !self.nodes[index].open {
                let mut entry = self.nodes.remove(index);
                entry.open = true;
                entry.children_count = children.len();
                self.nodes.insert(index, entry);
                assert(self.nodes@ =~= nodes.take(index as int) + seq![opened(nodes[index as int], children@.len())] + nodes.skip(index + 1));
                let ghost kids = children@;
                let mut rest = children;
                let mut at = index;
                let mut k: usize = 0;
                let n = rest.len();
                while k < n
                    invariant
                        n == kids.len(),
                        k <= n,
                        at == index + k,
                        index < nodes.len(),
                        rest@ == kids.skip(k as int),
                        self.nodes@ == nodes.take(index as int) + seq![opened(nodes[index as int], kids.len())]
                            + kids.take(k as int) + nodes.skip(index + 1),
                        self.state == old(self).state,
                    decreases n - k,
                {
                    let child = rest.remove(0);
                    assert(child == kids[k as int]);
                    assert(kids.skip(k as int).drop_first() =~= kids.skip(k + 1));
                    let cur_len = self.nodes.len();
                    assert(at < cur_len);
                    at = at + 1;
                    let ghost before = self.nodes@;
                    self.nodes.insert(at, child);
                    assert(self.nodes@ =~= nodes.take(index as int) + seq![opened(nodes[index as int], kids.len())]
                        + kids.take(k + 1) + nodes.skip(index + 1));
                    k = k + 1;
                }
                assert(kids.take(n as int) =~= kids);
            } else {
                let size = self.nodes[index].children_count;
                let mut entry = self.nodes.remove(index);
                entry.open = false;
                self.nodes.insert(index, entry);
                let mut k: usize = 0;
                while k < size
                    invariant
                        k <= size,
                        size == nodes[index as int].children_count,
                        index + size < nodes.len(),
                        self.nodes@ == nodes.take(index as int) + seq![closed(nodes[index as int])]
                            + nodes.skip(index + 1 + k),
                        self.state == old(self).state,
                    decreases size - k,
                {
                    let cur_len = self.nodes.len();
                    assert(index + 1 < cur_len);
                    self.nodes.remove(index + 1);
                    assert(self.nodes@ =~= nodes.take(index as int) + seq![closed(nodes[index as int])]
                        + nodes.skip(index + 1 + k + 1));
                    k = k + 1;
                }
            }
        }
    }

    /// The path to list before clicking the line `index` rows below the top
    /// of the view: some exactly when the line is a closed directory.
    pub fn click_target(&self, index: u16) -> (p: Option<&String>)
        requires
            self.state.offset + index <= usize::MAX,
        ensures
            ({
                let at = self.state.offset + index;
                &&& p is Some <==> (at < self.nodes@.len() && self.nodes@[at].entry_type
                    == EntryType::Directory && !self.nodes@[at].open)
                &&& p matches Some(path) ==> *path == self.nodes@[at].path
            }),
    {
        let at = self.state.offset + index as usize;
        if at < self.nodes.len() {
            self.listing_needed(at)
        } else {
            None
        }
    }

    /// Toggles the entry on the line `index` rows below the top of the
    /// view, with `children` its listing when that opens it; `None`, with
    /// nothing changed, when there is no such line.
    pub fn click_at(&mut self, index: u16, children: Vec<FsEntry>) -> (r: Option<()>)
        requires
            old(self).state.offset + index <= usize::MAX,
            old(self).state.offset + index < old(self).nodes@.len() ==> can_toggle(
                old(self).nodes@,
                old(self).state.offset + index,
            ),
        ensures
            ({
                let at = old(self).state.offset + index;
                &&& r is Some <==> at < old(self).nodes@.len()
                &&& r is Some ==> final(self).nodes@ == toggled(old(self).nodes@, at, children@)
                &&& r is None ==> final(self).nodes@ == old(self).nodes@
                &&& final(self).state == old(self).state
            }),
    {
        let at = self.state.offset + index as usize;
        if at < self.nodes.len() {
            self.toggle(at, children);
            Some(())
        } else {
            None
        }
    }
}

/// Law: opening a closed directory and closing it again gives back the same
/// tree, but for the directory's count of children, which stays as the
/// number of entries it was opened with.
pub proof fn lemma_toggle_twice(nodes: Seq<FsEntry>, i: int, children: Seq<FsEntry>, again: Seq<FsEntry>)
    requires
        0 <= i < nodes.len(),
        nodes[i].entry_type == EntryType::Directory,
        !nodes[i].open,
        children.len() <= usize::MAX,
    ensures
        can_toggle(toggled(nodes, i, children), i),
        toggled(toggled(nodes, i, children), i, again) == nodes.update(
            i,
            FsEntry {
                entry_type: nodes[i].entry_type,
                open: false,
                name: nodes[i].name,
                path: nodes[i].path,
                children_count: children.len() as usize,
            },
        ),
{
    let t = toggled(nodes, i, children);
    assert(t[i] == opened(nodes[i], children.len()));
    assert(t.take(i) =~= nodes.take(i));
    assert(t.skip(i + 1 + children.len()) =~= nodes.skip(i + 1));
    assert(toggled(t, i, again) =~= nodes.update(
        i,
        FsEntry {
            entry_type: nodes[i].entry_type,
            open: false,
            name: nodes[i].name,
            path: nodes[i].path,
            children_count: children.len() as usize,
        },
    ));
}


/// The walk shows `e` as a single line: it is not an open directory with
/// children.
pub open spec fn shows_alone(e: FsEntry) -> bool {
    !(e.entry_type != EntryType::File && e.children_count != 0 && e.open)
}

/// The lines of the entries `s`, all at `depth`.
pub open spec fn node_lines(s: Seq<FsEntry>, depth: int) -> Seq<(Seq<char>, int, LineColor)> {
    Seq::new(s.len(), |k: int| (line_text(s[k], depth), depth, line_color(s[k])))
}

/// Where a walk from `index` at `depth` with `amount` stops when no entry it
/// meets is open: the end at the top level, after `amount` entries below it.
pub open spec fn flat_end(len: int, depth: int, index: int, amount: int) -> int {
    if depth == 0 {
        len
    } else if index + amount < len {
        index + amount
    } else {
        len
    }
}

proof fn lemma_flat_walk(nodes: Seq<FsEntry>, depth: int, index: int, amount: int)
    requires
        0 <= index <= nodes.len(),
        depth >= 0,
        amount >= 0,
        forall|k: int|
            index <= k < flat_end(nodes.len() as int, depth, index, amount) ==> shows_alone(#[trigger] nodes[k]),
    ensures
        flatten(nodes, depth, index, amount) == node_lines(
            nodes.subrange(index, flat_end(nodes.len() as int, depth, index, amount)),
            depth,
        ),
    decreases nodes.len() - index,
{
    let end = flat_end(nodes.len() as int, depth, index, amount);
    if amount == 0 && depth != 0 {
        assert(node_lines(nodes.subrange(index, end), depth) =~= Seq::empty());
    } else if index == nodes.len() {
        assert(node_lines(nodes.subrange(index, end), depth) =~= Seq::empty());
    } else {
        let rest = if amount != 0 {
            amount - 1
        } else {
            0
        };
        assert(shows_alone(nodes[index]));
        assert(flat_end(nodes.len() as int, depth, index + 1, rest) == end);
        lemma_flat_walk(nodes, depth, index + 1, rest);
        assert(node_lines(nodes.subrange(index, end), depth) =~= seq![
            (line_text(nodes[index], depth), depth, line_color(nodes[index])),
        ] + node_lines(nodes.subrange(index + 1, end), depth));
    }
}

proof fn lemma_top_prefix(nodes: Seq<FsEntry>, j: int)
    requires
        0 <= j <= nodes.len(),
        forall|k: int| 0 <= k < j ==> shows_alone(#[trigger] nodes[k]),
    ensures
        flatten(nodes, 0, 0, 0) == node_lines(nodes.take(j), 0) + flatten(nodes, 0, j, 0),
    decreases j,
{
    if j > 0 {
        lemma_top_prefix(nodes, j - 1);
        assert(flatten(nodes, 0, j - 1, 0) == seq![
            (line_text(nodes[j - 1], 0), 0int, line_color(nodes[j - 1])),
        ] + flatten(nodes, 0, j, 0));
        assert(node_lines(nodes.take(j), 0) =~= node_lines(nodes.take(j - 1), 0) + seq![
            (line_text(nodes[j - 1], 0), 0int, line_color(nodes[j - 1])),
        ]);
    } else {
        assert(node_lines(nodes.take(0), 0) =~= Seq::empty());
    }
}

/// Law: a tree in which no directory shows children (as a freshly read
/// listing) shows one line per entry, in order, each at the top level.
pub proof fn lemma_closed_tree_lines(nodes: Seq<FsEntry>)
    requires
        forall|k: int| 0 <= k < nodes.len() ==> shows_alone(#[trigger] nodes[k]),
    ensures
        flatten(nodes, 0, 0, 0) == node_lines(nodes, 0),
{
    lemma_top_prefix(nodes, nodes.len() as int);
    assert(nodes.take(nodes.len() as int) =~= nodes);
    assert(node_lines(nodes, 0) + Seq::<(Seq<char>, int, LineColor)>::empty() =~= node_lines(nodes, 0));
}

/// Law: in a tree where no directory is open, opening the directory at `i`
/// with a listing of entries that are not open shows the lines of the tree
/// up to that directory, then one line for each child indented one level,
/// then the rest of the tree.
pub proof fn lemma_open_shows_children(nodes: Seq<FsEntry>, i: int, children: Seq<FsEntry>)
    requires
        0 <= i < nodes.len(),
        nodes[i].entry_type == EntryType::Directory,
        !nodes[i].open,
        forall|k: int| 0 <= k < nodes.len() ==> shows_alone(#[trigger] nodes[k]),
        forall|k: int| 0 <= k < children.len() ==> shows_alone(#[trigger] children[k]),
        children.len() <= usize::MAX,
    ensures
        flatten(toggled(nodes, i, children), 0, 0, 0) == node_lines(nodes.take(i + 1), 0) + node_lines(children, 1)
            + node_lines(nodes.skip(i + 1), 0),
{
    let t = toggled(nodes, i, children);
    let e = nodes[i];
    let e2 = opened(e, children.len());
    let n = children.len() as int;
    assert(t =~= nodes.take(i) + seq![e2] + children + nodes.skip(i + 1));
    assert forall|k: int| 0 <= k < i implies shows_alone(#[trigger] t[k]) by {
        assert(t[k] == nodes[k]);
    }
    lemma_top_prefix(t, i);
    assert(t.take(i) =~= nodes.take(i));
    let line_e = (line_text(e, 0), 0int, line_color(e));
    assert(node_lines(nodes.take(i + 1), 0) =~= node_lines(nodes.take(i), 0) + seq![line_e]);
    if n == 0 {
        assert forall|k: int| i <= k < t.len() implies shows_alone(#[trigger] t[k]) by {
            if k > i {
                assert(t[k] == nodes[k]);
            }
        }
        lemma_flat_walk(t, 0, i, 0);
        assert(node_lines(t.subrange(i, t.len() as int), 0) =~= seq![line_e] + node_lines(nodes.skip(i + 1), 0));
        assert(node_lines(children, 1) =~= Seq::empty());
        assert(node_lines(nodes.take(i + 1), 0) + node_lines(children, 1) + node_lines(nodes.skip(i + 1), 0)
            =~= node_lines(nodes.take(i), 0) + (seq![line_e] + node_lines(nodes.skip(i + 1), 0)));
    } else {
        assert(flat_end(t.len() as int, 1, i + 1, n) == i + 1 + n);
        assert forall|k: int| i + 1 <= k < i + 1 + n implies shows_alone(#[trigger] t[k]) by {
            assert(t[k] == children[k - i - 1]);
        }
        lemma_flat_walk(t, 1, i + 1, n);
        assert(t.subrange(i + 1, i + 1 + n) =~= children);
        assert forall|k: int| i + 1 + n <= k < t.len() implies shows_alone(#[trigger] t[k]) by {
            assert(t[k] == nodes[k - n]);
        }
        lemma_flat_walk(t, 0, i + 1 + n, 0);
        assert(t.subrange(i + 1 + n, t.len() as int) =~= nodes.skip(i + 1));
        assert(flatten(t, 0, i, 0) == seq![line_e] + flatten(t, 1, i + 1, n) + flatten(t, 0, i + 1 + n, 0));
        assert(node_lines(nodes.take(i + 1), 0) + node_lines(children, 1) + node_lines(nodes.skip(i + 1), 0)
            =~= node_lines(nodes.take(i), 0) + (seq![line_e] + node_lines(children, 1) + node_lines(nodes.skip(i + 1), 0)));
    }
}

} // verus!
