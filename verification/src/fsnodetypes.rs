use vstd::prelude::*;
use crate::order::{sort_nodes, stable_sorted};

verus! {

/// A directory (or anything that can be opened like one) shown in the list.
pub struct DirLike {
    pub name: String,
    pub path: String,
    pub icon: usize,
    pub opened: bool,
    pub indent: i32,
}

/// A plain file shown in the list.
pub struct Leaf {
    pub name: String,
    pub path: String,
    pub indent: i32,
    pub icon: usize,
}

/// An entry that will carry a thumbnail.
pub struct Thumbnailable {
    pub name: String,
    pub indent: i32,
}

/// One line of the file list.
pub enum FSnode {
    DirLike(DirLike),
    Leaf(Leaf),
}

/// The flattened tree that the user sees, one node per line.
pub type ListView = Vec<FSnode>;

impl FSnode {
    pub open spec fn indent_of(self) -> i32 {
        match self {
            FSnode::DirLike(d) => d.indent,
            FSnode::Leaf(f) => f.indent,
        }
    }

    pub open spec fn name_of(self) -> Seq<char> {
        match self {
            FSnode::DirLike(d) => d.name@,
            FSnode::Leaf(f) => f.name@,
        }
    }

    pub fn get_indent(&self) -> (r: i32)
        ensures
            r == self.indent_of(),
    {
        match self {
            FSnode::DirLike(d) => d.indent,
            FSnode::Leaf(f) => f.indent,
        }
    }

    pub fn get_name(&self) -> (r: &str)
        ensures
            r@ == self.name_of(),
    {
        match self {
            FSnode::DirLike(d) => d.name.as_str(),
            FSnode::Leaf(f) => f.name.as_str(),
        }
    }

    /// The path of the node shown at `pos`; every node answers an empty path.
    pub fn get_path(&self, list_view: &ListView, pos: usize) -> (r: Option<String>)
        ensures
            r matches Some(p) && p@.len() == 0,
    {
        Some(String::new())
    }
}

impl DirLike {
    pub fn get_name(&self) -> (r: &str)
        ensures
            r@ == self.name@,
    {
        self.name.as_str()
    }

    pub fn get_indent(&self) -> (r: i32)
        ensures
            r == self.indent,
    {
        self.indent
    }
}

impl Leaf {
    pub fn get_name(&self) -> (r: &str)
        ensures
            r@ == self.name@,
    {
        self.name.as_str()
    }

    pub fn get_indent(&self) -> (r: i32)
        ensures
            r == self.indent,
    {
        self.indent
    }
}


/// The end of the block of lines, starting at `from`, that are nested deeper
/// than `indent`: the first index at or after `from` whose indent is at most
/// `indent`, or the length of the list when there is none.
pub open spec fn subtree_end(s: Seq<FSnode>, from: int, indent: int) -> int
    decreases s.len() - from,
{
    if from >= s.len() {
        s.len() as int
    } else if s[from].indent_of() <= indent {
        from
    } else {
        subtree_end(s, from + 1, indent)
    }
}

/// What `subtree_end` is: every line in `[from, end)` is nested deeper than
/// `indent`, and the line at `end`, if any, is not.
pub proof fn lemma_subtree_end(s: Seq<FSnode>, from: int, indent: int)
    requires
        0 <= from <= s.len(),
    ensures
        from <= subtree_end(s, from, indent) <= s.len(),
        forall|k: int| from <= k < subtree_end(s, from, indent) ==> s[k].indent_of() > indent,
        subtree_end(s, from, indent) < s.len() ==> s[subtree_end(s, from, indent)].indent_of()
            <= indent,
    decreases s.len() - from,
{
    if from < s.len() && s[from].indent_of() > indent {
        lemma_subtree_end(s, from + 1, indent);
    }
}

/// The list after removing the lines nested under the line at `pos`, whose
/// indent is `indent`.
pub open spec fn collapsed(s: Seq<FSnode>, pos: int, indent: int) -> Seq<FSnode> {
    if pos + 1 < s.len() {
        s.take(pos + 1) + s.skip(subtree_end(s, pos + 1, indent))
    } else {
        s
    }
}

/// Removes, after `pos`, the lines nested deeper than `indent`.
fn collapse_after(list_view: &mut ListView, pos: usize, indent: i32)
    requires
        pos < usize::MAX,
    ensures
        final(list_view)@ == collapsed(old(list_view)@, pos as int, indent as int),
{
    if pos + 1 < list_view.len() {
        let mut end = pos + 1;
        while end < list_view.len() && list_view[end].get_indent() > indent
            invariant
                pos + 1 <= end <= list_view.len(),
                subtree_end(list_view@, pos + 1, indent as int) == subtree_end(
                    list_view@,
                    end as int,
                    indent as int,
                ),
            decreases list_view.len() - end,
        {
            end += 1;
        }
        let ghost old_view = list_view@;
        let mut tail = list_view.split_off(end);
        list_view.truncate(pos + 1);
        list_view.append(&mut tail);
        assert(list_view@ =~= old_view.take(pos + 1) + old_view.skip(end as int));
    }
}

impl DirLike {
    /// Closes this directory, shown at `pos`: the lines nested under it leave
    /// the list.
    pub fn close(&mut self, list_view: &mut ListView, pos: usize)
        requires
            pos < usize::MAX,
        ensures
            final(list_view)@ == collapsed(old(list_view)@, pos as int, old(self).indent as int),
            *final(self) == old(self).opened_as(false),
    {
        collapse_after(list_view, pos, self.indent);
        self.opened = false;
    }
}

impl FSnode {
    /// This node with its `opened` flag set to `b` (a leaf is unchanged).
    pub open spec fn with_opened(self, b: bool) -> FSnode {
        match self {
            FSnode::DirLike(d) => FSnode::DirLike(
                DirLike { name: d.name, path: d.path, icon: d.icon, opened: b, indent: d.indent },
            ),
            FSnode::Leaf(f) => self,
        }
    }

    pub open spec fn is_open_dir(self) -> bool {
        match self {
            FSnode::DirLike(d) => d.opened,
            FSnode::Leaf(_) => false,
        }
    }

    /// Closes the node shown at `pos` if it is an opened directory.
    pub fn close(&mut self, list_view: &mut ListView, pos: usize)
        requires
            old(self).is_open_dir() ==> pos < usize::MAX,
        ensures
            old(self).is_open_dir() ==> final(list_view)@ == collapsed(
                old(list_view)@,
                pos as int,
                old(self).indent_of() as int,
            ) && *final(self) == old(self).with_opened(false),
            !old(self).is_open_dir() ==> final(list_view)@ == old(list_view)@ && *final(self)
                == *old(self),
    {
        match self {
            FSnode::DirLike(d) => {
                if d.opened {
                    d.close(list_view, pos);
                }
            },
            FSnode::Leaf(_) => {},
        }
    }
}

/// The list after the node at `pos` is closed.
pub open spec fn closed_at(s: Seq<FSnode>, pos: int) -> Seq<FSnode> {
    if s[pos].is_open_dir() {
        collapsed(s, pos, s[pos].indent_of() as int).update(pos, s[pos].with_opened(false))
    } else {
        s
    }
}

/// Closes the node shown at `pos`, when it is an opened directory.
pub fn close_at(list_view: &mut ListView, pos: usize)
    requires
        pos < old(list_view).len(),
    ensures
        final(list_view)@ == closed_at(old(list_view)@, pos as int),
{
    let (open_dir, indent) = match &list_view[pos] {
        FSnode::DirLike(d) => (d.opened, d.indent),
        FSnode::Leaf(f) => (false, f.indent),
    };
    if open_dir {
        collapse_after(list_view, pos, indent);
        match &mut list_view[pos] {
            FSnode::DirLike(d) => {
                d.opened = false;
            },
            FSnode::Leaf(_) => {},
        }
    }
}


/// One entry of a directory as read from the file system: what the list
/// needs to show it.
pub struct DirEntry {
    pub name: String,
    pub path: String,
    pub is_dir: bool,
    pub icon: usize,
}

/// The line that shows `e` at depth `indent`.
pub open spec fn entry_node(e: DirEntry, indent: i32) -> FSnode {
    if e.is_dir {
        FSnode::DirLike(
            DirLike { name: e.name, path: e.path, icon: e.icon, opened: false, indent: indent },
        )
    } else {
        FSnode::Leaf(Leaf { name: e.name, path: e.path, indent: indent, icon: e.icon })
    }
}

/// The lines that show `entries`, in the order they were read, at depth `indent`.
pub open spec fn entry_nodes(entries: Seq<DirEntry>, indent: i32) -> Seq<FSnode> {
    entries.map_values(|e: DirEntry| entry_node(e, indent))
}

/// The line `n` shows the directory entry `e` at depth `indent`: as a
/// closed directory when `e` is one, as a file otherwise, with `e`'s name,
/// path and icon.
pub open spec fn shows_entry(n: FSnode, e: DirEntry, indent: i32) -> bool {
    match n {
        FSnode::DirLike(d) => {
            &&& e.is_dir
            &&& d.name@ == e.name@
            &&& d.path@ == e.path@
            &&& d.icon == e.icon
            &&& !d.opened
            &&& d.indent == indent
        },
        FSnode::Leaf(f) => {
            &&& !e.is_dir
            &&& f.name@ == e.name@
            &&& f.path@ == e.path@
            &&& f.icon == e.icon
            &&& f.indent == indent
        },
    }
}

/// The line `n` shows one of `entries` at depth `indent`.
pub open spec fn shows_some_entry(n: FSnode, entries: Seq<DirEntry>, indent: i32) -> bool {
    exists|i: int| 0 <= i < entries.len() && shows_entry(n, #[trigger] entries[i], indent)
}

/// One of `lines` shows the entry `e` at depth `indent`.
pub open spec fn entry_shown(e: DirEntry, lines: Seq<FSnode>, indent: i32) -> bool {
    exists|k: int| 0 <= k < lines.len() && shows_entry(#[trigger] lines[k], e, indent)
}

/// The lines `c` that a stable sort makes of the entries `entries` shown at
/// depth `indent` are as many as the entries; each line shows one of the
/// entries (with its name, path, icon and kind), and each entry is shown by
/// one of the lines.
pub proof fn lemma_sorted_lines_show_entries(c: Seq<FSnode>, entries: Seq<DirEntry>, indent: i32)
    requires
        crate::order::stable_sorted(c, entry_nodes(entries, indent)),
    ensures
        c.len() == entries.len(),
        forall|k: int| 0 <= k < c.len() ==> shows_some_entry(#[trigger] c[k], entries, indent),
        forall|i: int| 0 <= i < entries.len() ==> entry_shown(#[trigger] entries[i], c, indent),
{
    let nodes = entry_nodes(entries, indent);
    let n = entries.len() as int;
    let p = choose|p: Seq<int>| crate::order::sorts_prefix(c, nodes, p, n);
    assert(crate::order::sorts_prefix(c, nodes, p, n));
    assert forall|k: int| 0 <= k < c.len() implies shows_some_entry(#[trigger] c[k], entries, indent) by {
        let i = p[k];
        assert(c[k] == nodes[i]);
        assert(shows_entry(c[k], entries[i], indent));
    }
    assert(p.no_duplicates()) by {
        assert forall|a: int, b: int| 0 <= a < p.len() && 0 <= b < p.len() && a != b implies p[a]
            != p[b] by {
            if a < b {
                assert(p[a] != p[b]);
            } else {
                assert(p[b] != p[a]);
            }
        }
    }
    p.unique_seq_to_set();
    vstd::set_lib::lemma_int_range(0, n);
    vstd::seq_lib::seq_to_set_is_finite(p);
    let range = vstd::set_lib::set_int_range(0, n);
    assert(p.to_set().subset_of(range)) by {
        assert forall|x: int| p.to_set().contains(x) implies range.contains(x) by {
            let k = choose|k: int| 0 <= k < p.len() && p[k] == x;
            assert(0 <= p[k] < n);
        }
    }
    vstd::set_lib::lemma_subset_equality(p.to_set(), range);
    assert forall|i: int| 0 <= i < entries.len() implies entry_shown(#[trigger] entries[i], c, indent) by {
        assert(range.contains(i));
        assert(p.to_set().contains(i));
        let k = choose|k: int| 0 <= k < p.len() && p[k] == i;
        assert(c[k] == nodes[p[k]]);
        assert(shows_entry(c[k], entries[i], indent));
    }
}

/// The list with `children` shown right after the line at `pos`; an empty
/// list becomes `children`.
pub open spec fn expanded(s: Seq<FSnode>, pos: int, children: Seq<FSnode>) -> Seq<FSnode> {
    if s.len() == 0 {
        children
    } else {
        s.take(pos + 1) + children + s.skip(pos + 1)
    }
}

fn entries_to_nodes(entries: Vec<DirEntry>, indent: i32) -> (r: Vec<FSnode>)
    ensures
        r@ == entry_nodes(entries@, indent),
{
    let ghost s = entries@;
    let mut rest = entries;
    let mut r: Vec<FSnode> = Vec::new();
    while rest.len() > 0
        invariant
            r@.len() + rest@.len() == s.len(),
            rest@ == s.skip(r@.len() as int),
            r@ =~= entry_nodes(s.take(r@.len() as int), indent),
        decreases rest@.len(),
    {
        let ghost i = r@.len() as int;
        let e = rest.remove(0);
        assert(e == s[i]);
        assert(rest@ =~= s.skip(i + 1));
        let node = if e.is_dir {
            FSnode::DirLike(
                DirLike { name: e.name, path: e.path, icon: e.icon, opened: false, indent: indent },
            )
        } else {
            FSnode::Leaf(Leaf { name: e.name, path: e.path, indent: indent, icon: e.icon })
        };
        r.push(node);
        assert(s.take(i + 1) =~= s.take(i).push(s[i]));
    }
    assert(s.take(s.len() as int) =~= s);
    r
}

/// Shows `entries`, sorted, under the line at `pos` at depth `indent`.
fn expand_after(list_view: &mut ListView, pos: usize, indent: i32, entries: Vec<DirEntry>)
    requires
        old(list_view).len() == 0 || pos < old(list_view).len(),
    ensures
        entries@.len() == 0 ==> final(list_view)@ == old(list_view)@,
        entries@.len() > 0 ==> exists|c: Seq<FSnode>|
            stable_sorted(c, entry_nodes(entries@, indent)) && final(list_view)@ == expanded(
                old(list_view)@,
                pos as int,
                c,
            ),
{
    let ghost nodes = entry_nodes(entries@, indent);
    let children = entries_to_nodes(entries, indent);
    let mut children = sort_nodes(children);
    if children.len() > 0 {
        if list_view.len() == 0 {
            std::mem::swap(list_view, &mut children);
        } else {
            let ghost old_view = list_view@;
            let ghost c = children@;
            let mut tail = list_view.split_off(pos + 1);
            list_view.append(&mut children);
            list_view.append(&mut tail);
            assert(list_view@ =~= expanded(old_view, pos as int, c));
        }
    }
}

impl DirLike {
    /// This directory's fields with `opened` set to `b`.
    pub open spec fn opened_as(self, b: bool) -> DirLike {
        DirLike { name: self.name, path: self.path, icon: self.icon, opened: b, indent: self.indent }
    }

    /// Opens this directory, shown at `pos`, whose entries were read as
    /// `entries`: they are shown after it, one level deeper, directories
    /// first and then by name.
    pub fn open(&mut self, list_view: &mut ListView, pos: usize, entries: Vec<DirEntry>)
        requires
            entries@.len() > 0 ==> old(self).indent < i32::MAX && (old(list_view).len() == 0
                || pos < old(list_view).len()),
        ensures
            *final(self) == old(self).opened_as(true),
            entries@.len() == 0 ==> final(list_view)@ == old(list_view)@,
            entries@.len() > 0 ==> exists|c: Seq<FSnode>|
                stable_sorted(c, entry_nodes(entries@, (old(self).indent + 1) as i32))
                    && final(list_view)@ == expanded(old(list_view)@, pos as int, c),
    {
        if entries.len() > 0 {
            expand_after(list_view, pos, self.indent + 1, entries);
        }
        self.opened = true;
    }

    /// Reads the directory anew: closes it, then opens it with `entries`.
    pub fn update(&mut self, list_view: &mut ListView, pos: usize, entries: Vec<DirEntry>)
        requires
            pos < usize::MAX,
            entries@.len() > 0 ==> old(self).indent < i32::MAX && (old(list_view).len() == 0
                || pos < old(list_view).len()),
        ensures
            *final(self) == old(self).opened_as(true),
            entries@.len() == 0 ==> final(list_view)@ == collapsed(
                old(list_view)@,
                pos as int,
                old(self).indent as int,
            ),
            entries@.len() > 0 ==> exists|c: Seq<FSnode>|
                stable_sorted(c, entry_nodes(entries@, (old(self).indent + 1) as i32))
                    && final(list_view)@ == expanded(
                    collapsed(old(list_view)@, pos as int, old(self).indent as int),
                    pos as int,
                    c,
                ),
    {
        proof {
            if pos + 1 < list_view@.len() {
                lemma_subtree_end(list_view@, pos + 1, self.indent as int);
            }
        }
        self.close(list_view, pos);
        self.open(list_view, pos, entries);
    }
}

impl FSnode {
    pub open spec fn is_closed_dir(self) -> bool {
        match self {
            FSnode::DirLike(d) => !d.opened,
            FSnode::Leaf(_) => false,
        }
    }
}

proof fn lemma_open_shows_entries(
    s: Seq<FSnode>,
    pos: int,
    entries: Seq<DirEntry>,
    c: Seq<FSnode>,
    t: Seq<FSnode>,
)
    requires
        0 <= pos < s.len(),
        stable_sorted(c, entry_nodes(entries, (s[pos].indent_of() + 1) as i32)),
        t == expanded(s, pos, c).update(pos, s[pos].with_opened(true)),
    ensures
        ({
            let indent = (s[pos].indent_of() + 1) as i32;
            let shown = t.subrange(pos + 1, pos + 1 + entries.len());
            &&& t.len() == s.len() + entries.len()
            &&& forall|k: int|
                0 <= k < shown.len() ==> shows_some_entry(#[trigger] shown[k], entries, indent)
            &&& forall|i: int|
                0 <= i < entries.len() ==> entry_shown(#[trigger] entries[i], shown, indent)
        }),
{
    lemma_sorted_lines_show_entries(c, entries, (s[pos].indent_of() + 1) as i32);
    assert(t.subrange(pos + 1, pos + 1 + entries.len()) =~= c);
}

/// Opens the node shown at `pos`, when it is a directory not yet opened,
/// with `entries`, the entries read from it; otherwise nothing changes.
#[verifier::spinoff_prover]
#[verifier::rlimit(30)]
pub fn open_at(list_view: &mut ListView, pos: usize, entries: Vec<DirEntry>)
    requires
        pos < old(list_view).len(),
        old(list_view)@[pos as int].is_closed_dir() && entries@.len() > 0 ==> old(
            list_view,
        )@[pos as int].indent_of() < i32::MAX,
    ensures
        old(list_view)@[pos as int].is_closed_dir() ==> exists|c: Seq<FSnode>|
            stable_sorted(
                c,
                entry_nodes(entries@, (old(list_view)@[pos as int].indent_of() + 1) as i32),
            ) && final(list_view)@ == expanded(old(list_view)@, pos as int, c).update(
                pos as int,
                old(list_view)@[pos as int].with_opened(true),
            ),
        !old(list_view)@[pos as int].is_closed_dir() ==> final(list_view)@ == old(list_view)@,
        old(list_view)@[pos as int].is_closed_dir() ==> ({
            let indent = (old(list_view)@[pos as int].indent_of() + 1) as i32;
            let shown = final(list_view)@.subrange(pos + 1, pos + 1 + entries@.len());
            &&& final(list_view)@.len() == old(list_view)@.len() + entries@.len()
            &&& forall|k: int|
                0 <= k < shown.len() ==> shows_some_entry(#[trigger] shown[k], entries@, indent)
            &&& forall|i: int|
                0 <= i < entries@.len() ==> entry_shown(#[trigger] entries@[i], shown, indent)
        }),
{
    let ghost old_view = list_view@;
    let ghost entries_seq = entries@;
    let ghost nodes = entry_nodes(entries@, (old_view[pos as int].indent_of() + 1) as i32);
    let (closed_dir, indent) = match &list_view[pos] {
        FSnode::DirLike(d) => (!d.opened, d.indent),
        FSnode::Leaf(f) => (false, f.indent),
    };
    if closed_dir {
        let ghost mut c: Seq<FSnode> = nodes;
        if entries.len() > 0 {
            assert(nodes == entry_nodes(entries_seq, (indent + 1) as i32));
            expand_after(list_view, pos, indent + 1, entries);
            proof {
                c = choose|c: Seq<FSnode>|
                    stable_sorted(c, nodes) && list_view@ == expanded(old_view, pos as int, c);
            }
        } else {
            assert(nodes =~= Seq::<FSnode>::empty());
            assert(expanded(old_view, pos as int, nodes) =~= old_view);
            assert(crate::order::sorts_prefix(nodes, nodes, Seq::<int>::empty(), 0));
        }
        let ghost mid = list_view@;
        assert(stable_sorted(c, nodes) && mid == expanded(old_view, pos as int, c));
        assert(mid[pos as int] == old_view[pos as int]);
        match &mut list_view[pos] {
            FSnode::DirLike(d) => {
                d.opened = true;
            },
            FSnode::Leaf(_) => {},
        }
        proof {
            lemma_open_shows_entries(old_view, pos as int, entries_seq, c, list_view@);
        }
    }
}

impl FSnode {
    /// Opens the node, shown at `pos`, when it is a directory not yet
    /// opened (see `DirLike::open`); anything else is left as it is.
    pub fn open(&mut self, list_view: &mut ListView, pos: usize, entries: Vec<DirEntry>)
        requires
            old(self).is_closed_dir() && entries@.len() > 0 ==> old(self).indent_of() < i32::MAX
                && (old(list_view).len() == 0 || pos < old(list_view).len()),
        ensures
            old(self).is_closed_dir() ==> *final(self) == old(self).with_opened(true) && (
            entries@.len() == 0 ==> final(list_view)@ == old(list_view)@) && (entries@.len() > 0
                ==> exists|c: Seq<FSnode>|
                stable_sorted(c, entry_nodes(entries@, (old(self).indent_of() + 1) as i32))
                    && final(list_view)@ == expanded(old(list_view)@, pos as int, c)),
            !old(self).is_closed_dir() ==> *final(self) == *old(self) && final(list_view)@ == old(
                list_view,
            )@,
    {
        match self {
            FSnode::DirLike(d) => {
                if !d.opened {
                    d.open(list_view, pos, entries);
                }
            },
            FSnode::Leaf(_) => {},
        }
    }

    /// Reads the node anew: a directory is closed and opened again with
    /// `entries`; a file is left as it is.
    pub fn update(&mut self, list_view: &mut ListView, pos: usize, entries: Vec<DirEntry>)
        requires
            old(self).is_dir() ==> pos < usize::MAX,
            old(self).is_dir() && entries@.len() > 0 ==> old(self).indent_of() < i32::MAX && (old(
                list_view,
            ).len() == 0 || pos < old(list_view).len()),
        ensures
            old(self).is_dir() ==> *final(self) == old(self).with_opened(true) && (entries@.len()
                == 0 ==> final(list_view)@ == collapsed(
                old(list_view)@,
                pos as int,
                old(self).indent_of() as int,
            )) && (entries@.len() > 0 ==> exists|c: Seq<FSnode>|
                stable_sorted(c, entry_nodes(entries@, (old(self).indent_of() + 1) as i32))
                    && final(list_view)@ == expanded(
                    collapsed(old(list_view)@, pos as int, old(self).indent_of() as int),
                    pos as int,
                    c,
                )),
            !old(self).is_dir() ==> *final(self) == *old(self) && final(list_view)@ == old(
                list_view,
            )@,
    {
        match self {
            FSnode::DirLike(d) => {
                d.update(list_view, pos, entries);
            },
            FSnode::Leaf(_) => {},
        }
    }

    /// The line of the directory that holds this node, shown at `pos`: the
    /// nearest line above it that is less indented. A node at indent 0 has
    /// no parent line.
    pub fn get_parrent(&self, list_view: &ListView, pos: usize) -> (r: Option<usize>)
        requires
            parent_exists(list_view@, pos as int, self.indent_of() as int),
        ensures
            r == parent_spec(list_view@, pos as int, self.indent_of() as int),
    {
        parent_line(list_view, pos, self.get_indent())
    }
}

impl DirLike {
    /// The line of the directory that holds this directory, shown at `pos`
    /// (see `FSnode::get_parrent`).
    pub fn get_parrent(&self, list_view: &ListView, pos: usize) -> (r: Option<usize>)
        requires
            parent_exists(list_view@, pos as int, self.indent as int),
        ensures
            r == parent_spec(list_view@, pos as int, self.indent as int),
    {
        parent_line(list_view, pos, self.indent)
    }

    /// The path of the directory shown at `pos`; every node answers an
    /// empty path.
    pub fn get_path(&self, list_view: &ListView, pos: usize) -> (r: Option<String>)
        ensures
            r matches Some(p) && p@.len() == 0,
    {
        Some(String::new())
    }
}

impl Leaf {
    /// The line of the directory that holds this file, shown at `pos` (see
    /// `FSnode::get_parrent`).
    pub fn get_parrent(&self, list_view: &ListView, pos: usize) -> (r: Option<usize>)
        requires
            parent_exists(list_view@, pos as int, self.indent as int),
        ensures
            r == parent_spec(list_view@, pos as int, self.indent as int),
    {
        parent_line(list_view, pos, self.indent)
    }

    /// The path of the file shown at `pos`; every node answers an empty path.
    pub fn get_path(&self, list_view: &ListView, pos: usize) -> (r: Option<String>)
        ensures
            r matches Some(p) && p@.len() == 0,
    {
        Some(String::new())
    }
}

/// Looking for the parent of a line at `pos` with indent `indent` finds one:
/// at indent 0 nothing is looked for; otherwise some line above is less
/// indented.
pub open spec fn parent_exists(s: Seq<FSnode>, pos: int, indent: int) -> bool {
    indent != 0 ==> pos <= s.len() && exists|j: int|
        0 <= j < pos && #[trigger] s[j].indent_of() < indent
}

/// The parent line of a line at `pos` with indent `indent`: none at indent
/// 0, otherwise the nearest line above that is less indented.
pub open spec fn parent_spec(s: Seq<FSnode>, pos: int, indent: int) -> Option<usize> {
    if indent == 0 {
        None
    } else {
        Some(
            (choose|j: int|
                0 <= j < pos && s[j].indent_of() < indent && forall|k: int|
                    j < k < pos ==> #[trigger] s[k].indent_of() >= indent) as usize,
        )
    }
}

proof fn lemma_parent_unique(s: Seq<FSnode>, pos: int, indent: int, j: int)
    requires
        0 <= j < pos,
        s[j].indent_of() < indent,
        forall|k: int| j < k < pos ==> #[trigger] s[k].indent_of() >= indent,
    ensures
        indent != 0 ==> parent_spec(s, pos, indent) == Some(j as usize),
{
    if indent != 0 {
        let c = choose|i: int|
            0 <= i < pos && s[i].indent_of() < indent && forall|k: int|
                i < k < pos ==> #[trigger] s[k].indent_of() >= indent;
        assert(0 <= c < pos && s[c].indent_of() < indent);
        if c < j {
            assert(s[j].indent_of() >= indent);
        } else if c > j {
            assert(s[c].indent_of() >= indent);
        }
    }
}

/// The parent line of a line at `pos` with indent `indent`.
fn parent_line(list_view: &ListView, pos: usize, indent: i32) -> (r: Option<usize>)
    requires
        parent_exists(list_view@, pos as int, indent as int),
    ensures
        r == parent_spec(list_view@, pos as int, indent as int),
{
    if indent == 0 {
        return None;
    }
    let mut i = pos;
    loop
        invariant
            0 < i <= pos <= list_view@.len(),
            indent != 0,
            forall|k: int| i <= k < pos ==> #[trigger] list_view@[k].indent_of() >= indent,
            exists|j: int| 0 <= j < i && #[trigger] list_view@[j].indent_of() < indent,
        decreases i,
    {
        i -= 1;
        if list_view[i].get_indent() < indent {
            proof {
                lemma_parent_unique(list_view@, pos as int, indent as int, i as int);
            }
            return Some(i);
        }
    }
}

proof fn lemma_subtree_end_is(s: Seq<FSnode>, from: int, end: int, indent: int)
    requires
        0 <= from <= end <= s.len(),
        forall|k: int| from <= k < end ==> #[trigger] s[k].indent_of() > indent,
        end < s.len() ==> s[end].indent_of() <= indent,
    ensures
        subtree_end(s, from, indent) == end,
    decreases end - from,
{
    if from < end {
        lemma_subtree_end_is(s, from + 1, end, indent);
    }
}

/// Closing a directory right after opening it gives back the list it was
/// opened in, when nothing was shown under it before: the line after it, if
/// any, is not nested deeper.
pub proof fn lemma_close_undoes_open(
    s: Seq<FSnode>,
    pos: int,
    entries: Seq<DirEntry>,
    c: Seq<FSnode>,
)
    requires
        0 <= pos < s.len(),
        s[pos].is_closed_dir(),
        s[pos].indent_of() < i32::MAX,
        pos + 1 < s.len() ==> s[pos + 1].indent_of() <= s[pos].indent_of(),
        stable_sorted(c, entry_nodes(entries, (s[pos].indent_of() + 1) as i32)),
    ensures
        closed_at(expanded(s, pos, c).update(pos, s[pos].with_opened(true)), pos) == s,
{
    let ind = s[pos].indent_of();
    let nodes = entry_nodes(entries, (ind + 1) as i32);
    let p = choose|p: Seq<int>| crate::order::sorts_prefix(c, nodes, p, nodes.len() as int);
    let e = expanded(s, pos, c).update(pos, s[pos].with_opened(true));
    assert forall|k: int| pos + 1 <= k < pos + 1 + c.len() implies #[trigger] e[k].indent_of()
        > ind by {
        assert(e[k] == c[k - pos - 1]);
        assert(c[k - pos - 1] == nodes[p[k - pos - 1]]);
    }
    if pos + 1 + c.len() < e.len() {
        assert(e[pos + 1 + c.len()] == s[pos + 1]);
    }
    lemma_subtree_end_is(e, pos + 1, pos + 1 + c.len(), ind as int);
    assert(e[pos].indent_of() == ind);
    assert(e[pos].is_open_dir());
    if pos + 1 < e.len() {
        assert(collapsed(e, pos, ind as int) =~= s.update(pos, s[pos].with_opened(true)));
    } else {
        assert(e =~= s.update(pos, s[pos].with_opened(true)));
    }
    assert(s.update(pos, s[pos].with_opened(true)).update(pos, s[pos].with_opened(true).with_opened(false)) =~= s);
}


/// After a directory is opened, the line the list finds as the parent of
/// each of the lines shown under it (the nearest line above that is less
/// indented, as `get_parrent` returns) is the directory's line.
pub proof fn lemma_opened_children_parent(
    s: Seq<FSnode>,
    pos: int,
    entries: Seq<DirEntry>,
    c: Seq<FSnode>,
    q: int,
)
    requires
        0 <= pos < s.len(),
        s[pos].is_closed_dir(),
        s[pos].indent_of() < i32::MAX,
        stable_sorted(c, entry_nodes(entries, (s[pos].indent_of() + 1) as i32)),
        pos < q <= pos + c.len(),
    ensures
        ({
            let e = expanded(s, pos, c).update(pos, s[pos].with_opened(true));
            &&& e[pos].indent_of() < e[q].indent_of()
            &&& forall|k: int| pos < k < q ==> #[trigger] e[k].indent_of() >= e[q].indent_of()
            &&& e[q].indent_of() != 0 ==> parent_spec(e, q, e[q].indent_of() as int) == Some(
                pos as usize,
            )
        }),
{
    let ind = s[pos].indent_of();
    let nodes = entry_nodes(entries, (ind + 1) as i32);
    let p = choose|p: Seq<int>| crate::order::sorts_prefix(c, nodes, p, nodes.len() as int);
    let e = expanded(s, pos, c).update(pos, s[pos].with_opened(true));
    assert forall|k: int| pos < k <= pos + c.len() implies #[trigger] e[k].indent_of() == ind + 1 by {
        assert(e[k] == c[k - pos - 1]);
        assert(c[k - pos - 1] == nodes[p[k - pos - 1]]);
    }
    assert(e[q].indent_of() == ind + 1);
    lemma_parent_unique(e, q, ind + 1, pos);
}


/// The list is a flattened tree: no line is more than one level deeper than
/// the line above it.
pub open spec fn is_flat_tree(s: Seq<FSnode>) -> bool {
    forall|k: int| 1 <= k < s.len() ==> #[trigger] s[k].indent_of() <= s[k - 1].indent_of() + 1
}

/// Opening a closed directory keeps the list a flattened tree.
pub proof fn lemma_open_keeps_flat_tree(
    s: Seq<FSnode>,
    pos: int,
    entries: Seq<DirEntry>,
    c: Seq<FSnode>,
)
    requires
        is_flat_tree(s),
        0 <= pos < s.len(),
        s[pos].is_closed_dir(),
        s[pos].indent_of() < i32::MAX,
        stable_sorted(c, entry_nodes(entries, (s[pos].indent_of() + 1) as i32)),
    ensures
        is_flat_tree(expanded(s, pos, c).update(pos, s[pos].with_opened(true))),
{
    let ind = s[pos].indent_of();
    let nodes = entry_nodes(entries, (ind + 1) as i32);
    let p = choose|p: Seq<int>| crate::order::sorts_prefix(c, nodes, p, nodes.len() as int);
    let e = expanded(s, pos, c).update(pos, s[pos].with_opened(true));
    let m = c.len() as int;
    assert forall|k: int| pos < k <= pos + m implies #[trigger] e[k].indent_of() == ind + 1 by {
        assert(e[k] == c[k - pos - 1]);
        assert(c[k - pos - 1] == nodes[p[k - pos - 1]]);
    }
    assert forall|k: int| 1 <= k < e.len() implies #[trigger] e[k].indent_of() <= e[k
        - 1].indent_of() + 1 by {
        if k <= pos {
            assert(e[k] == s[k] || k == pos);
            assert(e[k].indent_of() == s[k].indent_of());
            assert(e[k - 1].indent_of() == s[k - 1].indent_of());
        } else if k <= pos + m {
            assert(e[k - 1].indent_of() == ind || e[k - 1].indent_of() == ind + 1);
        } else {
            assert(e[k] == s[k - m]);
            if k - 1 > pos + m {
                assert(e[k - 1] == s[k - 1 - m]);
            } else {
                assert(k - m == pos + 1);
                assert(s[pos + 1].indent_of() <= s[pos].indent_of() + 1);
            }
        }
    }
}

/// Closing an opened directory keeps the list a flattened tree.
pub proof fn lemma_close_keeps_flat_tree(s: Seq<FSnode>, pos: int)
    requires
        is_flat_tree(s),
        0 <= pos < s.len(),
    ensures
        is_flat_tree(closed_at(s, pos)),
{
    if s[pos].is_open_dir() && pos + 1 < s.len() {
        let ind = s[pos].indent_of() as int;
        lemma_subtree_end(s, pos + 1, ind);
        let end = subtree_end(s, pos + 1, ind);
        let e = closed_at(s, pos);
        let m = end - pos - 1;
        assert forall|k: int| 1 <= k < e.len() implies #[trigger] e[k].indent_of() <= e[k
            - 1].indent_of() + 1 by {
            if k <= pos {
                assert(e[k].indent_of() == s[k].indent_of());
                assert(e[k - 1].indent_of() == s[k - 1].indent_of());
            } else if k == pos + 1 {
                assert(e[k] == s[end]);
                assert(e[pos].indent_of() == ind);
            } else {
                assert(e[k] == s[k + m]);
                assert(e[k - 1] == s[k - 1 + m]);
            }
        }
    }
}

} // verus!
