use vstd::prelude::*;

verus! {

/// Whether entries whose name begins with a dot are left out of archives.
/// They are not: an archive holds every entry of the tree.
pub const SKIP_HIDDEN: bool = false;

/// What an entry of a directory tree is, with what belongs to its kind: the
/// bytes of a file, the target of a symbolic link.
#[derive(Debug)]
pub enum EntryBody {
    File(Vec<u8>),
    Directory,
    Symlink(String),
}

/// The attributes of an entry that an archive records beside its content.
#[derive(Clone, Copy, Debug)]
pub struct Attributes {
    /// Permission bits.
    pub mode: u32,
    /// Owner.
    pub uid: u64,
    /// Group.
    pub gid: u64,
    /// Last modification, in seconds since the epoch.
    pub mtime: u64,
}

impl Attributes {
    /// The attributes as the file system gives them. A modification time
    /// before the epoch is recorded as the epoch.
    pub fn new(mode: u32, uid: u32, gid: u32, mtime: i64) -> (attributes: Attributes)
        ensures
            attributes.mode == mode,
            attributes.uid == uid,
            attributes.gid == gid,
            attributes.mtime == if mtime < 0 {
                0
            } else {
                mtime
            },
    {
        Attributes {
            mode,
            uid: uid as u64,
            gid: gid as u64,
            mtime: if mtime < 0 {
                0
            } else {
                mtime as u64
            },
        }
    }
}

/// One entry of a directory tree. Its path is relative to the root of the
/// tree, with `/` between components.
#[derive(Debug)]
pub struct TreeEntry {
    pub path: String,
    pub attributes: Attributes,
    pub body: EntryBody,
}

/// An [`EntryBody`] as plain values.
pub enum BodyView {
    File(Seq<u8>),
    Directory,
    Symlink(Seq<char>),
}

/// A [`TreeEntry`] as plain values.
pub struct EntryView {
    pub path: Seq<char>,
    pub attributes: Attributes,
    pub body: BodyView,
}

impl View for EntryBody {
    type V = BodyView;

    open spec fn view(&self) -> BodyView {
        match self {
            EntryBody::File(content) => BodyView::File(content@),
            EntryBody::Directory => BodyView::Directory,
            EntryBody::Symlink(target) => BodyView::Symlink(target@),
        }
    }
}

impl View for TreeEntry {
    type V = EntryView;

    open spec fn view(&self) -> EntryView {
        EntryView { path: self.path@, attributes: self.attributes, body: self.body@ }
    }
}

/// The entries of a list as plain values, in the order of the list.
pub open spec fn entry_views(entries: Seq<TreeEntry>) -> Seq<EntryView> {
    entries.map_values(|entry: TreeEntry| entry@)
}

/// Whether the component `..` stands at index `i` of `path`.
pub open spec fn parent_component_at(path: Seq<char>, i: int) -> bool {
    &&& 0 <= i
    &&& i + 2 <= path.len()
    &&& path[i] == '.'
    &&& path[i + 1] == '.'
    &&& (i == 0 || path[i - 1] == '/')
    &&& (i + 2 == path.len() || path[i + 2] == '/')
}

/// A path that stays below the root of the tree: it is not empty, does not
/// begin at the root of the file system, and has no component `..`.
pub open spec fn relative_path(path: Seq<char>) -> bool {
    &&& path.len() > 0
    &&& path[0] != '/'
    &&& forall|i: int| !parent_component_at(path, i)
}

/// Whether `path` stays below the root of the tree.
pub fn is_relative_path(path: &str) -> (relative: bool)
    ensures
        relative == relative_path(path@),
{
    let length = path.unicode_len();
    if length == 0 || path.get_char(0) == '/' {
        return false;
    }
    // How the component at hand begins: 0 for nothing yet, 1 for one dot,
    // 2 for two dots and nothing else, 3 for anything else.
    let mut seen: u8 = 0;
    let mut found = false;
    let mut i: usize = 0;
    for c in it: path.chars()
        invariant
            it.seq() == path@,
            i == it.index(),
            length == path@.len(),
            seen <= 3,
            seen == 0 <==> (i == 0 || path@[i - 1] == '/'),
            seen == 1 <==> (i >= 1 && path@[i - 1] == '.' && (i == 1 || path@[i - 2] == '/')),
            seen == 2 <==> (i >= 2 && path@[i - 1] == '.' && path@[i - 2] == '.' && (i == 2
                || path@[i - 3] == '/')),
            found <==> exists|k: int| k + 3 <= i && parent_component_at(path@, k),
    {
        let ghost before = seen;
        let ghost known = found;
        if c == '/' {
            if seen == 2 {
                found = true;
            }
            seen = 0;
        } else if c == '.' && seen < 3 {
            seen = seen + 1;
        } else {
            seen = 3;
        }
        proof {
            assert(parent_component_at(path@, i - 2) <==> (before == 2 && c == '/'));
            assert forall|k: int| k + 3 <= i + 1 && parent_component_at(path@, k) implies found by {
                if k + 3 <= i {
                    assert(known);
                }
            }
        }
        i = i + 1;
    }
    proof {
        if seen == 2 {
            assert(parent_component_at(path@, length - 2));
        }
        if !found && seen != 2 {
            assert forall|k: int| !parent_component_at(path@, k) by {
                if parent_component_at(path@, k) {
                    assert(k + 3 <= length || k == length - 2);
                }
            }
        }
    }
    !found && seen != 2
}

/// A path is hidden when one of its components begins with a dot.
pub open spec fn is_hidden(path: Seq<char>) -> bool {
    exists|i: int| 0 <= i < path.len() && starts_hidden_component(path, i)
}

/// Whether a component that begins with a dot starts at index `i`.
pub open spec fn starts_hidden_component(path: Seq<char>, i: int) -> bool {
    path[i] == '.' && (i == 0 || path[i - 1] == '/')
}

/// Whether one of the components of `path` begins with a dot.
pub fn is_hidden_path(path: &str) -> (hidden: bool)
    ensures
        hidden == is_hidden(path@),
{
    let mut hidden = false;
    let mut at_start = true;
    for c in it: path.chars()
        invariant
            it.seq() == path@,
            at_start == (it.index() == 0 || path@[it.index() - 1] == '/'),
            hidden == exists|i: int| 0 <= i < it.index() && starts_hidden_component(path@, i),
    {
        if at_start && c == '.' {
            hidden = true;
            assert(starts_hidden_component(path@, it.index() as int));
        }
        at_start = c == '/';
    }
    hidden
}

/// Whether the policy keeps an entry with this path.
pub open spec fn keeps(path: Seq<char>, skip_hidden: bool) -> bool {
    !(skip_hidden && is_hidden(path))
}

/// The entries that the policy keeps, in their order.
pub open spec fn retained(entries: Seq<EntryView>, skip_hidden: bool) -> Seq<EntryView>
    decreases entries.len(),
{
    if entries.len() == 0 {
        entries
    } else if keeps(entries.last().path, skip_hidden) {
        retained(entries.drop_last(), skip_hidden).push(entries.last())
    } else {
        retained(entries.drop_last(), skip_hidden)
    }
}

/// The policy is applied to every entry alike: an entry whose path the
/// policy keeps stays as often as it occurs in the tree, and an entry whose
/// path it does not keep is dropped wherever it occurs. Without skipping,
/// the tree stays as it is.
pub proof fn lemma_policy_is_uniform(entries: Seq<EntryView>, skip_hidden: bool)
    ensures
        forall|entry: EntryView| #[trigger]
            retained(entries, skip_hidden).to_multiset().count(entry) == if keeps(
                entry.path,
                skip_hidden,
            ) {
                entries.to_multiset().count(entry)
            } else {
                0
            },
        forall|entry: EntryView| #[trigger]
            retained(entries, skip_hidden).contains(entry) <==> entries.contains(entry) && keeps(
                entry.path,
                skip_hidden,
            ),
        !skip_hidden ==> retained(entries, skip_hidden) == entries,
    decreases entries.len(),
{
    broadcast use vstd::seq_lib::group_to_multiset_ensures;
    broadcast use vstd::multiset::group_multiset_axioms;

    let kept = retained(entries, skip_hidden);
    if entries.len() == 0 {
        assert forall|entry: EntryView| #[trigger] kept.to_multiset().count(entry) == 0 by {
            assert(!kept.contains(entry));
        }
    } else {
        let rest = entries.drop_last();
        let last = entries.last();
        let kept_rest = retained(rest, skip_hidden);
        lemma_policy_is_uniform(rest, skip_hidden);
        assert(rest.push(last) =~= entries);
        assert(entries.to_multiset() =~= rest.to_multiset().insert(last));
        if keeps(last.path, skip_hidden) {
            assert(kept.to_multiset() =~= kept_rest.to_multiset().insert(last));
        }
        assert forall|entry: EntryView| #[trigger]
            kept.to_multiset().count(entry) == if keeps(entry.path, skip_hidden) {
                entries.to_multiset().count(entry)
            } else {
                0
            } by {
            assert(kept_rest.to_multiset().count(entry) == if keeps(entry.path, skip_hidden) {
                rest.to_multiset().count(entry)
            } else {
                0
            });
        }
        assert forall|entry: EntryView| #[trigger]
            kept.contains(entry) <==> entries.contains(entry) && keeps(
                entry.path,
                skip_hidden,
            ) by {
            assert(kept.contains(entry) <==> kept.to_multiset().count(entry) > 0);
            assert(entries.contains(entry) <==> entries.to_multiset().count(entry) > 0);
        }
        if !skip_hidden {
            assert(kept =~= entries);
        }
    }
}

/// Applies the policy on hidden entries: with `skip_hidden`, every entry
/// with a hidden path is dropped; without it, every entry is kept.
pub fn retain_entries(entries: Vec<TreeEntry>, skip_hidden: bool) -> (kept: Vec<TreeEntry>)
    ensures
        entry_views(kept@) == retained(entry_views(entries@), skip_hidden),
{
    let ghost all = entries@;
    let mut kept: Vec<TreeEntry> = Vec::new();
    for entry in it: entries
        invariant
            it.seq() == all,
            entry_views(kept@) == retained(entry_views(all.take(it.index() as int)), skip_hidden),
    {
        proof {
            let seen = all.take(it.index() + 1);
            assert(seen.drop_last() =~= all.take(it.index() as int));
            assert(entry_views(seen).drop_last() =~= entry_views(seen.drop_last()));
            assert(entry_views(seen).last() == entry@);
        }
        if !(skip_hidden && is_hidden_path(entry.path.as_str())) {
            let ghost before = kept@;
            kept.push(entry);
            assert(entry_views(kept@) =~= entry_views(before).push(entry@));
        }
    }
    assert(all.take(all.len() as int) =~= all);
    kept
}

} // verus!
