use vstd::prelude::*;

verus! {

/// One filesystem object of a listing, with its path relative to the base.
#[derive(Debug)]
pub enum Entry {
    File { path: String, size: u64 },
    Directory { path: String },
    Symlink { path: String, target: Option<String> },
    Unknown { path: String },
}

/// The mathematical value of an `Entry`.
pub ghost enum EntryView {
    File { path: Seq<char>, size: u64 },
    Directory { path: Seq<char> },
    Symlink { path: Seq<char>, target: Option<Seq<char>> },
    Unknown { path: Seq<char> },
}

pub open spec fn opt_view(o: Option<String>) -> Option<Seq<char>> {
    match o {
        Some(s) => Some(s@),
        None => None,
    }
}

impl View for Entry {
    type V = EntryView;

    open spec fn view(&self) -> EntryView {
        match self {
            Entry::File { path, size } => EntryView::File { path: path@, size: *size },
            Entry::Directory { path } => EntryView::Directory { path: path@ },
            Entry::Symlink { path, target } => EntryView::Symlink {
                path: path@,
                target: opt_view(*target),
            },
            Entry::Unknown { path } => EntryView::Unknown { path: path@ },
        }
    }
}

/// The type of a directory child as its own metadata gives it, symlinks not
/// followed.
#[derive(Clone, Copy, Debug, PartialEq, Eq, Structural)]
pub enum ChildKind {
    Directory,
    File,
    Symlink,
    Other,
}

/// What was read of a child's metadata.
#[derive(Clone, Copy, Debug, PartialEq, Eq, Structural)]
pub struct ChildMeta {
    pub kind: ChildKind,
    pub len: u64,
}

/// One child of a directory as enumerated: its absolute path, its metadata
/// (`None` where reading it failed) and, for a symlink, its immediate target
/// where it could be read.
#[derive(Debug)]
pub struct Child {
    pub path: String,
    pub meta: Option<ChildMeta>,
    pub target: Option<String>,
}

/// `abs` with the leading `base` and the separator after it removed, where
/// `abs` lies under `base`.
pub open spec fn relative_to(base: Seq<char>, abs: Seq<char>) -> Option<Seq<char>> {
    if !base.is_prefix_of(abs) {
        None
    } else if abs.len() == base.len() {
        Some(Seq::empty())
    } else if base.len() > 0 && base.last() == '/' {
        Some(abs.skip(base.len() as int))
    } else if abs[base.len() as int] == '/' {
        Some(abs.skip(base.len() as int + 1))
    } else {
        None
    }
}

/// The entry that a child yields, or `None` where its path is not under
/// `base` or its metadata could not be read.
pub open spec fn entry_of(
    base: Seq<char>,
    abs: Seq<char>,
    meta: Option<ChildMeta>,
    target: Option<Seq<char>>,
) -> Option<EntryView> {
    match (relative_to(base, abs), meta) {
        (Some(path), Some(m)) => Some(
            match m.kind {
                ChildKind::Directory => EntryView::Directory { path },
                ChildKind::File => EntryView::File { path, size: m.len },
                ChildKind::Symlink => EntryView::Symlink { path, target },
                ChildKind::Other => EntryView::Unknown { path },
            },
        ),
        _ => None,
    }
}

fn copy_text(s: &String) -> (r: String)
    ensures
        r@ == s@,
{
    String::from_str(s.as_str())
}

/// Whether `base` is a prefix of `abs`.
fn has_prefix(base: &str, abs: &str) -> (r: bool)
    ensures
        r == base@.is_prefix_of(abs@),
{
    let n = base.unicode_len();
    let m = abs.unicode_len();
    if n > m {
        return false;
    }
    let mut i: usize = 0;
    while i < n
        invariant
            n == base@.len(),
            m == abs@.len(),
            n <= m,
            0 <= i <= n,
            forall|k: int| 0 <= k < i ==> base@[k] == abs@[k],
        decreases n - i,
    {
        if base.get_char(i) != abs.get_char(i) {
            return false;
        }
        i = i + 1;
    }
    proof {
        assert(base@ =~= abs@.subrange(0, n as int));
    }
    true
}

/// The path of `abs` relative to `base`.
pub fn relative_path(base: &str, abs: &str) -> (r: Option<String>)
    ensures
        (r is Some) == (relative_to(base@, abs@) is Some),
        r is Some ==> r->0@ == relative_to(base@, abs@)->0,
{
    if !has_prefix(base, abs) {
        return None;
    }
    let n = base.unicode_len();
    let m = abs.unicode_len();
    if m == n {
        proof {
            reveal_strlit("");
        }
        return Some(String::from_str(""));
    }
    if n > 0 && base.get_char(n - 1) == '/' {
        Some(String::from_str(abs.substring_char(n, m)))
    } else if abs.get_char(n) == '/' {
        Some(String::from_str(abs.substring_char(n + 1, m)))
    } else {
        None
    }
}

impl Entry {
    /// Classifies one enumerated child of a directory under `base`.
    pub fn new(base: &str, child: &Child) -> (r: Option<Entry>)
        ensures
            (r is Some) == (entry_of(base@, child.path@, child.meta, opt_view(child.target)) is Some),
            r is Some ==> r->0@ == entry_of(base@, child.path@, child.meta, opt_view(child.target))->0,
    {
        let path = match relative_path(base, child.path.as_str()) {
            Some(p) => p,
            None => return None,
        };
        let meta = match child.meta {
            Some(m) => m,
            None => return None,
        };
        match meta.kind {
            ChildKind::Directory => Some(Entry::Directory { path }),
            ChildKind::File => Some(Entry::File { path, size: meta.len }),
            ChildKind::Symlink => {
                let target = match &child.target {
                    Some(t) => Some(copy_text(t)),
                    None => None,
                };
                Some(Entry::Symlink { path, target })
            },
            ChildKind::Other => Some(Entry::Unknown { path }),
        }
    }

    /// The path of the entry, relative to the base.
    pub fn path(&self) -> (r: &String)
        ensures
            r@ == match self@ {
                EntryView::File { path, .. } => path,
                EntryView::Directory { path } => path,
                EntryView::Symlink { path, .. } => path,
                EntryView::Unknown { path } => path,
            },
    {
        match self {
            Entry::File { path, .. } => path,
            Entry::Directory { path } => path,
            Entry::Symlink { path, .. } => path,
            Entry::Unknown { path } => path,
        }
    }
}

/// The listing of a directory's children, in enumeration order; `None` where
/// one child cannot be classified, which fails the whole listing.
pub open spec fn listing(base: Seq<char>, children: Seq<Child>) -> Option<Seq<EntryView>> {
    if forall|i: int|
        0 <= i < children.len() ==> (#[trigger] entry_of(
            base,
            children[i].path@,
            children[i].meta,
            opt_view(children[i].target),
        )) is Some {
        Some(
            Seq::new(
                children.len(),
                |i: int|
                    entry_of(
                        base,
                        children[i].path@,
                        children[i].meta,
                        opt_view(children[i].target),
                    )->0,
            ),
        )
    } else {
        None
    }
}

/// Classifies every child in order.
pub fn list_entries(base: &str, children: &Vec<Child>) -> (r: Option<Vec<Entry>>)
    ensures
        (r is Some) == (listing(base@, children@) is Some),
        r is Some ==> r->0@.map_values(|e: Entry| e@) == listing(base@, children@)->0,
{
    let mut out: Vec<Entry> = Vec::new();
    let mut i: usize = 0;
    while i < children.len()
        invariant
            0 <= i <= children.len(),
            out@.len() == i,
            forall|k: int|
                0 <= k < i ==> (#[trigger] entry_of(
                    base@,
                    children@[k].path@,
                    children@[k].meta,
                    opt_view(children@[k].target),
                )) is Some && out@[k]@ == entry_of(
                    base@,
                    children@[k].path@,
                    children@[k].meta,
                    opt_view(children@[k].target),
                )->0,
        decreases children.len() - i,
    {
        match Entry::new(base, &children[i]) {
            Some(e) => out.push(e),
            None => return None,
        }
        i = i + 1;
    }
    proof {
        assert(out@.map_values(|e: Entry| e@) =~= listing(base@, children@)->0);
    }
    Some(out)
}

} // verus!
