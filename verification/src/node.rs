//! The inode model: directory and file nodes, their metadata record, and
//! the spec-level accounting of how many directory entries name a node.

use vstd::prelude::*;

verus! {

/// The kind tag of a node, as reported in metadata.
#[derive(Clone, Copy, PartialEq, Eq, Structural, Debug)]
pub enum FileType {
    RegularFile,
    Directory,
}

/// One named child of a directory.  `serial` is the index of the child
/// node in the filesystem's node arena.
pub struct DirEntry {
    pub name: String,
    pub serial: u64,
}

/// A directory node: an ordered list of uniquely named children, a
/// non-owning back-reference to the parent (absent only for the root),
/// and three timestamps.
pub struct DirInode {
    pub parent: Option<u64>,
    pub children: Vec<DirEntry>,
    pub atim: u64,
    pub mtim: u64,
    pub ctim: u64,
}

/// A file node: a byte buffer, the number of directory entries naming it,
/// and three timestamps.
pub struct FileInode {
    pub data: Vec<u8>,
    pub nlink: u64,
    pub atim: u64,
    pub mtim: u64,
    pub ctim: u64,
}

/// A node is exactly one of directory or file.
pub enum Inode {
    Dir(DirInode),
    File(FileInode),
}

/// The metadata record for a node: identity, type, link count, size and
/// timestamps.
#[derive(Clone, Copy, Debug)]
pub struct Filestat {
    pub device_id: u64,
    pub inode: u64,
    pub filetype: FileType,
    pub nlink: u64,
    pub size: u64,
    pub atim: Option<u64>,
    pub mtim: Option<u64>,
    pub ctim: Option<u64>,
}

/// One entry of a directory listing.  `next` is the cursor from which the
/// listing resumes after this entry.
#[derive(Clone, Debug)]
pub struct ReaddirEntity {
    pub filetype: FileType,
    pub inode: u64,
    pub next: u64,
    pub name: String,
}

impl Inode {
    pub open spec fn dir(&self) -> DirInode
        recommends
            self is Dir,
    {
        self->Dir_0
    }

    pub open spec fn file(&self) -> FileInode
        recommends
            self is File,
    {
        self->File_0
    }
}

/// How many entries of one directory's child list name serial `s`.
pub open spec fn count_in(cs: Seq<DirEntry>, s: u64) -> nat
    decreases cs.len(),
{
    if cs.len() == 0 {
        0
    } else {
        (if cs[0].serial == s {
            1nat
        } else {
            0nat
        }) + count_in(cs.drop_first(), s)
    }
}

/// How many entries a single node contributes to the name count of `s`.
pub open spec fn count_in_node(n: Inode, s: u64) -> nat {
    match n {
        Inode::Dir(d) => count_in(d.children@, s),
        Inode::File(_) => 0,
    }
}

/// How many directory entries of the whole arena name serial `s`.  The
/// filesystem invariant ties every file's `nlink` to this count.
pub open spec fn naming_count(nodes: Seq<Inode>, s: u64) -> nat
    decreases nodes.len(),
{
    if nodes.len() == 0 {
        0
    } else {
        count_in_node(nodes[0], s) + naming_count(nodes.drop_first(), s)
    }
}

pub proof fn lemma_count_in_push(cs: Seq<DirEntry>, e: DirEntry, s: u64)
    ensures
        count_in(cs.push(e), s) == count_in(cs, s) + (if e.serial == s {
            1nat
        } else {
            0nat
        }),
    decreases cs.len(),
{
    if cs.len() == 0 {
        assert(cs.push(e)[0] == e);
        assert(cs.push(e).drop_first() =~= Seq::<DirEntry>::empty());
        assert(count_in(Seq::<DirEntry>::empty(), s) == 0);
        assert(count_in(cs, s) == 0);
    } else {
        assert(cs.push(e)[0] == cs[0]);
        assert(cs.push(e).drop_first() =~= cs.drop_first().push(e));
        lemma_count_in_push(cs.drop_first(), e, s);
        assert(count_in(cs.push(e), s) == (if cs[0].serial == s {
            1nat
        } else {
            0nat
        }) + count_in(cs.drop_first().push(e), s));
        assert(count_in(cs, s) == (if cs[0].serial == s {
            1nat
        } else {
            0nat
        }) + count_in(cs.drop_first(), s));
    }
}

pub proof fn lemma_count_in_remove(cs: Seq<DirEntry>, i: int, s: u64)
    requires
        0 <= i < cs.len(),
    ensures
        count_in(cs, s) == count_in(cs.remove(i), s) + (if cs[i].serial == s {
            1nat
        } else {
            0nat
        }),
    decreases cs.len(),
{
    if i == 0 {
        assert(cs.remove(0) =~= cs.drop_first());
    } else {
        assert(cs.remove(i).drop_first() =~= cs.drop_first().remove(i - 1));
        lemma_count_in_remove(cs.drop_first(), i - 1, s);
    }
}

pub proof fn lemma_count_in_update(cs: Seq<DirEntry>, i: int, e: DirEntry, s: u64)
    requires
        0 <= i < cs.len(),
    ensures
        count_in(cs.update(i, e), s) + (if cs[i].serial == s {
            1nat
        } else {
            0nat
        }) == count_in(cs, s) + (if e.serial == s {
            1nat
        } else {
            0nat
        }),
    decreases cs.len(),
{
    if i == 0 {
        assert(cs.update(0, e).drop_first() =~= cs.drop_first());
    } else {
        assert(cs.update(i, e).drop_first() =~= cs.drop_first().update(i - 1, e));
        lemma_count_in_update(cs.drop_first(), i - 1, e, s);
    }
}

pub proof fn lemma_count_in_zero(cs: Seq<DirEntry>, s: u64)
    requires
        forall|j: int| 0 <= j < cs.len() ==> (#[trigger] cs[j]).serial != s,
    ensures
        count_in(cs, s) == 0,
    decreases cs.len(),
{
    if cs.len() > 0 {
        lemma_count_in_zero(cs.drop_first(), s);
    }
}

pub proof fn lemma_naming_push(nodes: Seq<Inode>, n: Inode, s: u64)
    ensures
        naming_count(nodes.push(n), s) == naming_count(nodes, s) + count_in_node(n, s),
    decreases nodes.len(),
{
    if nodes.len() == 0 {
        assert(nodes.push(n)[0] == n);
        assert(nodes.push(n).drop_first() =~= Seq::<Inode>::empty());
        assert(naming_count(Seq::<Inode>::empty(), s) == 0);
        assert(naming_count(nodes, s) == 0);
    } else {
        assert(nodes.push(n)[0] == nodes[0]);
        assert(nodes.push(n).drop_first() =~= nodes.drop_first().push(n));
        lemma_naming_push(nodes.drop_first(), n, s);
        assert(naming_count(nodes.push(n), s) == count_in_node(nodes[0], s) + naming_count(
            nodes.drop_first().push(n),
            s,
        ));
        assert(naming_count(nodes, s) == count_in_node(nodes[0], s) + naming_count(
            nodes.drop_first(),
            s,
        ));
    }
}

pub proof fn lemma_naming_update(nodes: Seq<Inode>, i: int, n: Inode, s: u64)
    requires
        0 <= i < nodes.len(),
    ensures
        naming_count(nodes.update(i, n), s) + count_in_node(nodes[i], s) == naming_count(nodes, s)
            + count_in_node(n, s),
    decreases nodes.len(),
{
    if i == 0 {
        assert(nodes.update(0, n).drop_first() =~= nodes.drop_first());
    } else {
        assert(nodes.update(i, n).drop_first() =~= nodes.drop_first().update(i - 1, n));
        lemma_naming_update(nodes.drop_first(), i - 1, n, s);
    }
}

/// An entry pointing at `s` witnesses at least one name.
pub proof fn lemma_count_at_least(cs: Seq<DirEntry>, idx: int, s: u64)
    requires
        0 <= idx < cs.len(),
        cs[idx].serial == s,
    ensures
        count_in(cs, s) >= 1,
    decreases cs.len(),
{
    if idx > 0 {
        lemma_count_at_least(cs.drop_first(), idx - 1, s);
    }
}

/// One node's contribution never exceeds the arena-wide count.
pub proof fn lemma_naming_at_least(nodes: Seq<Inode>, i: int, s: u64)
    requires
        0 <= i < nodes.len(),
    ensures
        naming_count(nodes, s) >= count_in_node(nodes[i], s),
    decreases nodes.len(),
{
    if i > 0 {
        lemma_naming_at_least(nodes.drop_first(), i - 1, s);
    }
}

pub proof fn lemma_naming_zero(nodes: Seq<Inode>, s: u64)
    requires
        forall|i: int| 0 <= i < nodes.len() ==> count_in_node(#[trigger] nodes[i], s) == 0,
    ensures
        naming_count(nodes, s) == 0,
    decreases nodes.len(),
{
    if nodes.len() > 0 {
        lemma_naming_zero(nodes.drop_first(), s);
    }
}

} // verus!
