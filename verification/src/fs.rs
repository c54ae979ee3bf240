//! The node store and the directory capability: path resolution and
//! directory reading and mutation.

use vstd::prelude::*;
use vstd::pervasive::VecAdditionalExecFns;

use crate::error::FsError;
use crate::file::{mode_for, spec_mode, FdFlags, File};
use crate::node::{
    count_in_node, lemma_count_at_least, lemma_count_in_push, lemma_count_in_remove,
    lemma_count_in_update, lemma_count_in_zero, lemma_naming_at_least, lemma_naming_push,
    lemma_naming_update, lemma_naming_zero, naming_count, DirEntry, DirInode, FileInode, FileType,
    Filestat, Inode, ReaddirEntity,
};

verus! {

broadcast use vstd::std_specs::vec::axiom_spec_len;

/// A directory may hold at most this many children, so that a directory
/// listing cursor (two synthetic entries, then the children) can always
/// be advanced without overflowing a `u64`.
pub const MAX_DIR_CHILDREN: u64 = 0xFFFF_FFFF_FFFF_FFFDu64;

/// The node store: one filesystem instance.
///
/// All nodes live in `nodes`, in creation order, so a node's serial number
/// is its arena index: serials are unique within the instance, strictly
/// increasing, and never reused.  The root directory is serial 0.  A node
/// stays in the arena even after its last name is removed, which is what
/// lets an open handle keep reading a file that has been unlinked.
///
/// `instance` is a host-chosen token that distinguishes this instance from
/// every other one the host creates; operations that span two instances
/// compare it and fail with [`FsError::NotSupported`] on a mismatch.
pub struct Filesystem {
    pub nodes: Vec<Inode>,
    pub device_id: u64,
    pub instance: u64,
}

/// The directory capability: a reference to one directory node of one
/// filesystem instance.
#[derive(Clone, Copy, PartialEq, Eq, Structural, Debug)]
pub struct Dir {
    pub instance: u64,
    pub serial: u64,
}

/// The first match, from the front, of `name` among the entries.
pub open spec fn lookup_in(cs: Seq<DirEntry>, name: Seq<char>) -> Option<u64>
    decreases cs.len(),
{
    if cs.len() == 0 {
        None
    } else if cs[0].name@ == name {
        Some(cs[0].serial)
    } else {
        lookup_in(cs.drop_first(), name)
    }
}

/// No two entries carry the same name.
pub open spec fn names_unique(cs: Seq<DirEntry>) -> bool {
    forall|i: int, j: int| #![trigger cs[i], cs[j]] 0 <= i < j < cs.len() ==> cs[i].name@ != cs[j].name@
}

/// Well-formedness of one directory's child list within an arena of `n`
/// nodes: every entry points into the arena, names are unique, the
/// synthetic listing names `.` and `..` never appear as real entries, and
/// the list is short enough for cursor arithmetic.
pub open spec fn children_wf(cs: Seq<DirEntry>, n: nat) -> bool {
    &&& cs.len() <= MAX_DIR_CHILDREN
    &&& forall|i: int| 0 <= i < cs.len() ==> (#[trigger] cs[i]).serial < n
    &&& names_unique(cs)
    &&& forall|i: int| 0 <= i < cs.len() ==> (#[trigger] cs[i]).name@ != "."@ && cs[i].name@ != ".."@
}

/// The position of the first `/` in a path, if any.
pub open spec fn first_slash(s: Seq<char>) -> Option<int>
    decreases s.len(),
{
    if s.len() == 0 {
        None
    } else if s[0] == '/' {
        Some(0)
    } else {
        match first_slash(s.drop_first()) {
            None => None,
            Some(j) => Some(j + 1),
        }
    }
}

pub proof fn lemma_first_slash(s: Seq<char>)
    ensures
        match first_slash(s) {
            Some(i) => 0 <= i < s.len() && s[i] == '/' && forall|j: int|
                0 <= j < i ==> s[j] != '/',
            None => forall|j: int| 0 <= j < s.len() ==> s[j] != '/',
        },
    decreases s.len(),
{
    if s.len() > 0 && s[0] != '/' {
        lemma_first_slash(s.drop_first());
        assert forall|j: int| 0 <= j < s.len() implies (first_slash(s) is None ==> s[j] != '/')
            && (first_slash(s) is Some && 0 < j < first_slash(s)->0 ==> s[j] != '/') by {
            if j > 0 {
                assert(s.drop_first()[j - 1] == s[j]);
            }
        }
    }
}

pub proof fn lemma_lookup_push(cs: Seq<DirEntry>, e: DirEntry, name: Seq<char>)
    ensures
        lookup_in(cs.push(e), name) == (if lookup_in(cs, name) is Some {
            lookup_in(cs, name)
        } else if e.name@ == name {
            Some(e.serial)
        } else {
            None::<u64>
        }),
    decreases cs.len(),
{
    if cs.len() == 0 {
        assert(cs.push(e)[0] == e);
        assert(cs.push(e).drop_first() =~= Seq::<DirEntry>::empty());
        assert(lookup_in(Seq::<DirEntry>::empty(), name) is None);
        assert(lookup_in(cs, name) is None);
    } else {
        assert(cs.push(e)[0] == cs[0]);
        assert(cs.push(e).drop_first() =~= cs.drop_first().push(e));
        lemma_lookup_push(cs.drop_first(), e, name);
        assert(lookup_in(cs.push(e), name) == (if cs[0].name@ == name {
            Some(cs[0].serial)
        } else {
            lookup_in(cs.drop_first().push(e), name)
        }));
        assert(lookup_in(cs, name) == (if cs[0].name@ == name {
            Some(cs[0].serial)
        } else {
            lookup_in(cs.drop_first(), name)
        }));
    }
}

pub proof fn lemma_lookup_remove(cs: Seq<DirEntry>, i: int, name: Seq<char>)
    requires
        0 <= i < cs.len(),
        names_unique(cs),
    ensures
        lookup_in(cs.remove(i), name) == (if cs[i].name@ == name {
            None::<u64>
        } else {
            lookup_in(cs, name)
        }),
    decreases cs.len(),
{
    if i == 0 {
        assert(cs.remove(0) =~= cs.drop_first());
        if cs[0].name@ == name {
            lemma_lookup_no_entry(cs.drop_first(), name);
        }
    } else {
        assert(cs.remove(i).drop_first() =~= cs.drop_first().remove(i - 1));
        assert(cs.remove(i)[0] == cs[0]);
        lemma_lookup_remove(cs.drop_first(), i - 1, name);
    }
}

/// If no entry carries `name`, the lookup misses.
pub proof fn lemma_lookup_no_entry(cs: Seq<DirEntry>, name: Seq<char>)
    requires
        forall|j: int| 0 <= j < cs.len() ==> (#[trigger] cs[j]).name@ != name,
    ensures
        lookup_in(cs, name) is None,
    decreases cs.len(),
{
    if cs.len() > 0 {
        lemma_lookup_no_entry(cs.drop_first(), name);
    }
}

/// A missed lookup means no entry carries the name.
pub proof fn lemma_lookup_none(cs: Seq<DirEntry>, name: Seq<char>)
    requires
        lookup_in(cs, name) is None,
    ensures
        forall|j: int| 0 <= j < cs.len() ==> (#[trigger] cs[j]).name@ != name,
    decreases cs.len(),
{
    if cs.len() > 0 {
        lemma_lookup_none(cs.drop_first(), name);
        assert forall|j: int| 0 <= j < cs.len() implies (#[trigger] cs[j]).name@ != name by {
            if j > 0 {
                assert(cs.drop_first()[j - 1] == cs[j]);
            }
        }
    }
}

/// A serial at or past the end of the arena is named by no entry.
pub proof fn lemma_fresh_unnamed(nodes: Seq<Inode>, s: u64)
    requires
        forall|i: int|
            0 <= i < nodes.len() && nodes[i] is Dir ==> children_wf(
                (#[trigger] nodes[i])->Dir_0.children@,
                nodes.len(),
            ),
        s >= nodes.len(),
    ensures
        naming_count(nodes, s) == 0,
{
    assert forall|i: int| 0 <= i < nodes.len() implies count_in_node(#[trigger] nodes[i], s)
        == 0 by {
        if nodes[i] is Dir {
            lemma_count_in_zero(nodes[i]->Dir_0.children@, s);
        }
    }
    lemma_naming_zero(nodes, s);
}

/// Replacing entry `i` by an entry with the same name redirects that one
/// name and leaves every other lookup unchanged.
pub proof fn lemma_lookup_update(cs: Seq<DirEntry>, i: int, e: DirEntry, name: Seq<char>)
    requires
        0 <= i < cs.len(),
        names_unique(cs),
        e.name@ == cs[i].name@,
    ensures
        lookup_in(cs.update(i, e), name) == (if e.name@ == name {
            Some(e.serial)
        } else {
            lookup_in(cs, name)
        }),
    decreases cs.len(),
{
    if i == 0 {
        assert(cs.update(0, e).drop_first() =~= cs.drop_first());
        assert(cs.update(0, e)[0] == e);
        if e.name@ == name {
            lemma_lookup_no_entry(cs.drop_first(), name);
        }
    } else {
        assert(cs.update(i, e).drop_first() =~= cs.drop_first().update(i - 1, e));
        assert(cs.update(i, e)[0] == cs[0]);
        lemma_lookup_update(cs.drop_first(), i - 1, e, name);
    }
}

impl Filesystem {
    /// How many nodes this instance has created so far; also the next
    /// serial to be assigned.
    pub open spec fn node_count(&self) -> nat {
        self.nodes@.len()
    }

    pub open spec fn is_dir(&self, s: u64) -> bool {
        s < self.nodes@.len() && self.nodes@[s as int] is Dir
    }

    pub open spec fn is_file(&self, s: u64) -> bool {
        s < self.nodes@.len() && self.nodes@[s as int] is File
    }

    pub open spec fn dir_node(&self, s: u64) -> DirInode
        recommends
            self.is_dir(s),
    {
        self.nodes@[s as int]->Dir_0
    }

    pub open spec fn file_node(&self, s: u64) -> FileInode
        recommends
            self.is_file(s),
    {
        self.nodes@[s as int]->File_0
    }

    pub open spec fn children(&self, s: u64) -> Seq<DirEntry>
        recommends
            self.is_dir(s),
    {
        self.dir_node(s).children@
    }

    pub open spec fn parent_of(&self, s: u64) -> Option<u64>
        recommends
            self.is_dir(s),
    {
        self.dir_node(s).parent
    }

    pub open spec fn file_data(&self, s: u64) -> Seq<u8>
        recommends
            self.is_file(s),
    {
        self.file_node(s).data@
    }

    pub open spec fn nlink_of(&self, s: u64) -> u64
        recommends
            self.is_file(s),
    {
        self.file_node(s).nlink
    }

    /// The serial the name denotes among the children of directory `d`.
    pub open spec fn lookup(&self, d: u64, name: Seq<char>) -> Option<u64>
        recommends
            self.is_dir(d),
    {
        lookup_in(self.children(d), name)
    }

    /// The internal invariant of the node store: the root is a parentless
    /// directory, every child entry and every parent back-reference points
    /// into the arena, child names are unique per directory, and every
    /// file's link count equals the number of directory entries that name
    /// it anywhere in the tree.
    pub open spec fn wf(&self) -> bool {
        &&& self.nodes@.len() >= 1
        &&& self.nodes@[0] is Dir
        &&& self.nodes@[0]->Dir_0.parent is None
        &&& forall|s: int|
            0 <= s < self.nodes@.len() && self.nodes@[s] is Dir ==> children_wf(
                (#[trigger] self.nodes@[s])->Dir_0.children@,
                self.nodes@.len(),
            )
        &&& forall|s: int|
            0 <= s < self.nodes@.len() && (#[trigger] self.nodes@[s]) is Dir
                && self.nodes@[s]->Dir_0.parent is Some ==> {
                &&& self.nodes@[s]->Dir_0.parent->0 < self.nodes@.len()
                &&& self.nodes@[self.nodes@[s]->Dir_0.parent->0 as int] is Dir
            }
        &&& forall|s: int|
            0 <= s < self.nodes@.len() && (#[trigger] self.nodes@[s]) is File ==> self.nodes@[s]->File_0.nlink
                as nat == naming_count(self.nodes@, s as u64)
    }

    /// The new state grows out of the old one: same identity, no node
    /// lost, no node's kind changed.  Every mutating operation maintains
    /// this, so capabilities obtained earlier stay valid.
    pub open spec fn extends(&self, prev: Filesystem) -> bool {
        &&& self.instance == prev.instance
        &&& self.device_id == prev.device_id
        &&& self.nodes@.len() >= prev.nodes@.len()
        &&& forall|s: u64| #[trigger] prev.is_dir(s) ==> self.is_dir(s)
        &&& forall|s: u64| #[trigger] prev.is_file(s) ==> self.is_file(s)
    }

    /// The metadata record of node `s`.
    pub open spec fn spec_stat(&self, s: u64) -> Filestat
        recommends
            s < self.nodes@.len(),
    {
        match self.nodes@[s as int] {
            Inode::Dir(d) => Filestat {
                device_id: self.device_id,
                inode: s,
                filetype: FileType::Directory,
                nlink: 0,
                size: d.children@.len() as u64,
                atim: Some(d.atim),
                mtim: Some(d.mtim),
                ctim: Some(d.ctim),
            },
            Inode::File(f) => Filestat {
                device_id: self.device_id,
                inode: s,
                filetype: FileType::RegularFile,
                nlink: f.nlink,
                size: f.data@.len() as u64,
                atim: Some(f.atim),
                mtim: Some(f.mtim),
                ctim: Some(f.ctim),
            },
        }
    }

    /// Walking `path` from directory `d`: splits on the first separator,
    /// descends through existing directories, and yields the directory
    /// that will receive the final name together with that name.  A path
    /// ending in a separator (a trailing empty segment) is accepted only
    /// on request, and then hands back the final component with the
    /// separator stripped; no normalization of `.` or `..` takes place.
    pub open spec fn resolve_spec(&self, d: u64, path: Seq<char>, accept_trailing: bool) -> Result<
        (u64, Seq<char>),
        FsError,
    >
        recommends
            self.is_dir(d),
        decreases path.len(),
    {
        match first_slash(path) {
            None => Ok((d, path)),
            Some(i) => {
                if !(0 <= i < path.len()) {
                    // cannot happen; keeps the recursion well-founded
                    Err(FsError::NotFound)
                } else {
                    let head = path.subrange(0, i);
                    let rest = path.subrange(i + 1, path.len() as int);
                    if rest.len() == 0 {
                        if accept_trailing {
                            Ok((d, head))
                        } else {
                            Err(FsError::NotFound)
                        }
                    } else {
                        match lookup_in(self.children(d), head) {
                            None => Err(FsError::NotFound),
                            Some(c) => if self.is_dir(c) {
                                self.resolve_spec(c, rest, accept_trailing)
                            } else {
                                Err(FsError::NotADirectory)
                            },
                        }
                    }
                }
            },
        }
    }

    /// Creates the store and its root directory (serial 0, no parent) in
    /// one bootstrap step.  `instance` is the host's token for telling
    /// this instance apart from others; `now` stamps the root's times.
    pub fn new(device_id: u64, instance: u64, now: u64) -> (fs: Filesystem)
        ensures
            fs.wf(),
            fs.instance == instance,
            fs.device_id == device_id,
            fs.node_count() == 1,
            fs.is_dir(0),
            fs.children(0) == Seq::<DirEntry>::empty(),
            fs.parent_of(0) is None,
            fs.dir_node(0).atim == now && fs.dir_node(0).mtim == now && fs.dir_node(0).ctim
                == now,
    {
        let root = DirInode {
            parent: None,
            children: Vec::new(),
            atim: now,
            mtim: now,
            ctim: now,
        };
        let mut nodes: Vec<Inode> = Vec::new();
        nodes.push(Inode::Dir(root));
        let fs = Filesystem { nodes, device_id, instance };
        proof {
            assert forall|s: int|
                0 <= s < fs.nodes@.len() && (#[trigger] fs.nodes@[s]) is File implies fs.nodes@[s]->File_0.nlink
                as nat == naming_count(fs.nodes@, s as u64) by {}
        }
        fs
    }

    /// The root directory capability; callable any number of times and
    /// always the same node.
    pub fn root(&self) -> (d: Dir)
        requires
            self.wf(),
        ensures
            d.instance == self.instance,
            d.serial == 0,
            d.valid(self),
    {
        Dir { instance: self.instance, serial: 0 }
    }

    /// The metadata record of node `s`.
    pub(crate) fn stat_of(&self, s: u64) -> (st: Filestat)
        requires
            self.wf(),
            s < self.nodes@.len(),
        ensures
            st == self.spec_stat(s),
    {
        let i = node_index(self, s);
        match &self.nodes[i] {
            Inode::Dir(d) => Filestat {
                device_id: self.device_id,
                inode: s,
                filetype: FileType::Directory,
                nlink: 0,
                size: d.children.len() as u64,
                atim: Some(d.atim),
                mtim: Some(d.mtim),
                ctim: Some(d.ctim),
            },
            Inode::File(f) => Filestat {
                device_id: self.device_id,
                inode: s,
                filetype: FileType::RegularFile,
                nlink: f.nlink,
                size: f.data.len() as u64,
                atim: Some(f.atim),
                mtim: Some(f.mtim),
                ctim: Some(f.ctim),
            },
        }
    }
}

impl Filesystem {
    /// Creates a fresh, empty file node and inserts it under `name` in
    /// directory `d`, with link count 1.
    fn link_new_file(&mut self, d: u64, name: String, now: u64) -> (s: u64)
        requires
            old(self).wf(),
            old(self).is_dir(d),
            old(self).lookup(d, name@) is None,
            name@ != "."@,
            name@ != ".."@,
            old(self).children(d).len() < MAX_DIR_CHILDREN,
        ensures
            final(self).wf(),
            final(self).extends(*old(self)),
            s == old(self).node_count() as u64,
            final(self).node_count() == old(self).node_count() + 1,
            final(self).is_file(s),
            final(self).file_data(s) == Seq::<u8>::empty(),
            final(self).nlink_of(s) == 1,
            final(self).file_node(s).atim == now && final(self).file_node(s).mtim == now
                && final(self).file_node(s).ctim == now,
            final(self).children(d) == old(self).children(d).push(
                (DirEntry { name, serial: s }),
            ),
            final(self).dir_node(d).parent == old(self).dir_node(d).parent,
            final(self).dir_node(d).atim == old(self).dir_node(d).atim,
            final(self).dir_node(d).mtim == old(self).dir_node(d).mtim,
            final(self).dir_node(d).ctim == old(self).dir_node(d).ctim,
            forall|t: u64|
                t < old(self).node_count() && t != d ==> final(self).nodes@[t as int] == old(self).nodes@[t as int],
            final(self).lookup(d, name@) == Some(s),
            forall|nm: Seq<char>|
                nm != name@ ==> final(self).lookup(d, nm) == old(self).lookup(d, nm),
    {
        let ghost on = self.nodes@;
        let ghost old_self = *self;
        let s = self.nodes.len() as u64;
        let file = FileInode { data: Vec::new(), nlink: 1, atim: now, mtim: now, ctim: now };
        self.nodes.push(Inode::File(file));
        let ghost mid = self.nodes@;
        let di = node_index(self, d);
        let mut tmp = Inode::Dir(
            DirInode { parent: None, children: Vec::new(), atim: 0, mtim: 0, ctim: 0 },
        );
        self.nodes.set_and_swap(di, &mut tmp);
        let entry = DirEntry { name, serial: s };
        let ghost ge = entry;
        match tmp {
            Inode::Dir(mut dn) => {
                dn.children.push(entry);
                self.nodes.set(di, Inode::Dir(dn));
            },
            Inode::File(f) => {
                proof {
                    assert(false);
                }
                self.nodes.set(di, Inode::File(f));
            },
        }
        proof {
            let dd = d as int;
            let fin = self.nodes@;
            let newd = fin[dd];
            let oldd = on[dd];
            assert(fin =~= mid.update(dd, newd));
            assert(newd is Dir);
            assert(newd->Dir_0.children@ =~= oldd->Dir_0.children@.push(ge));
            assert(newd->Dir_0.parent == oldd->Dir_0.parent);
            lemma_lookup_none(oldd->Dir_0.children@, ge.name@);
            // the new child list is well formed
            assert(children_wf(newd->Dir_0.children@, fin.len())) by {
                assert forall|i: int, j: int|
                    #![trigger newd->Dir_0.children@[i], newd->Dir_0.children@[j]]
                    0 <= i < j < newd->Dir_0.children@.len() implies newd->Dir_0.children@[i].name@
                    != newd->Dir_0.children@[j].name@ by {
                    if j < oldd->Dir_0.children@.len() {
                        assert(children_wf(oldd->Dir_0.children@, on.len()));
                    }
                }
            }
            // every other directory's child list is unchanged and stays
            // well formed under the larger arena
            assert forall|t: int|
                0 <= t < fin.len() && fin[t] is Dir implies children_wf(
                (#[trigger] fin[t])->Dir_0.children@,
                fin.len(),
            ) by {
                if t != dd && t < on.len() {
                    assert(fin[t] == on[t]);
                    assert(children_wf(on[t]->Dir_0.children@, on.len()));
                }
            }
            // link counts
            assert forall|t: int|
                0 <= t < fin.len() && (#[trigger] fin[t]) is File implies fin[t]->File_0.nlink
                as nat == naming_count(fin, t as u64) by {
                let tu = t as u64;
                lemma_naming_push(on, mid[on.len() as int], tu);
                lemma_naming_update(mid, dd, newd, tu);
                lemma_count_in_push(oldd->Dir_0.children@, ge, tu);
                if t < on.len() {
                    assert(fin[t] == on[t]);
                } else {
                    lemma_fresh_unnamed(on, tu);
                }
            }
            // lookups under the new child list
            assert forall|nm: Seq<char>| nm != name@ implies final(self).lookup(d, nm) == old(self).lookup(d, nm) by {
                lemma_lookup_push(oldd->Dir_0.children@, ge, nm);
            }
            lemma_lookup_push(oldd->Dir_0.children@, ge, name@);
        }
        s
    }

    /// Creates a fresh, empty directory node whose parent back-reference
    /// is `d`, and inserts it under `name` in `d`.
    fn link_new_dir(&mut self, d: u64, name: String, now: u64) -> (s: u64)
        requires
            old(self).wf(),
            old(self).is_dir(d),
            old(self).lookup(d, name@) is None,
            name@ != "."@,
            name@ != ".."@,
            old(self).children(d).len() < MAX_DIR_CHILDREN,
        ensures
            final(self).wf(),
            final(self).extends(*old(self)),
            s == old(self).node_count() as u64,
            final(self).node_count() == old(self).node_count() + 1,
            final(self).is_dir(s),
            final(self).children(s) == Seq::<DirEntry>::empty(),
            final(self).parent_of(s) == Some(d),
            final(self).dir_node(s).atim == now && final(self).dir_node(s).mtim == now
                && final(self).dir_node(s).ctim == now,
            final(self).children(d) == old(self).children(d).push(
                (DirEntry { name, serial: s }),
            ),
            final(self).dir_node(d).parent == old(self).dir_node(d).parent,
            final(self).dir_node(d).atim == old(self).dir_node(d).atim,
            final(self).dir_node(d).mtim == old(self).dir_node(d).mtim,
            final(self).dir_node(d).ctim == old(self).dir_node(d).ctim,
            forall|t: u64|
                t < old(self).node_count() && t != d ==> final(self).nodes@[t as int] == old(self).nodes@[t as int],
            final(self).lookup(d, name@) == Some(s),
            forall|nm: Seq<char>|
                nm != name@ ==> final(self).lookup(d, nm) == old(self).lookup(d, nm),
    {
        let ghost on = self.nodes@;
        let s = self.nodes.len() as u64;
        let dir = DirInode {
            parent: Some(d),
            children: Vec::new(),
            atim: now,
            mtim: now,
            ctim: now,
        };
        self.nodes.push(Inode::Dir(dir));
        let ghost mid = self.nodes@;
        let di = node_index(self, d);
        let mut tmp = Inode::Dir(
            DirInode { parent: None, children: Vec::new(), atim: 0, mtim: 0, ctim: 0 },
        );
        self.nodes.set_and_swap(di, &mut tmp);
        let entry = DirEntry { name, serial: s };
        let ghost ge = entry;
        match tmp {
            Inode::Dir(mut dn) => {
                dn.children.push(entry);
                self.nodes.set(di, Inode::Dir(dn));
            },
            Inode::File(f) => {
                proof {
                    assert(false);
                }
                self.nodes.set(di, Inode::File(f));
            },
        }
        proof {
            let dd = d as int;
            let fin = self.nodes@;
            let newd = fin[dd];
            let oldd = on[dd];
            assert(fin =~= mid.update(dd, newd));
            assert(newd is Dir);
            assert(newd->Dir_0.children@ =~= oldd->Dir_0.children@.push(ge));
            assert(newd->Dir_0.parent == oldd->Dir_0.parent);
            lemma_lookup_none(oldd->Dir_0.children@, ge.name@);
            assert(children_wf(newd->Dir_0.children@, fin.len())) by {
                assert forall|i: int, j: int|
                    #![trigger newd->Dir_0.children@[i], newd->Dir_0.children@[j]]
                    0 <= i < j < newd->Dir_0.children@.len() implies newd->Dir_0.children@[i].name@
                    != newd->Dir_0.children@[j].name@ by {
                    if j < oldd->Dir_0.children@.len() {
                        assert(children_wf(oldd->Dir_0.children@, on.len()));
                    }
                }
            }
            assert forall|t: int|
                0 <= t < fin.len() && fin[t] is Dir implies children_wf(
                (#[trigger] fin[t])->Dir_0.children@,
                fin.len(),
            ) by {
                if t != dd && t < on.len() {
                    assert(fin[t] == on[t]);
                    assert(children_wf(on[t]->Dir_0.children@, on.len()));
                }
            }
            assert forall|t: int|
                0 <= t < fin.len() && (#[trigger] fin[t]) is File implies fin[t]->File_0.nlink
                as nat == naming_count(fin, t as u64) by {
                let tu = t as u64;
                lemma_naming_push(on, mid[on.len() as int], tu);
                lemma_naming_update(mid, dd, newd, tu);
                lemma_count_in_push(oldd->Dir_0.children@, ge, tu);
                assert(fin[t] == on[t]);
            }
            assert forall|nm: Seq<char>| nm != name@ implies final(self).lookup(d, nm) == old(self).lookup(d, nm) by {
                lemma_lookup_push(oldd->Dir_0.children@, ge, nm);
            }
            lemma_lookup_push(oldd->Dir_0.children@, ge, name@);
        }
        s
    }

    /// Inserts an additional name for an existing file node and bumps its
    /// link count: the hard-link primitive.
    fn link_existing(&mut self, d: u64, name: String, target: u64) -> (r: ())
        requires
            old(self).wf(),
            old(self).is_dir(d),
            old(self).lookup(d, name@) is None,
            name@ != "."@,
            name@ != ".."@,
            old(self).children(d).len() < MAX_DIR_CHILDREN,
            old(self).is_file(target),
            old(self).nlink_of(target) < u64::MAX,
        ensures
            final(self).wf(),
            final(self).extends(*old(self)),
            final(self).node_count() == old(self).node_count(),
            final(self).nlink_of(target) == old(self).nlink_of(target) + 1,
            final(self).file_data(target) == old(self).file_data(target),
            final(self).file_node(target).atim == old(self).file_node(target).atim,
            final(self).file_node(target).mtim == old(self).file_node(target).mtim,
            final(self).file_node(target).ctim == old(self).file_node(target).ctim,
            final(self).children(d) == old(self).children(d).push(
                (DirEntry { name, serial: target }),
            ),
            final(self).dir_node(d).parent == old(self).dir_node(d).parent,
            final(self).dir_node(d).atim == old(self).dir_node(d).atim,
            final(self).dir_node(d).mtim == old(self).dir_node(d).mtim,
            final(self).dir_node(d).ctim == old(self).dir_node(d).ctim,
            forall|t: u64|
                t < old(self).node_count() && t != d && t != target ==> final(self).nodes@[t as int] == old(self).nodes@[t as int],
            final(self).lookup(d, name@) == Some(target),
            forall|nm: Seq<char>|
                nm != name@ ==> final(self).lookup(d, nm) == old(self).lookup(d, nm),
    {
        let ghost on = self.nodes@;
        let ti = node_index(self, target);
        let mut tmpf = Inode::Dir(
            DirInode { parent: None, children: Vec::new(), atim: 0, mtim: 0, ctim: 0 },
        );
        self.nodes.set_and_swap(ti, &mut tmpf);
        match tmpf {
            Inode::File(mut f) => {
                f.nlink = f.nlink + 1;
                self.nodes.set(ti, Inode::File(f));
            },
            Inode::Dir(dn) => {
                proof {
                    assert(false);
                }
                self.nodes.set(ti, Inode::Dir(dn));
            },
        }
        let ghost mid = self.nodes@;
        let di = node_index(self, d);
        let mut tmp = Inode::Dir(
            DirInode { parent: None, children: Vec::new(), atim: 0, mtim: 0, ctim: 0 },
        );
        self.nodes.set_and_swap(di, &mut tmp);
        let entry = DirEntry { name, serial: target };
        let ghost ge = entry;
        match tmp {
            Inode::Dir(mut dn) => {
                dn.children.push(entry);
                self.nodes.set(di, Inode::Dir(dn));
            },
            Inode::File(f) => {
                proof {
                    assert(false);
                }
                self.nodes.set(di, Inode::File(f));
            },
        }
        proof {
            let dd = d as int;
            let tt = target as int;
            let fin = self.nodes@;
            let newd = fin[dd];
            let oldd = on[dd];
            assert(mid =~= on.update(tt, mid[tt]));
            assert(fin =~= mid.update(dd, newd));
            assert(newd is Dir);
            assert(newd->Dir_0.children@ =~= oldd->Dir_0.children@.push(ge));
            assert(newd->Dir_0.parent == oldd->Dir_0.parent);
            lemma_lookup_none(oldd->Dir_0.children@, ge.name@);
            assert(children_wf(newd->Dir_0.children@, fin.len())) by {
                assert forall|i: int, j: int|
                    #![trigger newd->Dir_0.children@[i], newd->Dir_0.children@[j]]
                    0 <= i < j < newd->Dir_0.children@.len() implies newd->Dir_0.children@[i].name@
                    != newd->Dir_0.children@[j].name@ by {
                    if j < oldd->Dir_0.children@.len() {
                        assert(children_wf(oldd->Dir_0.children@, on.len()));
                    }
                }
            }
            assert forall|t: int|
                0 <= t < fin.len() && fin[t] is Dir implies children_wf(
                (#[trigger] fin[t])->Dir_0.children@,
                fin.len(),
            ) by {
                if t != dd {
                    assert(fin[t] == on[t]);
                    assert(children_wf(on[t]->Dir_0.children@, on.len()));
                }
            }
            assert forall|t: int|
                0 <= t < fin.len() && (#[trigger] fin[t]) is File implies fin[t]->File_0.nlink
                as nat == naming_count(fin, t as u64) by {
                let tu = t as u64;
                lemma_naming_update(on, tt, mid[tt], tu);
                lemma_naming_update(mid, dd, newd, tu);
                lemma_count_in_push(oldd->Dir_0.children@, ge, tu);
                if t != tt {
                    assert(fin[t] == on[t]);
                }
            }
            assert forall|nm: Seq<char>| nm != name@ implies final(self).lookup(d, nm) == old(self).lookup(d, nm) by {
                lemma_lookup_push(oldd->Dir_0.children@, ge, nm);
            }
            lemma_lookup_push(oldd->Dir_0.children@, ge, name@);
        }
    }

    /// Removes the entry at `idx` of directory `d`, which names a file,
    /// and drops that file's link count by one.  The file node itself
    /// stays in the arena, so open handles keep working.
    fn unlink_entry(&mut self, d: u64, idx: usize) -> (r: ())
        requires
            old(self).wf(),
            old(self).is_dir(d),
            idx < old(self).children(d).len(),
            old(self).is_file(old(self).children(d)[idx as int].serial),
        ensures
            final(self).wf(),
            final(self).extends(*old(self)),
            final(self).node_count() == old(self).node_count(),
            final(self).children(d) == old(self).children(d).remove(idx as int),
            final(self).dir_node(d).parent == old(self).dir_node(d).parent,
            final(self).dir_node(d).atim == old(self).dir_node(d).atim,
            final(self).dir_node(d).mtim == old(self).dir_node(d).mtim,
            final(self).dir_node(d).ctim == old(self).dir_node(d).ctim,
            ({
                let target = old(self).children(d)[idx as int].serial;
                &&& final(self).nlink_of(target) + 1 == old(self).nlink_of(target)
                &&& final(self).file_data(target) == old(self).file_data(target)
                &&& final(self).file_node(target).atim == old(self).file_node(target).atim
                &&& final(self).file_node(target).mtim == old(self).file_node(target).mtim
                &&& final(self).file_node(target).ctim == old(self).file_node(target).ctim
                &&& forall|t: u64|
                    t < old(self).node_count() && t != d && t != target ==> final(self).nodes@[t as int] == old(self).nodes@[t as int]
            }),
            final(self).lookup(d, old(self).children(d)[idx as int].name@) is None,
            forall|nm: Seq<char>|
                nm != old(self).children(d)[idx as int].name@ ==> final(self).lookup(d, nm) == old(self).lookup(d, nm),
    {
        let di = node_index(self, d);
        let ghost on = self.nodes@;
        let target = match &self.nodes[di] {
            Inode::Dir(dn) => dn.children[idx].serial,
            Inode::File(_) => {
                proof {
                    assert(false);
                }
                return ;
            },
        };
        proof {
            lemma_count_at_least(on[d as int]->Dir_0.children@, idx as int, target);
            lemma_naming_at_least(on, d as int, target);
        }
        let ti = node_index(self, target);
        let mut tmpf = Inode::Dir(
            DirInode { parent: None, children: Vec::new(), atim: 0, mtim: 0, ctim: 0 },
        );
        self.nodes.set_and_swap(ti, &mut tmpf);
        match tmpf {
            Inode::File(mut f) => {
                f.nlink = f.nlink - 1;
                self.nodes.set(ti, Inode::File(f));
            },
            Inode::Dir(dn) => {
                proof {
                    assert(false);
                }
                self.nodes.set(ti, Inode::Dir(dn));
            },
        }
        let ghost mid = self.nodes@;
        let mut tmp = Inode::Dir(
            DirInode { parent: None, children: Vec::new(), atim: 0, mtim: 0, ctim: 0 },
        );
        self.nodes.set_and_swap(di, &mut tmp);
        match tmp {
            Inode::Dir(mut dn) => {
                let _removed = dn.children.remove(idx);
                self.nodes.set(di, Inode::Dir(dn));
            },
            Inode::File(f) => {
                proof {
                    assert(false);
                }
                self.nodes.set(di, Inode::File(f));
            },
        }
        proof {
            let dd = d as int;
            let tt = target as int;
            let fin = self.nodes@;
            let newd = fin[dd];
            let oldd = on[dd];
            let ocs = oldd->Dir_0.children@;
            assert(mid =~= on.update(tt, mid[tt]));
            assert(fin =~= mid.update(dd, newd));
            assert(newd is Dir);
            assert(newd->Dir_0.children@ =~= ocs.remove(idx as int));
            assert(newd->Dir_0.parent == oldd->Dir_0.parent);
            assert(children_wf(ocs, on.len()));
            assert(children_wf(newd->Dir_0.children@, fin.len())) by {
                assert forall|i: int, j: int|
                    #![trigger newd->Dir_0.children@[i], newd->Dir_0.children@[j]]
                    0 <= i < j < newd->Dir_0.children@.len() implies newd->Dir_0.children@[i].name@
                    != newd->Dir_0.children@[j].name@ by {
                    let ii = if i < idx as int {
                        i
                    } else {
                        i + 1
                    };
                    let jj = if j < idx as int {
                        j
                    } else {
                        j + 1
                    };
                    assert(newd->Dir_0.children@[i] == ocs[ii]);
                    assert(newd->Dir_0.children@[j] == ocs[jj]);
                }
            }
            assert forall|t: int|
                0 <= t < fin.len() && fin[t] is Dir implies children_wf(
                (#[trigger] fin[t])->Dir_0.children@,
                fin.len(),
            ) by {
                if t != dd {
                    assert(fin[t] == on[t]);
                    assert(children_wf(on[t]->Dir_0.children@, on.len()));
                }
            }
            assert forall|t: int|
                0 <= t < fin.len() && (#[trigger] fin[t]) is File implies fin[t]->File_0.nlink
                as nat == naming_count(fin, t as u64) by {
                let tu = t as u64;
                lemma_naming_update(on, tt, mid[tt], tu);
                lemma_naming_update(mid, dd, newd, tu);
                lemma_count_in_remove(ocs, idx as int, tu);
                if t != tt {
                    assert(fin[t] == on[t]);
                }
            }
            assert forall|nm: Seq<char>| nm != ocs[idx as int].name@ implies final(self).lookup(d, nm) == old(self).lookup(d, nm) by {
                lemma_lookup_remove(ocs, idx as int, nm);
            }
            lemma_lookup_remove(ocs, idx as int, ocs[idx as int].name@);
        }
    }

    /// Removes the entry at `idx` of directory `d`, which names a
    /// directory.  Directories are never multiply named, so the removed
    /// node simply becomes unreachable.
    fn remove_entry_dir(&mut self, d: u64, idx: usize) -> (r: ())
        requires
            old(self).wf(),
            old(self).is_dir(d),
            idx < old(self).children(d).len(),
            old(self).is_dir(old(self).children(d)[idx as int].serial),
        ensures
            final(self).wf(),
            final(self).extends(*old(self)),
            final(self).node_count() == old(self).node_count(),
            final(self).children(d) == old(self).children(d).remove(idx as int),
            final(self).dir_node(d).parent == old(self).dir_node(d).parent,
            final(self).dir_node(d).atim == old(self).dir_node(d).atim,
            final(self).dir_node(d).mtim == old(self).dir_node(d).mtim,
            final(self).dir_node(d).ctim == old(self).dir_node(d).ctim,
            forall|t: u64|
                t < old(self).node_count() && t != d ==> final(self).nodes@[t as int] == old(self).nodes@[t as int],
            final(self).lookup(d, old(self).children(d)[idx as int].name@) is None,
            forall|nm: Seq<char>|
                nm != old(self).children(d)[idx as int].name@ ==> final(self).lookup(d, nm) == old(self).lookup(d, nm),
    {
        let di = node_index(self, d);
        let ghost on = self.nodes@;
        let mut tmp = Inode::Dir(
            DirInode { parent: None, children: Vec::new(), atim: 0, mtim: 0, ctim: 0 },
        );
        self.nodes.set_and_swap(di, &mut tmp);
        match tmp {
            Inode::Dir(mut dn) => {
                let _removed = dn.children.remove(idx);
                self.nodes.set(di, Inode::Dir(dn));
            },
            Inode::File(f) => {
                proof {
                    assert(false);
                }
                self.nodes.set(di, Inode::File(f));
            },
        }
        proof {
            let dd = d as int;
            let fin = self.nodes@;
            let newd = fin[dd];
            let oldd = on[dd];
            let ocs = oldd->Dir_0.children@;
            assert(fin =~= on.update(dd, newd));
            assert(newd is Dir);
            assert(newd->Dir_0.children@ =~= ocs.remove(idx as int));
            assert(newd->Dir_0.parent == oldd->Dir_0.parent);
            assert(children_wf(ocs, on.len()));
            assert(children_wf(newd->Dir_0.children@, fin.len())) by {
                assert forall|i: int, j: int|
                    #![trigger newd->Dir_0.children@[i], newd->Dir_0.children@[j]]
                    0 <= i < j < newd->Dir_0.children@.len() implies newd->Dir_0.children@[i].name@
                    != newd->Dir_0.children@[j].name@ by {
                    let ii = if i < idx as int {
                        i
                    } else {
                        i + 1
                    };
                    let jj = if j < idx as int {
                        j
                    } else {
                        j + 1
                    };
                    assert(newd->Dir_0.children@[i] == ocs[ii]);
                    assert(newd->Dir_0.children@[j] == ocs[jj]);
                }
            }
            assert forall|t: int|
                0 <= t < fin.len() && fin[t] is Dir implies children_wf(
                (#[trigger] fin[t])->Dir_0.children@,
                fin.len(),
            ) by {
                if t != dd {
                    assert(fin[t] == on[t]);
                    assert(children_wf(on[t]->Dir_0.children@, on.len()));
                }
            }
            assert forall|t: int|
                0 <= t < fin.len() && (#[trigger] fin[t]) is File implies fin[t]->File_0.nlink
                as nat == naming_count(fin, t as u64) by {
                let tu = t as u64;
                lemma_naming_update(on, dd, newd, tu);
                lemma_count_in_remove(ocs, idx as int, tu);
                assert(fin[t] == on[t]);
            }
            assert forall|nm: Seq<char>| nm != ocs[idx as int].name@ implies final(self).lookup(d, nm) == old(self).lookup(d, nm) by {
                lemma_lookup_remove(ocs, idx as int, nm);
            }
            lemma_lookup_remove(ocs, idx as int, ocs[idx as int].name@);
        }
    }

    /// Redirects the entry at `idx` of directory `d`, which currently
    /// names a directory, to a fresh empty file node under the same name.
    fn replace_entry_with_new_file(&mut self, d: u64, idx: usize, now: u64) -> (s: u64)
        requires
            old(self).wf(),
            old(self).is_dir(d),
            idx < old(self).children(d).len(),
            old(self).is_dir(old(self).children(d)[idx as int].serial),
        ensures
            final(self).wf(),
            final(self).extends(*old(self)),
            s == old(self).node_count() as u64,
            final(self).node_count() == old(self).node_count() + 1,
            final(self).is_file(s),
            final(self).file_data(s) == Seq::<u8>::empty(),
            final(self).nlink_of(s) == 1,
            final(self).file_node(s).atim == now && final(self).file_node(s).mtim == now
                && final(self).file_node(s).ctim == now,
            final(self).children(d).len() == old(self).children(d).len(),
            final(self).children(d)[idx as int].name@ == old(self).children(d)[idx as int].name@,
            final(self).children(d)[idx as int].serial == s,
            forall|i: int|
                0 <= i < old(self).children(d).len() && i != idx ==> final(self).children(
                    d,
                )[i] == old(self).children(d)[i],
            final(self).dir_node(d).parent == old(self).dir_node(d).parent,
            final(self).dir_node(d).atim == old(self).dir_node(d).atim,
            final(self).dir_node(d).mtim == old(self).dir_node(d).mtim,
            final(self).dir_node(d).ctim == old(self).dir_node(d).ctim,
            forall|t: u64|
                t < old(self).node_count() && t != d ==> final(self).nodes@[t as int] == old(self).nodes@[t as int],
            final(self).lookup(d, old(self).children(d)[idx as int].name@) == Some(s),
            forall|nm: Seq<char>|
                nm != old(self).children(d)[idx as int].name@ ==> final(self).lookup(d, nm) == old(self).lookup(d, nm),
    {
        let ghost on = self.nodes@;
        let s = self.nodes.len() as u64;
        let file = FileInode { data: Vec::new(), nlink: 1, atim: now, mtim: now, ctim: now };
        self.nodes.push(Inode::File(file));
        let ghost mid = self.nodes@;
        let di = node_index(self, d);
        let mut tmp = Inode::Dir(
            DirInode { parent: None, children: Vec::new(), atim: 0, mtim: 0, ctim: 0 },
        );
        self.nodes.set_and_swap(di, &mut tmp);
        match tmp {
            Inode::Dir(mut dn) => {
                let mut e_tmp = DirEntry { name: String::new(), serial: s };
                dn.children.set_and_swap(idx, &mut e_tmp);
                let e_new = DirEntry { name: e_tmp.name, serial: s };
                dn.children.set(idx, e_new);
                self.nodes.set(di, Inode::Dir(dn));
            },
            Inode::File(f) => {
                proof {
                    assert(false);
                }
                self.nodes.set(di, Inode::File(f));
            },
        }
        proof {
            let dd = d as int;
            let fin = self.nodes@;
            let newd = fin[dd];
            let oldd = on[dd];
            let ocs = oldd->Dir_0.children@;
            let ge = newd->Dir_0.children@[idx as int];
            assert(fin =~= mid.update(dd, newd));
            assert(newd is Dir);
            assert(newd->Dir_0.children@ =~= ocs.update(idx as int, ge));
            assert(ge.name@ == ocs[idx as int].name@);
            assert(ge.serial == s);
            assert(newd->Dir_0.parent == oldd->Dir_0.parent);
            assert(children_wf(ocs, on.len()));
            assert(children_wf(newd->Dir_0.children@, fin.len())) by {
                assert forall|i: int, j: int|
                    #![trigger newd->Dir_0.children@[i], newd->Dir_0.children@[j]]
                    0 <= i < j < newd->Dir_0.children@.len() implies newd->Dir_0.children@[i].name@
                    != newd->Dir_0.children@[j].name@ by {
                    assert(newd->Dir_0.children@[i].name@ == ocs[i].name@);
                    assert(newd->Dir_0.children@[j].name@ == ocs[j].name@);
                }
            }
            assert forall|t: int|
                0 <= t < fin.len() && fin[t] is Dir implies children_wf(
                (#[trigger] fin[t])->Dir_0.children@,
                fin.len(),
            ) by {
                if t != dd && t < on.len() {
                    assert(fin[t] == on[t]);
                    assert(children_wf(on[t]->Dir_0.children@, on.len()));
                }
            }
            assert forall|t: int|
                0 <= t < fin.len() && (#[trigger] fin[t]) is File implies fin[t]->File_0.nlink
                as nat == naming_count(fin, t as u64) by {
                let tu = t as u64;
                lemma_naming_push(on, mid[on.len() as int], tu);
                lemma_naming_update(mid, dd, newd, tu);
                lemma_count_in_update(ocs, idx as int, ge, tu);
                if t < on.len() {
                    assert(fin[t] == on[t]);
                } else {
                    lemma_fresh_unnamed(on, tu);
                }
            }
            assert forall|nm: Seq<char>| nm != ocs[idx as int].name@ implies final(self).lookup(d, nm) == old(self).lookup(d, nm) by {
                lemma_lookup_update(ocs, idx as int, ge, nm);
            }
            lemma_lookup_update(ocs, idx as int, ge, ocs[idx as int].name@);
        }
        s
    }

    /// Stamps a file node's access time.
    fn touch_file_atim(&mut self, s: u64, now: u64) -> (r: ())
        requires
            old(self).wf(),
            old(self).is_file(s),
        ensures
            final(self).wf(),
            final(self).extends(*old(self)),
            final(self).node_count() == old(self).node_count(),
            final(self).is_file(s),
            final(self).file_node(s).atim == now,
            final(self).file_node(s).mtim == old(self).file_node(s).mtim,
            final(self).file_node(s).ctim == old(self).file_node(s).ctim,
            final(self).file_data(s) == old(self).file_data(s),
            final(self).nlink_of(s) == old(self).nlink_of(s),
            forall|t: u64|
                t < old(self).node_count() && t != s ==> final(self).nodes@[t as int] == old(self).nodes@[t as int],
    {
        let ghost on = self.nodes@;
        let ti = node_index(self, s);
        let mut tmpf = Inode::Dir(
            DirInode { parent: None, children: Vec::new(), atim: 0, mtim: 0, ctim: 0 },
        );
        self.nodes.set_and_swap(ti, &mut tmpf);
        match tmpf {
            Inode::File(mut f) => {
                f.atim = now;
                self.nodes.set(ti, Inode::File(f));
            },
            Inode::Dir(dn) => {
                proof {
                    assert(false);
                }
                self.nodes.set(ti, Inode::Dir(dn));
            },
        }
        proof {
            let tt = s as int;
            let fin = self.nodes@;
            assert(fin =~= on.update(tt, fin[tt]));
            assert forall|t: int|
                0 <= t < fin.len() && fin[t] is Dir implies children_wf(
                (#[trigger] fin[t])->Dir_0.children@,
                fin.len(),
            ) by {
                assert(fin[t] == on[t]);
                assert(children_wf(on[t]->Dir_0.children@, on.len()));
            }
            assert forall|t: int|
                0 <= t < fin.len() && (#[trigger] fin[t]) is File implies fin[t]->File_0.nlink
                as nat == naming_count(fin, t as u64) by {
                let tu = t as u64;
                lemma_naming_update(on, tt, fin[tt], tu);
                if t != tt {
                    assert(fin[t] == on[t]);
                }
            }
        }
    }
}

/// What holds after opening an existing file node `t`: its access time
/// is stamped, everything else about it and every other node is kept.
pub open spec fn opened_file_at(pre: Filesystem, post: Filesystem, t: u64, now: u64) -> bool {
    &&& post.node_count() == pre.node_count()
    &&& post.is_file(t)
    &&& post.file_data(t) == pre.file_data(t)
    &&& post.nlink_of(t) == pre.nlink_of(t)
    &&& post.file_node(t).atim == now
    &&& post.file_node(t).mtim == pre.file_node(t).mtim
    &&& post.file_node(t).ctim == pre.file_node(t).ctim
    &&& forall|t2: u64|
        t2 < pre.node_count() && t2 != t ==> post.nodes@[t2 as int] == pre.nodes@[t2 as int]
}

/// What holds after creating a fresh zero-length file under `name` in
/// directory `d`: the next serial now denotes an empty file with one
/// link, the name resolves to it, and nothing else moved.
pub open spec fn created_file_at(
    pre: Filesystem,
    post: Filesystem,
    d: u64,
    name: Seq<char>,
    now: u64,
) -> bool {
    let s = pre.node_count() as u64;
    &&& post.node_count() == pre.node_count() + 1
    &&& post.is_file(s)
    &&& post.file_data(s) == Seq::<u8>::empty()
    &&& post.nlink_of(s) == 1
    &&& post.file_node(s).atim == now
    &&& post.file_node(s).mtim == now
    &&& post.file_node(s).ctim == now
    &&& post.lookup(d, name) == Some(s)
    &&& (forall|nm: Seq<char>| nm != name ==> post.lookup(d, nm) == pre.lookup(d, nm))
    &&& (forall|t2: u64|
        t2 < pre.node_count() && t2 != d ==> post.nodes@[t2 as int] == pre.nodes@[t2 as int])
    &&& post.dir_node(d).parent == pre.dir_node(d).parent
    &&& post.dir_node(d).atim == pre.dir_node(d).atim
    &&& post.dir_node(d).mtim == pre.dir_node(d).mtim
    &&& post.dir_node(d).ctim == pre.dir_node(d).ctim
}

/// What one directory-listing entry at cursor `c` must hold: position 0
/// is the synthetic `.`, position 1 the synthetic `..` (the root lists
/// itself as its own parent), positions from 2 on are the real children
/// in order, and `next` always resumes right after this entry.
pub open spec fn entity_matches(fs: Filesystem, d: u64, c: u64, e: ReaddirEntity) -> bool
    recommends
        fs.is_dir(d),
{
    if c == 0 {
        e.filetype is Directory && e.inode == d && e.next == 1 && e.name@ == "."@
    } else if c == 1 {
        let p = match fs.parent_of(d) {
            Some(p) => p,
            None => d,
        };
        &&& e.inode == p
        &&& e.next == 2
        &&& e.name@ == ".."@
        &&& e.filetype == (if fs.is_dir(p) {
            FileType::Directory
        } else {
            FileType::RegularFile
        })
    } else if 2 <= c && c as int - 2 < fs.children(d).len() {
        let ent = fs.children(d)[c as int - 2];
        &&& e.inode == ent.serial
        &&& e.name@ == ent.name@
        &&& e.next == c + 1
        &&& e.filetype == (if fs.is_dir(ent.serial) {
            FileType::Directory
        } else {
            FileType::RegularFile
        })
    } else {
        false
    }
}

impl Dir {
    /// A directory capability is valid for the instance that issued it.
    pub open spec fn valid(&self, fs: &Filesystem) -> bool {
        self.instance == fs.instance && fs.is_dir(self.serial)
    }

    /// Resolves `path` to an existing directory and wraps it.  A
    /// trailing empty segment is accepted; a final component `.` denotes
    /// the resolved directory itself; any other final component must be
    /// an existing child directory.
    pub fn open_dir(&self, fs: &Filesystem, path: &str) -> (r: Result<Dir, FsError>)
        requires
            fs.wf(),
            self.valid(fs),
        ensures
            match fs.resolve_spec(self.serial, path@, true) {
                Err(e) => r == Err::<Dir, FsError>(e),
                Ok(p) => {
                    let d = p.0;
                    let name = p.1;
                    if name == "."@ {
                        r == Ok::<Dir, FsError>((Dir { instance: fs.instance, serial: d }))
                    } else {
                        match fs.lookup(d, name) {
                            Some(c) => if fs.is_dir(c) {
                                r == Ok::<Dir, FsError>((Dir { instance: fs.instance, serial: c }))
                            } else {
                                r == Err::<Dir, FsError>(FsError::NotFound)
                            },
                            None => r == Err::<Dir, FsError>(FsError::NotFound),
                        }
                    }
                },
            },
            r matches Ok(nd) ==> nd.valid(fs),
    {
        match resolve(fs, self.serial, path, true) {
            Err(e) => Err(e),
            Ok((d, name)) => {
                let dot: String = ".".to_owned();
                if name == dot {
                    return Ok(Dir { instance: fs.instance, serial: d });
                }
                let di = node_index(fs, d);
                let fe = match &fs.nodes[di] {
                    Inode::Dir(dn) => find_entry(&dn.children, &name),
                    Inode::File(_) => {
                        proof {
                            assert(false);
                        }
                        None
                    },
                };
                match fe {
                    None => Err(FsError::NotFound),
                    Some(idx) => {
                        let c = match &fs.nodes[di] {
                            Inode::Dir(dn) => dn.children[idx].serial,
                            Inode::File(_) => {
                                proof {
                                    assert(false);
                                }
                                0
                            },
                        };
                        let ci = node_index(fs, c);
                        if matches!(&fs.nodes[ci], Inode::Dir(_)) {
                            Ok(Dir { instance: fs.instance, serial: c })
                        } else {
                            Err(FsError::NotFound)
                        }
                    },
                }
            },
        }
    }

    /// Creates a new empty directory under the final name; the new node's
    /// parent back-reference is the resolved containing directory.
    pub fn create_dir(&self, fs: &mut Filesystem, path: &str, now: u64) -> (r: Result<
        (),
        FsError,
    >)
        requires
            old(fs).wf(),
            self.valid(&*old(fs)),
        ensures
            final(fs).wf(),
            final(fs).extends(*old(fs)),
            match old(fs).resolve_spec(self.serial, path@, true) {
                Err(e) => r == Err::<(), FsError>(e) && *final(fs) == *old(fs),
                Ok(p) => {
                    let d = p.0;
                    let name = p.1;
                    if old(fs).lookup(d, name) is Some || name == "."@ || name == ".."@ {
                        r == Err::<(), FsError>(FsError::AlreadyExists) && *final(fs) == *old(fs)
                    } else if old(fs).children(d).len() >= MAX_DIR_CHILDREN {
                        r == Err::<(), FsError>(FsError::Overflow) && *final(fs) == *old(fs)
                    } else {
                        let s = old(fs).node_count() as u64;
                        &&& r == Ok::<(), FsError>(())
                        &&& final(fs).node_count() == old(fs).node_count() + 1
                        &&& final(fs).is_dir(s)
                        &&& final(fs).children(s).len() == 0
                        &&& final(fs).parent_of(s) == Some(d)
                        &&& final(fs).dir_node(s).atim == now
                        &&& final(fs).dir_node(s).mtim == now
                        &&& final(fs).dir_node(s).ctim == now
                        &&& final(fs).lookup(d, name) == Some(s)
                        &&& final(fs).children(d).len() == old(fs).children(d).len() + 1
                        &&& final(fs).children(d)[old(fs).children(d).len() as int].name@ == name
                        &&& final(fs).children(d)[old(fs).children(d).len() as int].serial == s
                        &&& final(fs).children(d) == old(fs).children(d).push(
                            final(fs).children(d)[old(fs).children(d).len() as int],
                        )
                        &&& (forall|nm: Seq<char>|
                            nm != name ==> final(fs).lookup(d, nm) == old(fs).lookup(d, nm))
                        &&& (forall|t: u64|
                            t < old(fs).node_count() && t != d ==> final(fs).nodes@[t as int]
                                == old(fs).nodes@[t as int])
                        &&& final(fs).dir_node(d).atim == old(fs).dir_node(d).atim
                        &&& final(fs).dir_node(d).mtim == old(fs).dir_node(d).mtim
                        &&& final(fs).dir_node(d).ctim == old(fs).dir_node(d).ctim
                        &&& final(fs).dir_node(d).parent == old(fs).dir_node(d).parent
                    }
                },
            },
    {
        match resolve(fs, self.serial, path, true) {
            Err(e) => Err(e),
            Ok((d, name)) => {
                let dot: String = ".".to_owned();
                let dotdot: String = "..".to_owned();
                if name == dot || name == dotdot {
                    return Err(FsError::AlreadyExists);
                }
                let di = node_index(fs, d);
                let (exists, at_cap) = match &fs.nodes[di] {
                    Inode::Dir(dn) => (
                        find_entry(&dn.children, &name).is_some(),
                        dn.children.len() as u64 >= MAX_DIR_CHILDREN,
                    ),
                    Inode::File(_) => {
                        proof {
                            assert(false);
                        }
                        (false, false)
                    },
                };
                if exists {
                    return Err(FsError::AlreadyExists);
                }
                if at_cap {
                    return Err(FsError::Overflow);
                }
                fs.link_new_dir(d, name, now);
                Ok(())
            },
        }
    }

    /// Removes an empty directory: the name disappears and the node,
    /// never multiply named, becomes unreachable at once.
    pub fn remove_dir(&self, fs: &mut Filesystem, path: &str) -> (r: Result<(), FsError>)
        requires
            old(fs).wf(),
            self.valid(&*old(fs)),
        ensures
            final(fs).wf(),
            final(fs).extends(*old(fs)),
            match old(fs).resolve_spec(self.serial, path@, true) {
                Err(e) => r == Err::<(), FsError>(e) && *final(fs) == *old(fs),
                Ok(p) => {
                    let d = p.0;
                    let name = p.1;
                    match old(fs).lookup(d, name) {
                        None => r == Err::<(), FsError>(FsError::NotFound) && *final(fs) == *old(fs),
                        Some(t) => if old(fs).is_file(t) {
                            r == Err::<(), FsError>(FsError::NotADirectory) && *final(fs) == *old(fs)
                        } else if old(fs).children(t).len() != 0 {
                            r == Err::<(), FsError>(FsError::NotEmpty) && *final(fs) == *old(fs)
                        } else {
                            &&& r == Ok::<(), FsError>(())
                            &&& final(fs).node_count() == old(fs).node_count()
                            &&& final(fs).lookup(d, name) is None
                            &&& (forall|nm: Seq<char>|
                                nm != name ==> final(fs).lookup(d, nm) == old(fs).lookup(d, nm))
                            &&& (exists|i: int|
                                0 <= i < old(fs).children(d).len() && old(fs).children(
                                    d,
                                )[i].name@ == name && final(fs).children(d) == old(fs).children(
                                    d,
                                ).remove(i))
                            &&& (forall|t2: u64|
                                t2 < old(fs).node_count() && t2 != d ==> final(fs).nodes@[t2 as int] == old(fs).nodes@[t2 as int])
                        },
                    }
                },
            },
    {
        let ghost pre = *fs;
        match resolve(fs, self.serial, path, true) {
            Err(e) => Err(e),
            Ok((d, name)) => {
                let di = node_index(fs, d);
                let fe = match &fs.nodes[di] {
                    Inode::Dir(dn) => find_entry(&dn.children, &name),
                    Inode::File(_) => {
                        proof {
                            assert(false);
                        }
                        None
                    },
                };
                match fe {
                    None => Err(FsError::NotFound),
                    Some(idx) => {
                        let t = match &fs.nodes[di] {
                            Inode::Dir(dn) => dn.children[idx].serial,
                            Inode::File(_) => {
                                proof {
                                    assert(false);
                                }
                                0
                            },
                        };
                        let ti = node_index(fs, t);
                        match &fs.nodes[ti] {
                            Inode::File(_) => Err(FsError::NotADirectory),
                            Inode::Dir(tn) => {
                                if tn.children.len() > 0 {
                                    Err(FsError::NotEmpty)
                                } else {
                                    fs.remove_entry_dir(d, idx);
                                    proof {
                                        assert((idx as int) < pre.children(d).len() && pre.children(
                                            d,
                                        )[idx as int].name@ == name@ && fs.children(d)
                                            == pre.children(d).remove(idx as int));
                                    }
                                    Ok(())
                                }
                            },
                        }
                    },
                }
            },
        }
    }

    /// Removes a file name.  The target's link count drops by one; the
    /// node itself persists, so open handles keep reading and writing it.
    pub fn unlink_file(&self, fs: &mut Filesystem, path: &str) -> (r: Result<(), FsError>)
        requires
            old(fs).wf(),
            self.valid(&*old(fs)),
        ensures
            final(fs).wf(),
            final(fs).extends(*old(fs)),
            match old(fs).resolve_spec(self.serial, path@, false) {
                Err(e) => r == Err::<(), FsError>(e) && *final(fs) == *old(fs),
                Ok(p) => {
                    let d = p.0;
                    let name = p.1;
                    match old(fs).lookup(d, name) {
                        None => r == Err::<(), FsError>(FsError::NotFound) && *final(fs) == *old(fs),
                        Some(t) => if old(fs).is_dir(t) {
                            r == Err::<(), FsError>(FsError::IsADirectory) && *final(fs) == *old(fs)
                        } else {
                            &&& r == Ok::<(), FsError>(())
                            &&& final(fs).node_count() == old(fs).node_count()
                            &&& final(fs).lookup(d, name) is None
                            &&& (forall|nm: Seq<char>|
                                nm != name ==> final(fs).lookup(d, nm) == old(fs).lookup(d, nm))
                            &&& final(fs).is_file(t)
                            &&& final(fs).nlink_of(t) + 1 == old(fs).nlink_of(t)
                            &&& final(fs).file_data(t) == old(fs).file_data(t)
                            &&& (exists|i: int|
                                0 <= i < old(fs).children(d).len() && old(fs).children(
                                    d,
                                )[i].name@ == name && final(fs).children(d) == old(fs).children(
                                    d,
                                ).remove(i))
                            &&& (forall|t2: u64|
                                t2 < old(fs).node_count() && t2 != d && t2 != t ==> final(fs).nodes@[t2 as int] == old(fs).nodes@[t2 as int])
                        },
                    }
                },
            },
    {
        let ghost pre = *fs;
        match resolve(fs, self.serial, path, false) {
            Err(e) => Err(e),
            Ok((d, name)) => {
                let di = node_index(fs, d);
                let fe = match &fs.nodes[di] {
                    Inode::Dir(dn) => find_entry(&dn.children, &name),
                    Inode::File(_) => {
                        proof {
                            assert(false);
                        }
                        None
                    },
                };
                match fe {
                    None => Err(FsError::NotFound),
                    Some(idx) => {
                        let t = match &fs.nodes[di] {
                            Inode::Dir(dn) => dn.children[idx].serial,
                            Inode::File(_) => {
                                proof {
                                    assert(false);
                                }
                                0
                            },
                        };
                        let ti = node_index(fs, t);
                        if matches!(&fs.nodes[ti], Inode::Dir(_)) {
                            Err(FsError::IsADirectory)
                        } else {
                            fs.unlink_entry(d, idx);
                            proof {
                                assert(pre.is_file(t));
                                assert(fs.is_file(t));
                                assert((idx as int) < pre.children(d).len() && pre.children(
                                    d,
                                )[idx as int].name@ == name@ && fs.children(d) == pre.children(
                                    d,
                                ).remove(idx as int));
                            }
                            Ok(())
                        }
                    },
                }
            },
        }
    }

    /// Inserts a second name for an existing file.  The source must be a
    /// file of this same instance; afterwards both names own the one node
    /// and its link count says so.
    pub fn hard_link(
        &self,
        fs: &mut Filesystem,
        src_path: &str,
        dest_dir: &Dir,
        dest_path: &str,
    ) -> (r: Result<(), FsError>)
        requires
            old(fs).wf(),
            self.valid(&*old(fs)),
            dest_dir.instance == old(fs).instance ==> old(fs).is_dir(dest_dir.serial),
        ensures
            final(fs).wf(),
            final(fs).extends(*old(fs)),
            match old(fs).resolve_spec(self.serial, src_path@, false) {
                Err(e) => r == Err::<(), FsError>(e) && *final(fs) == *old(fs),
                Ok(p) => {
                    let sd = p.0;
                    let sname = p.1;
                    match old(fs).lookup(sd, sname) {
                        None => r == Err::<(), FsError>(FsError::NotFound) && *final(fs) == *old(fs),
                        Some(src) => if old(fs).is_dir(src) {
                            r == Err::<(), FsError>(FsError::PermissionDenied) && *final(fs)
                                == *old(fs)
                        } else if dest_dir.instance != old(fs).instance {
                            r == Err::<(), FsError>(FsError::NotSupported) && *final(fs) == *old(fs)
                        } else {
                            match old(fs).resolve_spec(dest_dir.serial, dest_path@, false) {
                                Err(e) => r == Err::<(), FsError>(e) && *final(fs) == *old(fs),
                                Ok(q) => {
                                    let dd = q.0;
                                    let dname = q.1;
                                    if old(fs).lookup(dd, dname) is Some || dname == "."@
                                        || dname == ".."@ {
                                        r == Err::<(), FsError>(FsError::AlreadyExists) && *final(fs) == *old(fs)
                                    } else if old(fs).children(dd).len() >= MAX_DIR_CHILDREN
                                        || old(fs).nlink_of(src) == u64::MAX {
                                        r == Err::<(), FsError>(FsError::Overflow) && *final(fs)
                                            == *old(fs)
                                    } else {
                                        &&& r == Ok::<(), FsError>(())
                                        &&& final(fs).node_count() == old(fs).node_count()
                                        &&& final(fs).lookup(dd, dname) == Some(src)
                                        &&& final(fs).nlink_of(src) == old(fs).nlink_of(src) + 1
                                        &&& final(fs).file_data(src) == old(fs).file_data(src)
                                        &&& final(fs).children(dd) == old(fs).children(dd).push(
                                            final(fs).children(dd).last(),
                                        )
                                        &&& final(fs).children(dd).last().name@ == dname
                                        &&& final(fs).children(dd).last().serial == src
                                        &&& (forall|nm: Seq<char>|
                                            nm != dname ==> final(fs).lookup(dd, nm) == old(fs).lookup(dd, nm))
                                        &&& (forall|t2: u64|
                                            t2 < old(fs).node_count() && t2 != dd && t2 != src
                                                ==> final(fs).nodes@[t2 as int] == old(fs).nodes@[t2 as int])
                                    }
                                },
                            }
                        },
                    }
                },
            },
    {
        match resolve(fs, self.serial, src_path, false) {
            Err(e) => Err(e),
            Ok((sd, sname)) => {
                let sdi = node_index(fs, sd);
                let fe = match &fs.nodes[sdi] {
                    Inode::Dir(dn) => find_entry(&dn.children, &sname),
                    Inode::File(_) => {
                        proof {
                            assert(false);
                        }
                        None
                    },
                };
                match fe {
                    None => Err(FsError::NotFound),
                    Some(sidx) => {
                        let src = match &fs.nodes[sdi] {
                            Inode::Dir(dn) => dn.children[sidx].serial,
                            Inode::File(_) => {
                                proof {
                                    assert(false);
                                }
                                0
                            },
                        };
                        let si = node_index(fs, src);
                        if matches!(&fs.nodes[si], Inode::Dir(_)) {
                            return Err(FsError::PermissionDenied);
                        }
                        if dest_dir.instance != fs.instance {
                            return Err(FsError::NotSupported);
                        }
                        match resolve(fs, dest_dir.serial, dest_path, false) {
                            Err(e) => Err(e),
                            Ok((dd, dname)) => {
                                let dot: String = ".".to_owned();
                                let dotdot: String = "..".to_owned();
                                if dname == dot || dname == dotdot {
                                    return Err(FsError::AlreadyExists);
                                }
                                let ddi = node_index(fs, dd);
                                let (exists, at_cap) = match &fs.nodes[ddi] {
                                    Inode::Dir(dn) => (
                                        find_entry(&dn.children, &dname).is_some(),
                                        dn.children.len() as u64 >= MAX_DIR_CHILDREN,
                                    ),
                                    Inode::File(_) => {
                                        proof {
                                            assert(false);
                                        }
                                        (false, false)
                                    },
                                };
                                if exists {
                                    return Err(FsError::AlreadyExists);
                                }
                                if at_cap {
                                    return Err(FsError::Overflow);
                                }
                                let nl = match &fs.nodes[si] {
                                    Inode::File(f) => f.nlink,
                                    Inode::Dir(_) => {
                                        proof {
                                            assert(false);
                                        }
                                        0
                                    },
                                };
                                if nl == u64::MAX {
                                    return Err(FsError::Overflow);
                                }
                                fs.link_existing(dd, dname, src);
                                Ok(())
                            },
                        }
                    },
                }
            },
        }
    }

    /// The metadata of this directory itself.
    pub fn get_filestat(&self, fs: &Filesystem) -> (r: Result<Filestat, FsError>)
        requires
            fs.wf(),
            self.valid(fs),
        ensures
            r == Ok::<Filestat, FsError>(fs.spec_stat(self.serial)),
    {
        Ok(fs.stat_of(self.serial))
    }

    /// The metadata of the node the path denotes.
    pub fn get_path_filestat(&self, fs: &Filesystem, path: &str) -> (r: Result<Filestat, FsError>)
        requires
            fs.wf(),
            self.valid(fs),
        ensures
            match fs.resolve_spec(self.serial, path@, false) {
                Err(e) => r == Err::<Filestat, FsError>(e),
                Ok(p) => match fs.lookup(p.0, p.1) {
                    None => r == Err::<Filestat, FsError>(FsError::NotFound),
                    Some(t) => r == Ok::<Filestat, FsError>(fs.spec_stat(t)),
                },
            },
    {
        match resolve(fs, self.serial, path, false) {
            Err(e) => Err(e),
            Ok((d, name)) => {
                let di = node_index(fs, d);
                let fe = match &fs.nodes[di] {
                    Inode::Dir(dn) => find_entry(&dn.children, &name),
                    Inode::File(_) => {
                        proof {
                            assert(false);
                        }
                        None
                    },
                };
                match fe {
                    None => Err(FsError::NotFound),
                    Some(idx) => {
                        let t = match &fs.nodes[di] {
                            Inode::Dir(dn) => dn.children[idx].serial,
                            Inode::File(_) => {
                                proof {
                                    assert(false);
                                }
                                0
                            },
                        };
                        Ok(fs.stat_of(t))
                    },
                }
            },
        }
    }

    /// One step of the directory listing at `cursor`; `None` once the
    /// listing is exhausted.  Restarting at any returned `next` token
    /// reproduces the remaining tail while the child set is unchanged.
    pub fn readdir_entry(&self, fs: &Filesystem, cursor: u64) -> (r: Option<ReaddirEntity>)
        requires
            fs.wf(),
            self.valid(fs),
        ensures
            (cursor as int >= fs.children(self.serial).len() + 2) <==> r is None,
            r matches Some(e) ==> entity_matches(*fs, self.serial, cursor, e),
    {
        let d = self.serial;
        let di = node_index(fs, d);
        match &fs.nodes[di] {
            Inode::Dir(dn) => {
                if cursor == 0 {
                    Some(
                        ReaddirEntity {
                            filetype: FileType::Directory,
                            inode: d,
                            next: 1,
                            name: ".".to_owned(),
                        },
                    )
                } else if cursor == 1 {
                    let p = match dn.parent {
                        Some(p) => p,
                        None => d,
                    };
                    let pi = node_index(fs, p);
                    let ft = match &fs.nodes[pi] {
                        Inode::Dir(_) => FileType::Directory,
                        Inode::File(_) => FileType::RegularFile,
                    };
                    Some(ReaddirEntity { filetype: ft, inode: p, next: 2, name: "..".to_owned() })
                } else {
                    let idx64 = cursor - 2;
                    if idx64 < dn.children.len() as u64 {
                        let idx = idx64 as usize;
                        let ent_serial = dn.children[idx].serial;
                        let ent_name = dn.children[idx].name.clone();
                        let ci = node_index(fs, ent_serial);
                        let ft = match &fs.nodes[ci] {
                            Inode::Dir(_) => FileType::Directory,
                            Inode::File(_) => FileType::RegularFile,
                        };
                        Some(
                            ReaddirEntity {
                                filetype: ft,
                                inode: ent_serial,
                                next: cursor + 1,
                                name: ent_name,
                            },
                        )
                    } else {
                        None
                    }
                }
            },
            Inode::File(_) => {
                proof {
                    assert(false);
                }
                None
            },
        }
    }

    /// The remaining directory listing from `cursor` on: for a directory
    /// of N children, a listing from cursor 0 yields exactly N + 2
    /// entries, and a listing from any later cursor yields exactly the
    /// remaining suffix.
    pub fn readdir(&self, fs: &Filesystem, cursor: u64) -> (r: Vec<ReaddirEntity>)
        requires
            fs.wf(),
            self.valid(fs),
        ensures
            r@.len() == (if cursor as int <= fs.children(self.serial).len() + 2 {
                fs.children(self.serial).len() + 2 - cursor as int
            } else {
                0
            }),
            forall|k: int|
                0 <= k < r@.len() ==> entity_matches(
                    *fs,
                    self.serial,
                    (cursor + k) as u64,
                    #[trigger] r@[k],
                ),
    {
        let mut out: Vec<ReaddirEntity> = Vec::new();
        let mut c = cursor;
        let ghost total = fs.children(self.serial).len() + 2;
        loop
            invariant
                fs.wf(),
                self.valid(fs),
                total == fs.children(self.serial).len() + 2,
                cursor <= c,
                c as int <= total || c == cursor,
                out@.len() == c - cursor,
                forall|k: int|
                    0 <= k < out@.len() ==> entity_matches(
                        *fs,
                        self.serial,
                        (cursor + k) as u64,
                        #[trigger] out@[k],
                    ),
            decreases (if c as int <= total {
                total - c as int + 1
            } else {
                1int
            }),
        {
            match self.readdir_entry(fs, c) {
                None => {
                    return out;
                },
                Some(e) => {
                    proof {
                        assert((c as int) < total);
                    }
                    out.push(e);
                    c = c + 1;
                },
            }
        }
    }

    /// Opens or creates a file under the final component of `path`.
    /// With `create` and `exclusive`, the name must be free and a fresh
    /// empty file is made; with `create` alone, an existing file is
    /// opened (stamping its access time) or a fresh one is made; with
    /// neither, only an existing file is opened.  The handle starts at
    /// offset 0 whatever the flags say.
    pub fn open_file(
        &self,
        fs: &mut Filesystem,
        path: &str,
        create: bool,
        exclusive: bool,
        read: bool,
        write: bool,
        fdflags: FdFlags,
        now: u64,
    ) -> (r: Result<File, FsError>)
        requires
            old(fs).wf(),
            self.valid(&*old(fs)),
        ensures
            final(fs).wf(),
            final(fs).extends(*old(fs)),
            match old(fs).resolve_spec(self.serial, path@, false) {
                Err(e) => r == Err::<File, FsError>(e) && *final(fs) == *old(fs),
                Ok(p) => {
                    let d = p.0;
                    let name = p.1;
                    if create && exclusive {
                        if old(fs).lookup(d, name) is Some || name == "."@ || name == ".."@ {
                            r == Err::<File, FsError>(FsError::AlreadyExists) && *final(fs)
                                == *old(fs)
                        } else if old(fs).children(d).len() >= MAX_DIR_CHILDREN {
                            r == Err::<File, FsError>(FsError::Overflow) && *final(fs) == *old(fs)
                        } else {
                            &&& created_file_at(*old(fs), *final(fs), d, name, now)
                            &&& r == Ok::<File, FsError>(
                                (File {
                                    instance: old(fs).instance,
                                    serial: old(fs).node_count() as u64,
                                    position: 0,
                                    mode: spec_mode(read, write),
                                    fdflags,
                                }),
                            )
                        }
                    } else if create {
                        match old(fs).lookup(d, name) {
                            Some(t) => if old(fs).is_file(t) {
                                &&& opened_file_at(*old(fs), *final(fs), t, now)
                                &&& r == Ok::<File, FsError>(
                                    (File {
                                        instance: old(fs).instance,
                                        serial: t,
                                        position: 0,
                                        mode: spec_mode(read, write),
                                        fdflags,
                                    }),
                                )
                            } else {
                                // the existing entry names a directory: the
                                // entry is redirected to a fresh file under
                                // the same name and the directory is orphaned
                                &&& created_file_at(*old(fs), *final(fs), d, name, now)
                                &&& r == Ok::<File, FsError>(
                                    (File {
                                        instance: old(fs).instance,
                                        serial: old(fs).node_count() as u64,
                                        position: 0,
                                        mode: spec_mode(read, write),
                                        fdflags,
                                    }),
                                )
                            },
                            None => if name == "."@ || name == ".."@ {
                                r == Err::<File, FsError>(FsError::AlreadyExists) && *final(fs)
                                    == *old(fs)
                            } else if old(fs).children(d).len() >= MAX_DIR_CHILDREN {
                                r == Err::<File, FsError>(FsError::Overflow) && *final(fs)
                                    == *old(fs)
                            } else {
                                &&& created_file_at(*old(fs), *final(fs), d, name, now)
                                &&& r == Ok::<File, FsError>(
                                    (File {
                                        instance: old(fs).instance,
                                        serial: old(fs).node_count() as u64,
                                        position: 0,
                                        mode: spec_mode(read, write),
                                        fdflags,
                                    }),
                                )
                            },
                        }
                    } else {
                        match old(fs).lookup(d, name) {
                            None => r == Err::<File, FsError>(FsError::NotFound) && *final(fs)
                                == *old(fs),
                            Some(t) => if old(fs).is_dir(t) {
                                r == Err::<File, FsError>(FsError::IsADirectory) && *final(fs)
                                    == *old(fs)
                            } else {
                                &&& opened_file_at(*old(fs), *final(fs), t, now)
                                &&& r == Ok::<File, FsError>(
                                    (File {
                                        instance: old(fs).instance,
                                        serial: t,
                                        position: 0,
                                        mode: spec_mode(read, write),
                                        fdflags,
                                    }),
                                )
                            },
                        }
                    }
                },
            },
            r matches Ok(h) ==> h.valid(&*final(fs)),
    {
        let mode = mode_for(read, write);
        match resolve(fs, self.serial, path, false) {
            Err(e) => Err(e),
            Ok((d, name)) => {
                let dot: String = ".".to_owned();
                let dotdot: String = "..".to_owned();
                let is_dots = name == dot || name == dotdot;
                let di = node_index(fs, d);
                let (fe, at_cap) = match &fs.nodes[di] {
                    Inode::Dir(dn) => (
                        find_entry(&dn.children, &name),
                        dn.children.len() as u64 >= MAX_DIR_CHILDREN,
                    ),
                    Inode::File(_) => {
                        proof {
                            assert(false);
                        }
                        (None, false)
                    },
                };
                if create && exclusive {
                    match fe {
                        Some(_) => Err(FsError::AlreadyExists),
                        None => {
                            if is_dots {
                                return Err(FsError::AlreadyExists);
                            }
                            if at_cap {
                                return Err(FsError::Overflow);
                            }
                            let s = fs.link_new_file(d, name, now);
                            Ok(File { instance: fs.instance, serial: s, position: 0, mode, fdflags })
                        },
                    }
                } else if create {
                    match fe {
                        Some(idx) => {
                            let t = match &fs.nodes[di] {
                                Inode::Dir(dn) => dn.children[idx].serial,
                                Inode::File(_) => {
                                    proof {
                                        assert(false);
                                    }
                                    0
                                },
                            };
                            let ti = node_index(fs, t);
                            if matches!(&fs.nodes[ti], Inode::File(_)) {
                                fs.touch_file_atim(t, now);
                                Ok(
                                    File {
                                        instance: fs.instance,
                                        serial: t,
                                        position: 0,
                                        mode,
                                        fdflags,
                                    },
                                )
                            } else {
                                let s = fs.replace_entry_with_new_file(d, idx, now);
                                Ok(
                                    File {
                                        instance: fs.instance,
                                        serial: s,
                                        position: 0,
                                        mode,
                                        fdflags,
                                    },
                                )
                            }
                        },
                        None => {
                            if is_dots {
                                return Err(FsError::AlreadyExists);
                            }
                            if at_cap {
                                return Err(FsError::Overflow);
                            }
                            let s = fs.link_new_file(d, name, now);
                            Ok(File { instance: fs.instance, serial: s, position: 0, mode, fdflags })
                        },
                    }
                } else {
                    match fe {
                        None => Err(FsError::NotFound),
                        Some(idx) => {
                            let t = match &fs.nodes[di] {
                                Inode::Dir(dn) => dn.children[idx].serial,
                                Inode::File(_) => {
                                    proof {
                                        assert(false);
                                    }
                                    0
                                },
                            };
                            let ti = node_index(fs, t);
                            if matches!(&fs.nodes[ti], Inode::Dir(_)) {
                                Err(FsError::IsADirectory)
                            } else {
                                fs.touch_file_atim(t, now);
                                Ok(
                                    File {
                                        instance: fs.instance,
                                        serial: t,
                                        position: 0,
                                        mode,
                                        fdflags,
                                    },
                                )
                            }
                        },
                    }
                }
            },
        }
    }

    /// Renaming is a declared placeholder, not a contract.
    pub fn rename(
        &self,
        fs: &Filesystem,
        src_path: &str,
        dest_dir: &Dir,
        dest_path: &str,
    ) -> (r: Result<(), FsError>)
        ensures
            r == Err::<(), FsError>(FsError::Unimplemented),
    {
        Err(FsError::Unimplemented)
    }

    /// Symbolic links are a declared placeholder, not a contract.
    pub fn symlink(&self, fs: &Filesystem, src_path: &str, dest_path: &str) -> (r: Result<
        (),
        FsError,
    >)
        ensures
            r == Err::<(), FsError>(FsError::Unimplemented),
    {
        Err(FsError::Unimplemented)
    }

    /// Reading links is a declared placeholder, not a contract.
    pub fn read_link(&self, fs: &Filesystem, path: &str) -> (r: Result<String, FsError>)
        ensures
            r == Err::<String, FsError>(FsError::Unimplemented),
    {
        Err(FsError::Unimplemented)
    }

    /// Setting times through a path is a declared placeholder, not a
    /// contract.
    pub fn set_times(
        &self,
        fs: &Filesystem,
        path: &str,
        atime: Option<crate::file::SystemTimeSpec>,
        mtime: Option<crate::file::SystemTimeSpec>,
    ) -> (r: Result<(), FsError>)
        ensures
            r == Err::<(), FsError>(FsError::Unimplemented),
    {
        Err(FsError::Unimplemented)
    }
}

/// The arena index of serial `s`; the cast to `usize` loses nothing
/// because the serial points into the arena.
pub(crate) fn node_index(fs: &Filesystem, s: u64) -> (i: usize)
    requires
        s < fs.nodes@.len(),
    ensures
        i as int == s as int,
        i < fs.nodes@.len(),
        fs.nodes@.len() <= usize::MAX,
{
    let n = fs.nodes.len();
    assert(s < n as u64);
    s as usize
}

/// The index of the first `/` of the string, if any.
fn find_slash(s: &str) -> (r: Option<usize>)
    ensures
        match r {
            Some(i) => first_slash(s@) == Some(i as int),
            None => first_slash(s@) is None,
        },
{
    let n = s.unicode_len();
    let mut i: usize = 0;
    while i < n
        invariant
            n == s@.len(),
            0 <= i <= n,
            forall|j: int| 0 <= j < i ==> s@[j] != '/',
        decreases n - i,
    {
        let c = s.get_char(i);
        if c == '/' {
            proof {
                lemma_first_slash(s@);
            }
            return Some(i);
        }
        i = i + 1;
    }
    proof {
        lemma_first_slash(s@);
    }
    None
}

/// The index of the entry carrying `name`, if any.
fn find_entry(cs: &Vec<DirEntry>, name: &String) -> (r: Option<usize>)
    ensures
        match r {
            Some(i) => i < cs@.len() && cs@[i as int].name@ == name@ && lookup_in(cs@, name@)
                == Some(cs@[i as int].serial),
            None => lookup_in(cs@, name@) is None,
        },
{
    let n = cs.len();
    let mut i: usize = 0;
    proof {
        assert(cs@.skip(0) =~= cs@);
    }
    while i < n
        invariant
            n == cs@.len(),
            0 <= i <= n,
            lookup_in(cs@, name@) == lookup_in(cs@.skip(i as int), name@),
        decreases n - i,
    {
        if cs[i].name == *name {
            proof {
                assert(cs@.skip(i as int)[0] == cs@[i as int]);
            }
            return Some(i);
        }
        proof {
            assert(cs@.skip(i as int)[0] == cs@[i as int]);
            assert(cs@.skip(i as int).drop_first() =~= cs@.skip(i as int + 1));
        }
        i = i + 1;
    }
    proof {
        assert(cs@.skip(n as int) =~= Seq::<DirEntry>::empty());
    }
    None
}

/// Walks `path` from directory `d` and hands back the directory that
/// holds the final component, together with that component.
fn resolve(fs: &Filesystem, d: u64, path: &str, accept_trailing: bool) -> (r: Result<
    (u64, String),
    FsError,
>)
    requires
        fs.wf(),
        fs.is_dir(d),
    ensures
        match r {
            Ok(p) => fs.resolve_spec(d, path@, accept_trailing) == Ok::<(u64, Seq<char>), FsError>(
                (p.0, p.1@),
            ) && fs.is_dir(p.0),
            Err(e) => fs.resolve_spec(d, path@, accept_trailing) == Err::<
                (u64, Seq<char>),
                FsError,
            >(e),
        },
    decreases path@.len(),
{
    match find_slash(path) {
        None => Ok((d, path.to_owned())),
        Some(i) => {
            proof {
                lemma_first_slash(path@);
            }
            let n = path.unicode_len();
            if i + 1 == n {
                if accept_trailing {
                    Ok((d, path.substring_char(0, i).to_owned()))
                } else {
                    Err(FsError::NotFound)
                }
            } else {
                let head = path.substring_char(0, i).to_owned();
                let rest = path.substring_char(i + 1, n);
                let di = node_index(fs, d);
                let dn = match &fs.nodes[di] {
                    Inode::Dir(dn) => dn,
                    Inode::File(_) => {
                        proof {
                            assert(false);
                        }
                        return Err(FsError::NotFound);
                    },
                };
                match find_entry(&dn.children, &head) {
                    None => Err(FsError::NotFound),
                    Some(idx) => {
                        let c = dn.children[idx].serial;
                        let ci = node_index(fs, c);
                        let is_dir_child = matches!(&fs.nodes[ci], Inode::Dir(_));
                        if is_dir_child {
                            resolve(fs, c, rest, accept_trailing)
                        } else {
                            Err(FsError::NotADirectory)
                        }
                    },
                }
            }
        },
    }
}

} // verus!
