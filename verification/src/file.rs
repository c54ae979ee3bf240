//! The open-file capability: per-handle cursor, access mode and flags,
//! layered over a file node of the store.

use vstd::prelude::*;

use crate::error::FsError;
use crate::fs::{node_index, Filesystem};
use crate::node::{lemma_naming_update, naming_count, DirInode, FileType, Filestat, Inode};
use vstd::pervasive::VecAdditionalExecFns;

verus! {

/// The access mode of an open file handle.
#[derive(Clone, Copy, PartialEq, Eq, Structural, Debug)]
pub enum FileMode {
    ReadOnly,
    WriteOnly,
    ReadWrite,
}

/// The per-handle flag bits.  Append mode restricts writes and seeks so
/// that explicit-offset writes and repositioning are refused.
#[derive(Clone, Copy, PartialEq, Eq, Structural, Debug)]
pub struct FdFlags {
    pub append: bool,
}

/// The origin of a seek.
#[derive(Clone, Copy, PartialEq, Eq, Structural, Debug)]
pub enum SeekFrom {
    Start(u64),
    Current(i64),
    End(i64),
}

/// A time to set: the clock's current instant, or an absolute one.
#[derive(Clone, Copy, PartialEq, Eq, Structural, Debug)]
pub enum SystemTimeSpec {
    SymbolicNow,
    Absolute(u64),
}

/// Access-pattern advice; the in-memory store ignores it.
#[derive(Clone, Copy, PartialEq, Eq, Structural, Debug)]
pub enum Advice {
    Normal,
    Sequential,
    Random,
    WillNeed,
    DontNeed,
    NoReuse,
}

/// The open-file capability: one per open call, with its own cursor.
/// Not itself part of the directory tree; the file node it names stays
/// alive for as long as any handle or directory entry names it.
#[derive(Clone, Copy, PartialEq, Eq, Structural, Debug)]
pub struct File {
    pub instance: u64,
    pub serial: u64,
    pub position: u64,
    pub mode: FileMode,
    pub fdflags: FdFlags,
}

impl File {
    /// A file capability is valid for the instance that issued it.
    pub open spec fn valid(&self, fs: &Filesystem) -> bool {
        self.instance == fs.instance && fs.is_file(self.serial)
    }

    pub open spec fn can_read(&self) -> bool {
        self.mode is ReadOnly || self.mode is ReadWrite
    }

    pub open spec fn can_write(&self) -> bool {
        self.mode is WriteOnly || self.mode is ReadWrite
    }

    fn is_read(&self) -> (r: bool)
        ensures
            r == self.can_read(),
    {
        matches!(self.mode, FileMode::ReadOnly | FileMode::ReadWrite)
    }

    fn is_write(&self) -> (r: bool)
        ensures
            r == self.can_write(),
    {
        matches!(self.mode, FileMode::WriteOnly | FileMode::ReadWrite)
    }

    fn is_append(&self) -> (r: bool)
        ensures
            r == self.fdflags.append,
    {
        self.fdflags.append
    }
}

/// The access mode an open call grants for the given read/write request.
pub open spec fn spec_mode(read: bool, write: bool) -> FileMode {
    if read && write {
        FileMode::ReadWrite
    } else if write {
        FileMode::WriteOnly
    } else {
        FileMode::ReadOnly
    }
}

/// The mode an open call grants.
pub(crate) fn mode_for(read: bool, write: bool) -> (m: FileMode)
    ensures
        m == spec_mode(read, write),
{
    if read && write {
        FileMode::ReadWrite
    } else if write {
        FileMode::WriteOnly
    } else {
        FileMode::ReadOnly
    }
}

/// A run of zero bytes.
pub open spec fn zeros(n: nat) -> Seq<u8> {
    Seq::new(n, |i| 0u8)
}

/// The buffer after truncating or zero-extending to exactly `n` bytes.
pub open spec fn resize_bytes(data: Seq<u8>, n: nat) -> Seq<u8> {
    if n <= data.len() {
        data.subrange(0, n as int)
    } else {
        data + zeros((n - data.len()) as nat)
    }
}

/// The length after writing `m` bytes at `pos`: the buffer grows exactly
/// as far as the write reaches.
pub open spec fn write_len(data: Seq<u8>, pos: int, m: nat) -> nat
    recommends
        pos >= 0,
{
    if data.len() >= pos + m {
        data.len()
    } else {
        (pos + m) as nat
    }
}

/// The buffer after writing `buf` at `pos`: bytes before `pos` are kept,
/// a gap past the old end is zero-filled, `buf` overlays from `pos` on,
/// and bytes after the write keep their old values.
pub open spec fn write_bytes(data: Seq<u8>, pos: int, buf: Seq<u8>) -> Seq<u8>
    recommends
        pos >= 0,
{
    Seq::new(
        write_len(data, pos, buf.len()),
        |i: int|
            if pos <= i < pos + buf.len() {
                buf[i - pos]
            } else if i < data.len() {
                data[i]
            } else {
                0u8
            },
    )
}

/// Where a read at `pos` starts: the position, capped at the end.
pub open spec fn read_start(data: Seq<u8>, pos: int) -> int
    recommends
        pos >= 0,
{
    if pos <= data.len() {
        pos
    } else {
        data.len() as int
    }
}

/// How many bytes a read at `pos` with room for `cap` bytes yields.
pub open spec fn read_count(data: Seq<u8>, pos: int, cap: nat) -> nat
    recommends
        pos >= 0,
{
    if cap <= (data.len() - read_start(data, pos)) as nat {
        cap
    } else {
        (data.len() - read_start(data, pos)) as nat
    }
}

/// The bytes a read at `pos` with room for `cap` bytes yields.
pub open spec fn read_window(data: Seq<u8>, pos: int, cap: nat) -> Seq<u8>
    recommends
        pos >= 0,
{
    data.subrange(read_start(data, pos), read_start(data, pos) + read_count(data, pos, cap) as int)
}

/// The combined room of the first `k` buffers.
pub open spec fn caps_prefix(bufs: Seq<Seq<u8>>, k: int) -> nat
    recommends
        k <= bufs.len(),
    decreases k,
{
    if k <= 0 {
        0
    } else {
        caps_prefix(bufs, k - 1) + bufs[k - 1].len()
    }
}

/// The first `k` buffers, joined.
pub open spec fn concat_prefix(bufs: Seq<Seq<u8>>, k: int) -> Seq<u8>
    recommends
        k <= bufs.len(),
    decreases k,
{
    if k <= 0 {
        Seq::<u8>::empty()
    } else {
        concat_prefix(bufs, k - 1) + bufs[k - 1]
    }
}

/// The views of a vector of byte buffers.
pub open spec fn views_of(bufs: Seq<Vec<u8>>) -> Seq<Seq<u8>> {
    bufs.map_values(|b: Vec<u8>| b@)
}

pub proof fn lemma_caps_prefix_monotone(bufs: Seq<Seq<u8>>, j: int, k: int)
    requires
        0 <= j <= k,
    ensures
        caps_prefix(bufs, j) <= caps_prefix(bufs, k),
    decreases k - j,
{
    if j < k {
        lemma_caps_prefix_monotone(bufs, j, k - 1);
    }
}

/// The byte count of the joined prefix is the prefix of the counts.
pub proof fn lemma_concat_prefix_len(bufs: Seq<Seq<u8>>, k: int)
    requires
        0 <= k <= bufs.len(),
    ensures
        concat_prefix(bufs, k).len() == caps_prefix(bufs, k),
    decreases k,
{
    if k > 0 {
        lemma_concat_prefix_len(bufs, k - 1);
    }
}

/// Reading with room `a + b` is reading with room `a` and then reading
/// on from where that stopped with room `b`.
pub proof fn lemma_read_count_chain(data: Seq<u8>, pos: int, a: nat, b: nat)
    requires
        pos >= 0,
    ensures
        read_count(data, pos, a + b) == read_count(data, pos, a) + read_count(
            data,
            pos + read_count(data, pos, a),
            b,
        ),
{
}

/// Replacing one file node by another with the same link count keeps the
/// store well formed: directory structure and name counts are untouched.
pub proof fn lemma_wf_file_update(pre: Filesystem, post: Filesystem, s: u64)
    requires
        pre.wf(),
        pre.is_file(s),
        post.instance == pre.instance,
        post.device_id == pre.device_id,
        post.nodes@.len() == pre.nodes@.len(),
        post.nodes@ == pre.nodes@.update(s as int, post.nodes@[s as int]),
        post.nodes@[s as int] is File,
        post.nodes@[s as int]->File_0.nlink == pre.nodes@[s as int]->File_0.nlink,
    ensures
        post.wf(),
        post.extends(pre),
{
    let on = pre.nodes@;
    let fin = post.nodes@;
    let tt = s as int;
    assert forall|t: int|
        0 <= t < fin.len() && fin[t] is Dir implies crate::fs::children_wf(
        (#[trigger] fin[t])->Dir_0.children@,
        fin.len(),
    ) by {
        assert(fin[t] == on[t]);
        assert(crate::fs::children_wf(on[t]->Dir_0.children@, on.len()));
    }
    assert forall|t: int|
        0 <= t < fin.len() && (#[trigger] fin[t]) is File implies fin[t]->File_0.nlink as nat
        == naming_count(fin, t as u64) by {
        let tu = t as u64;
        lemma_naming_update(on, tt, fin[tt], tu);
        if t != tt {
            assert(fin[t] == on[t]);
        }
    }
}

/// Reads from the file's buffer at `pos` into `buf`, filling as much of
/// `buf` as the bytes from `pos` to the end allow; the rest of `buf` is
/// left as it was.
pub(crate) fn file_read_at(fs: &Filesystem, s: u64, pos: u64, buf: &mut Vec<u8>) -> (n: usize)
    requires
        fs.wf(),
        fs.is_file(s),
    ensures
        n as nat == read_count(fs.file_data(s), pos as int, old(buf)@.len()),
        final(buf)@.len() == old(buf)@.len(),
        final(buf)@ == read_window(fs.file_data(s), pos as int, old(buf)@.len())
            + old(buf)@.subrange(n as int, old(buf)@.len() as int),
{
    let di = node_index(fs, s);
    let data = match &fs.nodes[di] {
        Inode::File(f) => &f.data,
        Inode::Dir(_) => {
            proof {
                assert(false);
            }
            return 0;
        },
    };
    let len = data.len();
    let start = if pos <= len as u64 {
        pos as usize
    } else {
        len
    };
    let avail = len - start;
    let cap = buf.len();
    let n = if cap <= avail {
        cap
    } else {
        avail
    };
    let mut k: usize = 0;
    while k < n
        invariant
            k <= n,
            n <= cap,
            cap == buf@.len(),
            start + n <= data@.len(),
            data@.len() <= usize::MAX,
            forall|i: int| 0 <= i < k ==> buf@[i] == data@[start + i],
            forall|i: int| k <= i < cap ==> buf@[i] == old(buf)@[i],
        decreases n - k,
    {
        let b = data[start + k];
        buf.set(k, b);
        k = k + 1;
    }
    proof {
        assert(buf@ =~= read_window(fs.file_data(s), pos as int, old(buf)@.len())
            + old(buf)@.subrange(n as int, old(buf)@.len() as int));
    }
    n
}

/// Writes `buf` into the file's buffer at byte offset `pos`, zero-filling
/// any gap past the old end; the buffer grows exactly as far as the write
/// reaches.  Timestamps are left as they were.
pub(crate) fn file_write_at(fs: &mut Filesystem, s: u64, pos: usize, buf: &Vec<u8>)
    requires
        old(fs).wf(),
        old(fs).is_file(s),
        pos + buf@.len() <= usize::MAX,
    ensures
        final(fs).wf(),
        final(fs).extends(*old(fs)),
        final(fs).node_count() == old(fs).node_count(),
        final(fs).is_file(s),
        final(fs).file_data(s) == write_bytes(old(fs).file_data(s), pos as int, buf@),
        final(fs).nlink_of(s) == old(fs).nlink_of(s),
        final(fs).file_node(s).atim == old(fs).file_node(s).atim,
        final(fs).file_node(s).mtim == old(fs).file_node(s).mtim,
        final(fs).file_node(s).ctim == old(fs).file_node(s).ctim,
        forall|t: u64|
            t < old(fs).node_count() && t != s ==> final(fs).nodes@[t as int] == old(fs).nodes@[t as int],
{
    let ghost pre = *fs;
    let ti = node_index(fs, s);
    let mut tmpf = Inode::Dir(
        DirInode { parent: None, children: Vec::new(), atim: 0, mtim: 0, ctim: 0 },
    );
    fs.nodes.set_and_swap(ti, &mut tmpf);
    match tmpf {
        Inode::File(mut f) => {
            let ghost data0 = f.data@;
            while f.data.len() < pos
                invariant
                    pos + buf@.len() <= usize::MAX,
                    f.data@.len() >= data0.len(),
                    f.data@.subrange(0, data0.len() as int) == data0,
                    forall|i: int| data0.len() <= i < f.data@.len() ==> f.data@[i] == 0u8,
                    f.data@.len() <= pos || f.data@.len() == data0.len(),
                    f.nlink == pre.nodes@[s as int]->File_0.nlink,
                    f.atim == pre.nodes@[s as int]->File_0.atim,
                    f.mtim == pre.nodes@[s as int]->File_0.mtim,
                    f.ctim == pre.nodes@[s as int]->File_0.ctim,
                decreases pos - f.data.len(),
            {
                f.data.push(0u8);
            }
            proof {
                assert(f.data@ =~= write_bytes(data0, pos as int, buf@.subrange(0, 0)));
            }
            let mut k: usize = 0;
            while k < buf.len()
                invariant
                    k <= buf@.len(),
                    pos + buf@.len() <= usize::MAX,
                    f.data@ == write_bytes(data0, pos as int, buf@.subrange(0, k as int)),
                    f.nlink == pre.nodes@[s as int]->File_0.nlink,
                    f.atim == pre.nodes@[s as int]->File_0.atim,
                    f.mtim == pre.nodes@[s as int]->File_0.mtim,
                    f.ctim == pre.nodes@[s as int]->File_0.ctim,
                decreases buf@.len() - k,
            {
                let b = buf[k];
                if pos + k < f.data.len() {
                    f.data.set(pos + k, b);
                } else {
                    proof {
                        assert(f.data@.len() == pos + k);
                    }
                    f.data.push(b);
                }
                proof {
                    assert(f.data@ =~= write_bytes(data0, pos as int, buf@.subrange(0, k + 1)));
                }
                k = k + 1;
            }
            proof {
                assert(buf@.subrange(0, buf@.len() as int) =~= buf@);
            }
            fs.nodes.set(ti, Inode::File(f));
        },
        Inode::Dir(dn) => {
            proof {
                assert(false);
            }
            fs.nodes.set(ti, Inode::Dir(dn));
        },
    }
    proof {
        assert(fs.nodes@ =~= pre.nodes@.update(s as int, fs.nodes@[s as int]));
        lemma_wf_file_update(pre, *fs, s);
    }
}

/// Truncates or zero-extends the file's buffer to exactly `n` bytes.
pub(crate) fn file_resize(fs: &mut Filesystem, s: u64, n: usize)
    requires
        old(fs).wf(),
        old(fs).is_file(s),
    ensures
        final(fs).wf(),
        final(fs).extends(*old(fs)),
        final(fs).node_count() == old(fs).node_count(),
        final(fs).is_file(s),
        final(fs).file_data(s) == resize_bytes(old(fs).file_data(s), n as nat),
        final(fs).nlink_of(s) == old(fs).nlink_of(s),
        final(fs).file_node(s).atim == old(fs).file_node(s).atim,
        final(fs).file_node(s).mtim == old(fs).file_node(s).mtim,
        final(fs).file_node(s).ctim == old(fs).file_node(s).ctim,
        forall|t: u64|
            t < old(fs).node_count() && t != s ==> final(fs).nodes@[t as int] == old(fs).nodes@[t as int],
{
    let ghost pre = *fs;
    let ti = node_index(fs, s);
    let mut tmpf = Inode::Dir(
        DirInode { parent: None, children: Vec::new(), atim: 0, mtim: 0, ctim: 0 },
    );
    fs.nodes.set_and_swap(ti, &mut tmpf);
    match tmpf {
        Inode::File(mut f) => {
            let ghost data0 = f.data@;
            if n <= f.data.len() {
                f.data.truncate(n);
            } else {
                while f.data.len() < n
                    invariant
                        data0.len() < n ==> {
                            &&& f.data@.len() >= data0.len()
                            &&& f.data@.len() <= n
                            &&& f.data@.subrange(0, data0.len() as int) == data0
                            &&& forall|i: int|
                                data0.len() <= i < f.data@.len() ==> f.data@[i] == 0u8
                        },
                        data0.len() >= n ==> f.data@ == data0,
                        f.nlink == pre.nodes@[s as int]->File_0.nlink,
                        f.atim == pre.nodes@[s as int]->File_0.atim,
                        f.mtim == pre.nodes@[s as int]->File_0.mtim,
                        f.ctim == pre.nodes@[s as int]->File_0.ctim,
                    decreases n - f.data.len(),
                {
                    f.data.push(0u8);
                }
            }
            proof {
                assert(f.data@ =~= resize_bytes(data0, n as nat));
            }
            fs.nodes.set(ti, Inode::File(f));
        },
        Inode::Dir(dn) => {
            proof {
                assert(false);
            }
            fs.nodes.set(ti, Inode::Dir(dn));
        },
    }
    proof {
        assert(fs.nodes@ =~= pre.nodes@.update(s as int, fs.nodes@[s as int]));
        lemma_wf_file_update(pre, *fs, s);
    }
}

/// Sets one or both of the file's access and modify times.
pub(crate) fn file_set_times(fs: &mut Filesystem, s: u64, atim: Option<u64>, mtim: Option<u64>)
    requires
        old(fs).wf(),
        old(fs).is_file(s),
    ensures
        final(fs).wf(),
        final(fs).extends(*old(fs)),
        final(fs).node_count() == old(fs).node_count(),
        final(fs).is_file(s),
        final(fs).file_data(s) == old(fs).file_data(s),
        final(fs).nlink_of(s) == old(fs).nlink_of(s),
        final(fs).file_node(s).atim == (match atim {
            Some(a) => a,
            None => old(fs).file_node(s).atim,
        }),
        final(fs).file_node(s).mtim == (match mtim {
            Some(m) => m,
            None => old(fs).file_node(s).mtim,
        }),
        final(fs).file_node(s).ctim == old(fs).file_node(s).ctim,
        forall|t: u64|
            t < old(fs).node_count() && t != s ==> final(fs).nodes@[t as int] == old(fs).nodes@[t as int],
{
    let ghost pre = *fs;
    let ti = node_index(fs, s);
    let mut tmpf = Inode::Dir(
        DirInode { parent: None, children: Vec::new(), atim: 0, mtim: 0, ctim: 0 },
    );
    fs.nodes.set_and_swap(ti, &mut tmpf);
    match tmpf {
        Inode::File(mut f) => {
            match atim {
                Some(a) => {
                    f.atim = a;
                },
                None => {},
            }
            match mtim {
                Some(m) => {
                    f.mtim = m;
                },
                None => {},
            }
            fs.nodes.set(ti, Inode::File(f));
        },
        Inode::Dir(dn) => {
            proof {
                assert(false);
            }
            fs.nodes.set(ti, Inode::Dir(dn));
        },
    }
    proof {
        assert(fs.nodes@ =~= pre.nodes@.update(s as int, fs.nodes@[s as int]));
        lemma_wf_file_update(pre, *fs, s);
    }
}

/// Writing `a` and then `b` right after it is one write of `a + b`.
pub proof fn lemma_write_chain(data: Seq<u8>, pos: int, a: Seq<u8>, b: Seq<u8>)
    requires
        pos >= 0,
    ensures
        write_bytes(write_bytes(data, pos, a), pos + a.len(), b) == write_bytes(data, pos, a + b),
{
    assert(write_bytes(write_bytes(data, pos, a), pos + a.len(), b) =~= write_bytes(
        data,
        pos,
        a + b,
    ));
}

/// The content of buffer `k` after a vectored read that fills the
/// buffers in order from `pos`: the bytes it received, then its old tail.
pub open spec fn scattered_buf(data: Seq<u8>, pos: int, ov: Seq<Seq<u8>>, k: int) -> Seq<u8>
    recommends
        pos >= 0,
        0 <= k < ov.len(),
{
    let cnt = read_count(data, pos, caps_prefix(ov, k));
    read_window(data, pos + cnt, ov[k].len()) + ov[k].subrange(
        read_count(data, pos + cnt, ov[k].len()) as int,
        ov[k].len() as int,
    )
}

/// A vectored read from `pos` turned the buffers `ov` into `nv`.
pub open spec fn scattered(data: Seq<u8>, pos: int, ov: Seq<Seq<u8>>, nv: Seq<Seq<u8>>) -> bool
    recommends
        pos >= 0,
{
    &&& nv.len() == ov.len()
    &&& forall|k: int| 0 <= k < ov.len() ==> #[trigger] nv[k] == scattered_buf(data, pos, ov, k)
}

/// How many bytes a vectored read from `pos` into the buffers yields.
pub open spec fn scatter_total(data: Seq<u8>, pos: int, ov: Seq<Seq<u8>>) -> nat
    recommends
        pos >= 0,
{
    read_count(data, pos, caps_prefix(ov, ov.len() as int))
}

/// Reads from `pos` into each buffer in order, stopping at the end of
/// the data; later buffers are left as they were.
pub(crate) fn read_into_bufs(fs: &Filesystem, s: u64, pos: u64, bufs: &mut Vec<Vec<u8>>) -> (n:
    u64)
    requires
        fs.wf(),
        fs.is_file(s),
    ensures
        final(bufs)@.len() == old(bufs)@.len(),
        n as nat == scatter_total(fs.file_data(s), pos as int, views_of(old(bufs)@)),
        scattered(fs.file_data(s), pos as int, views_of(old(bufs)@), views_of(final(bufs)@)),
        n == 0 || pos as int + n as int <= fs.file_data(s).len(),
        pos as int + n as int <= u64::MAX,
{
    let di = node_index(fs, s);
    let ghost data = fs.file_data(s);
    let dl = match &fs.nodes[di] {
        Inode::File(f) => f.data.len(),
        Inode::Dir(_) => {
            proof {
                assert(false);
            }
            0
        },
    };
    let ghost ov = views_of(old(bufs)@);
    let nb = bufs.len();
    let mut total: u64 = 0;
    let mut i: usize = 0;
    while i < nb
        invariant
            fs.wf(),
            fs.is_file(s),
            data == fs.file_data(s),
            data.len() == dl,
            dl <= usize::MAX,
            ov == views_of(old(bufs)@),
            nb == bufs@.len(),
            bufs@.len() == old(bufs)@.len(),
            i <= nb,
            total as nat == read_count(data, pos as int, caps_prefix(ov, i as int)),
            total == 0 || pos as int + total as int <= data.len(),
            forall|k: int|
                0 <= k < i ==> (#[trigger] bufs@[k])@ == scattered_buf(data, pos as int, ov, k),
            forall|k: int| i <= k < nb ==> bufs@[k] == old(bufs)@[k],
        decreases nb - i,
    {
        let mut b: Vec<u8> = Vec::new();
        bufs.set_and_swap(i, &mut b);
        proof {
            assert(ov[i as int] == old(bufs)@[i as int]@);
            if total > 0 {
                assert(pos as int + total as int <= data.len());
            }
        }
        let m = file_read_at(fs, s, pos + total, &mut b);
        bufs.set(i, b);
        proof {
            lemma_read_count_chain(data, pos as int, caps_prefix(ov, i as int), ov[i as int].len());
        }
        total = total + m as u64;
        i = i + 1;
    }
    proof {
        assert(views_of(final(bufs)@).len() == ov.len());
        assert forall|k: int| 0 <= k < ov.len() implies #[trigger] views_of(final(bufs)@)[k]
            == scattered_buf(data, pos as int, ov, k) by {
            assert(views_of(final(bufs)@)[k] == final(bufs)@[k]@);
        }
    }
    total
}

/// Writes the buffers in order at `pos`, growing the file as needed, or
/// refuses with an overflow when the write would pass the largest
/// possible buffer size.  Nothing is written in the refusing case.
pub(crate) fn write_bufs(fs: &mut Filesystem, s: u64, pos: u64, bufs: &Vec<Vec<u8>>) -> (r: Result<
    u64,
    FsError,
>)
    requires
        old(fs).wf(),
        old(fs).is_file(s),
    ensures
        final(fs).wf(),
        final(fs).extends(*old(fs)),
        ({
            let data = old(fs).file_data(s);
            let ov = views_of(bufs@);
            let total = caps_prefix(ov, ov.len() as int);
            if pos as int + total > usize::MAX {
                r == Err::<u64, FsError>(FsError::Overflow) && *final(fs) == *old(fs)
            } else {
                &&& r == Ok::<u64, FsError>(total as u64)
                &&& final(fs).file_data(s) == write_bytes(
                    data,
                    pos as int,
                    concat_prefix(ov, ov.len() as int),
                )
                &&& final(fs).node_count() == old(fs).node_count()
                &&& final(fs).is_file(s)
                &&& final(fs).nlink_of(s) == old(fs).nlink_of(s)
                &&& final(fs).file_node(s).atim == old(fs).file_node(s).atim
                &&& final(fs).file_node(s).mtim == old(fs).file_node(s).mtim
                &&& final(fs).file_node(s).ctim == old(fs).file_node(s).ctim
                &&& (forall|t: u64|
                    t < old(fs).node_count() && t != s ==> final(fs).nodes@[t as int] == old(fs).nodes@[t as int])
            }
        }),
{
    let ghost pre0 = *fs;
    let ghost ov = views_of(bufs@);
    let nb = bufs.len();
    if pos > usize::MAX as u64 {
        proof {
            lemma_caps_prefix_monotone(ov, 0, nb as int);
        }
        return Err(FsError::Overflow);
    }
    let pu = pos as usize;
    let mut total: usize = 0;
    let mut i: usize = 0;
    while i < nb
        invariant
            old(fs).wf(),
            old(fs).is_file(s),
            *fs == *old(fs),
            nb == bufs@.len(),
            ov == views_of(bufs@),
            i <= nb,
            total == caps_prefix(ov, i as int),
            (pu as int) == (pos as int),
            pu + total <= usize::MAX,
        decreases nb - i,
    {
        let bl = bufs[i].len();
        proof {
            assert(ov[i as int] == bufs@[i as int]@);
        }
        if bl > usize::MAX - pu - total {
            proof {
                lemma_caps_prefix_monotone(ov, i as int + 1, nb as int);
            }
            return Err(FsError::Overflow);
        }
        total = total + bl;
        i = i + 1;
    }
    let ghost data0 = fs.file_data(s);
    // the write reaches at least to `pos`: a gap past the old end is
    // zero-filled even when the buffers are empty
    let empty_first: Vec<u8> = Vec::new();
    file_write_at(fs, s, pu, &empty_first);
    let mut w: usize = 0;
    let mut j: usize = 0;
    while j < nb
        invariant
            nb == bufs@.len(),
            ov == views_of(bufs@),
            j <= nb,
            w == caps_prefix(ov, j as int),
            (pu as int) == (pos as int),
            pu + total <= usize::MAX,
            total == caps_prefix(ov, nb as int),
            fs.wf(),
            fs.is_file(s),
            fs.instance == pre0.instance,
            fs.device_id == pre0.device_id,
            fs.node_count() == pre0.node_count(),
            data0 == pre0.file_data(s),
            fs.file_data(s) == write_bytes(data0, pos as int, concat_prefix(ov, j as int)),
            fs.nlink_of(s) == pre0.nlink_of(s),
            fs.file_node(s).atim == pre0.file_node(s).atim,
            fs.file_node(s).mtim == pre0.file_node(s).mtim,
            fs.file_node(s).ctim == pre0.file_node(s).ctim,
            forall|t: u64|
                t < pre0.node_count() && t != s ==> fs.nodes@[t as int] == pre0.nodes@[t as int],
        decreases nb - j,
    {
        proof {
            lemma_caps_prefix_monotone(ov, j as int + 1, nb as int);
            lemma_concat_prefix_len(ov, j as int);
            lemma_write_chain(data0, pos as int, concat_prefix(ov, j as int), ov[j as int]);
            assert(ov[j as int] == bufs@[j as int]@);
        }
        file_write_at(fs, s, pu + w, &bufs[j]);
        let bl = bufs[j].len();
        w = w + bl;
        j = j + 1;
    }
    proof {
        assert forall|t: u64| #[trigger] pre0.is_dir(t) implies fs.is_dir(t) by {
            if t != s {
                assert(fs.nodes@[t as int] == pre0.nodes@[t as int]);
            }
        }
        assert forall|t: u64| #[trigger] pre0.is_file(t) implies fs.is_file(t) by {
            if t != s {
                assert(fs.nodes@[t as int] == pre0.nodes@[t as int]);
            }
        }
    }
    Ok(total as u64)
}

/// The time value an optional request resolves to: the clock's current
/// instant for the symbolic form, the given value for the absolute one.
pub open spec fn resolve_time(t: Option<SystemTimeSpec>, now: u64) -> Option<u64> {
    match t {
        None => None,
        Some(SystemTimeSpec::SymbolicNow) => Some(now),
        Some(SystemTimeSpec::Absolute(v)) => Some(v),
    }
}

impl File {
    /// Vectored read at the cursor: fills the buffers in order from the
    /// cursor and advances it by the bytes read.  Fails `BadDescriptor`
    /// without read access.
    pub fn read_vectored(&mut self, fs: &Filesystem, bufs: &mut Vec<Vec<u8>>) -> (r: Result<
        u64,
        FsError,
    >)
        requires
            fs.wf(),
            old(self).valid(fs),
        ensures
            final(self).instance == old(self).instance,
            final(self).serial == old(self).serial,
            final(self).mode == old(self).mode,
            final(self).fdflags == old(self).fdflags,
            !old(self).can_read() ==> r == Err::<u64, FsError>(FsError::BadDescriptor) && *final(self) == *old(self) && final(bufs)@ == old(bufs)@,
            old(self).can_read() ==> ({
                let data = fs.file_data(old(self).serial);
                let ov = views_of(old(bufs)@);
                let n = scatter_total(data, old(self).position as int, ov);
                &&& r == Ok::<u64, FsError>(n as u64)
                &&& scattered(data, old(self).position as int, ov, views_of(final(bufs)@))
                &&& final(self).position as int == old(self).position as int + n
            }),
    {
        if !self.is_read() {
            return Err(FsError::BadDescriptor);
        }
        let n = read_into_bufs(fs, self.serial, self.position, bufs);
        self.position = self.position + n;
        Ok(n)
    }

    /// Vectored read at an explicit offset; the cursor does not move.
    pub fn read_vectored_at(&self, fs: &Filesystem, bufs: &mut Vec<Vec<u8>>, offset: u64) -> (r:
        Result<u64, FsError>)
        requires
            fs.wf(),
            self.valid(fs),
        ensures
            !self.can_read() ==> r == Err::<u64, FsError>(FsError::BadDescriptor) && final(bufs)@
                == old(bufs)@,
            self.can_read() ==> ({
                let data = fs.file_data(self.serial);
                let ov = views_of(old(bufs)@);
                &&& r == Ok::<u64, FsError>(scatter_total(data, offset as int, ov) as u64)
                &&& scattered(data, offset as int, ov, views_of(final(bufs)@))
            }),
    {
        if !self.is_read() {
            return Err(FsError::BadDescriptor);
        }
        let n = read_into_bufs(fs, self.serial, offset, bufs);
        Ok(n)
    }

    /// Vectored write at the cursor: writes every buffer, growing the
    /// file and zero-filling any gap, and moves the cursor past the
    /// bytes written.  Fails `BadDescriptor` without write access.
    pub fn write_vectored(&mut self, fs: &mut Filesystem, bufs: &Vec<Vec<u8>>) -> (r: Result<
        u64,
        FsError,
    >)
        requires
            old(fs).wf(),
            old(self).valid(&*old(fs)),
        ensures
            final(fs).wf(),
            final(fs).extends(*old(fs)),
            final(self).instance == old(self).instance,
            final(self).serial == old(self).serial,
            final(self).mode == old(self).mode,
            final(self).fdflags == old(self).fdflags,
            !old(self).can_write() ==> r == Err::<u64, FsError>(FsError::BadDescriptor) && *final(self) == *old(self) && *final(fs) == *old(fs),
            old(self).can_write() ==> ({
                let s = old(self).serial;
                let data = old(fs).file_data(s);
                let ov = views_of(bufs@);
                let total = caps_prefix(ov, ov.len() as int);
                if old(self).position as int + total > usize::MAX {
                    r == Err::<u64, FsError>(FsError::Overflow) && *final(self) == *old(self)
                        && *final(fs) == *old(fs)
                } else {
                    &&& r == Ok::<u64, FsError>(total as u64)
                    &&& final(fs).file_data(s) == write_bytes(
                        data,
                        old(self).position as int,
                        concat_prefix(ov, ov.len() as int),
                    )
                    &&& final(self).position as int == old(self).position as int + total
                    &&& final(fs).node_count() == old(fs).node_count()
                    &&& final(fs).nlink_of(s) == old(fs).nlink_of(s)
                    &&& final(fs).file_node(s).mtim == old(fs).file_node(s).mtim
                    &&& final(fs).file_node(s).atim == old(fs).file_node(s).atim
                    &&& final(fs).file_node(s).ctim == old(fs).file_node(s).ctim
                    &&& (forall|t: u64|
                        t < old(fs).node_count() && t != s ==> final(fs).nodes@[t as int] == old(fs).nodes@[t as int])
                }
            }),
    {
        if !self.is_write() {
            return Err(FsError::BadDescriptor);
        }
        match write_bufs(fs, self.serial, self.position, bufs) {
            Err(e) => Err(e),
            Ok(n) => {
                self.position = self.position + n;
                Ok(n)
            },
        }
    }

    /// Vectored write at an explicit offset.  Refused in append mode or
    /// without write access; the cursor does not move.
    pub fn write_vectored_at(&self, fs: &mut Filesystem, bufs: &Vec<Vec<u8>>, offset: u64) -> (r:
        Result<u64, FsError>)
        requires
            old(fs).wf(),
            self.valid(&*old(fs)),
        ensures
            final(fs).wf(),
            final(fs).extends(*old(fs)),
            (!self.can_write() || self.fdflags.append) ==> r == Err::<u64, FsError>(
                FsError::BadDescriptor,
            ) && *final(fs) == *old(fs),
            (self.can_write() && !self.fdflags.append) ==> ({
                let s = self.serial;
                let data = old(fs).file_data(s);
                let ov = views_of(bufs@);
                let total = caps_prefix(ov, ov.len() as int);
                if offset as int + total > usize::MAX {
                    r == Err::<u64, FsError>(FsError::Overflow) && *final(fs) == *old(fs)
                } else {
                    &&& r == Ok::<u64, FsError>(total as u64)
                    &&& final(fs).file_data(s) == write_bytes(
                        data,
                        offset as int,
                        concat_prefix(ov, ov.len() as int),
                    )
                    &&& final(fs).node_count() == old(fs).node_count()
                    &&& final(fs).nlink_of(s) == old(fs).nlink_of(s)
                    &&& final(fs).file_node(s).mtim == old(fs).file_node(s).mtim
                    &&& final(fs).file_node(s).atim == old(fs).file_node(s).atim
                    &&& final(fs).file_node(s).ctim == old(fs).file_node(s).ctim
                    &&& (forall|t: u64|
                        t < old(fs).node_count() && t != s ==> final(fs).nodes@[t as int] == old(fs).nodes@[t as int])
                }
            }),
    {
        if !self.is_write() || self.is_append() {
            return Err(FsError::BadDescriptor);
        }
        write_bufs(fs, self.serial, offset, bufs)
    }

    /// Repositions the cursor.  In append mode only the zero-offset
    /// "where am I" query is permitted; otherwise the new absolute offset
    /// is computed from the start, the cursor or the end, and a negative
    /// or overflowing result is refused.
    pub fn seek(&mut self, fs: &Filesystem, pos: SeekFrom) -> (r: Result<u64, FsError>)
        requires
            fs.wf(),
            old(self).valid(fs),
        ensures
            final(self).instance == old(self).instance,
            final(self).serial == old(self).serial,
            final(self).mode == old(self).mode,
            final(self).fdflags == old(self).fdflags,
            old(self).fdflags.append ==> (match pos {
                SeekFrom::Current(d) => if d == 0 {
                    r == Ok::<u64, FsError>(old(self).position) && *final(self) == *old(self)
                } else {
                    r == Err::<u64, FsError>(FsError::BadDescriptor) && *final(self) == *old(self)
                },
                _ => r == Err::<u64, FsError>(FsError::BadDescriptor) && *final(self) == *old(self),
            }),
            !old(self).fdflags.append ==> (match pos {
                SeekFrom::Start(o) => r == Ok::<u64, FsError>(o) && final(self).position == o,
                SeekFrom::Current(d) => {
                    let v = old(self).position as int + d as int;
                    if 0 <= v <= u64::MAX {
                        r == Ok::<u64, FsError>(v as u64) && final(self).position as int == v
                    } else {
                        r == Err::<u64, FsError>(FsError::Overflow) && *final(self) == *old(self)
                    }
                },
                SeekFrom::End(d) => {
                    let v = fs.file_data(old(self).serial).len() + d as int;
                    if 0 <= v <= u64::MAX {
                        r == Ok::<u64, FsError>(v as u64) && final(self).position as int == v
                    } else {
                        r == Err::<u64, FsError>(FsError::Overflow) && *final(self) == *old(self)
                    }
                },
            }),
    {
        if self.is_append() {
            return match pos {
                SeekFrom::Current(d) => {
                    if d == 0 {
                        Ok(self.position)
                    } else {
                        Err(FsError::BadDescriptor)
                    }
                },
                _ => Err(FsError::BadDescriptor),
            };
        }
        let base: u64 = match pos {
            SeekFrom::Start(o) => {
                self.position = o;
                return Ok(o);
            },
            SeekFrom::Current(_) => self.position,
            SeekFrom::End(_) => {
                let di = node_index(fs, self.serial);
                match &fs.nodes[di] {
                    Inode::File(f) => f.data.len() as u64,
                    Inode::Dir(_) => {
                        proof {
                            assert(false);
                        }
                        0
                    },
                }
            },
        };
        let d: i64 = match pos {
            SeekFrom::Current(d) => d,
            SeekFrom::End(d) => d,
            SeekFrom::Start(_) => 0,
        };
        if d >= 0 {
            let du = d as u64;
            if base <= u64::MAX - du {
                self.position = base + du;
                Ok(self.position)
            } else {
                Err(FsError::Overflow)
            }
        } else {
            let m: u64 = if d == i64::MIN {
                9223372036854775808u64
            } else {
                (-d) as u64
            };
            proof {
                assert(m as int == -(d as int));
            }
            if base >= m {
                self.position = base - m;
                Ok(self.position)
            } else {
                Err(FsError::Overflow)
            }
        }
    }

    /// Like a read at the cursor that never advances it.
    pub fn peek(&self, fs: &Filesystem, buf: &mut Vec<u8>) -> (r: Result<u64, FsError>)
        requires
            fs.wf(),
            self.valid(fs),
        ensures
            !self.can_read() ==> r == Err::<u64, FsError>(FsError::BadDescriptor) && final(buf)@
                == old(buf)@,
            self.can_read() ==> ({
                let data = fs.file_data(self.serial);
                let n = read_count(data, self.position as int, old(buf)@.len());
                &&& r == Ok::<u64, FsError>(n as u64)
                &&& final(buf)@ == read_window(data, self.position as int, old(buf)@.len()) + old(buf)@.subrange(n as int, old(buf)@.len() as int)
            }),
    {
        if !self.is_read() {
            return Err(FsError::BadDescriptor);
        }
        let n = file_read_at(fs, self.serial, self.position, buf);
        Ok(n as u64)
    }

    /// The bytes between the cursor and the end of the file; zero when
    /// the cursor sits at or past the end.
    pub fn num_ready_bytes(&self, fs: &Filesystem) -> (r: Result<u64, FsError>)
        requires
            fs.wf(),
            self.valid(fs),
        ensures
            !self.can_read() ==> r == Err::<u64, FsError>(FsError::BadDescriptor),
            self.can_read() ==> r == Ok::<u64, FsError>(
                (if self.position as int <= fs.file_data(self.serial).len() {
                    fs.file_data(self.serial).len() - self.position as int
                } else {
                    0int
                }) as u64,
            ),
    {
        if !self.is_read() {
            return Err(FsError::BadDescriptor);
        }
        let di = node_index(fs, self.serial);
        let len = match &fs.nodes[di] {
            Inode::File(f) => f.data.len(),
            Inode::Dir(_) => {
                proof {
                    assert(false);
                }
                0
            },
        };
        let len64 = len as u64;
        if self.position <= len64 {
            Ok(len64 - self.position)
        } else {
            Ok(0)
        }
    }

    /// Truncates or zero-extends the file to exactly `size` bytes.
    pub fn set_filestat_size(&self, fs: &mut Filesystem, size: u64) -> (r: Result<(), FsError>)
        requires
            old(fs).wf(),
            self.valid(&*old(fs)),
        ensures
            final(fs).wf(),
            final(fs).extends(*old(fs)),
            size as int > usize::MAX ==> r == Err::<(), FsError>(FsError::Overflow) && *final(fs)
                == *old(fs),
            size as int <= usize::MAX ==> ({
                &&& r == Ok::<(), FsError>(())
                &&& final(fs).file_data(self.serial) == resize_bytes(
                    old(fs).file_data(self.serial),
                    size as nat,
                )
                &&& final(fs).node_count() == old(fs).node_count()
                &&& final(fs).nlink_of(self.serial) == old(fs).nlink_of(self.serial)
                &&& (forall|t: u64|
                    t < old(fs).node_count() && t != self.serial ==> final(fs).nodes@[t as int]
                        == old(fs).nodes@[t as int])
            }),
    {
        if size > usize::MAX as u64 {
            return Err(FsError::Overflow);
        }
        file_resize(fs, self.serial, size as usize);
        Ok(())
    }

    /// Grows the file to at least `offset + len` zero-filled bytes if it
    /// is currently shorter; fails `Overflow` when the sum wraps.
    pub fn allocate(&self, fs: &mut Filesystem, offset: u64, len: u64) -> (r: Result<(), FsError>)
        requires
            old(fs).wf(),
            self.valid(&*old(fs)),
        ensures
            final(fs).wf(),
            final(fs).extends(*old(fs)),
            offset as int + len as int > u64::MAX ==> r == Err::<(), FsError>(FsError::Overflow)
                && *final(fs) == *old(fs),
            offset as int + len as int <= u64::MAX ==> ({
                let size = offset as int + len as int;
                let cur = old(fs).file_data(self.serial).len() as int;
                if size <= cur {
                    r == Ok::<(), FsError>(()) && *final(fs) == *old(fs)
                } else if size > usize::MAX {
                    r == Err::<(), FsError>(FsError::Overflow) && *final(fs) == *old(fs)
                } else {
                    &&& r == Ok::<(), FsError>(())
                    &&& final(fs).file_data(self.serial) == resize_bytes(
                        old(fs).file_data(self.serial),
                        size as nat,
                    )
                    &&& final(fs).node_count() == old(fs).node_count()
                    &&& final(fs).nlink_of(self.serial) == old(fs).nlink_of(self.serial)
                    &&& (forall|t: u64|
                        t < old(fs).node_count() && t != self.serial ==> final(fs).nodes@[t as int] == old(fs).nodes@[t as int])
                }
            }),
    {
        if offset > u64::MAX - len {
            return Err(FsError::Overflow);
        }
        let size = offset + len;
        let di = node_index(fs, self.serial);
        let cur = match &fs.nodes[di] {
            Inode::File(f) => f.data.len(),
            Inode::Dir(_) => {
                proof {
                    assert(false);
                }
                0
            },
        };
        if size <= cur as u64 {
            return Ok(());
        }
        if size > usize::MAX as u64 {
            return Err(FsError::Overflow);
        }
        file_resize(fs, self.serial, size as usize);
        Ok(())
    }

    /// Sets the access and modify times to the clock's current instant
    /// or to explicit values.
    pub fn set_times(
        &self,
        fs: &mut Filesystem,
        atime: Option<SystemTimeSpec>,
        mtime: Option<SystemTimeSpec>,
        now: u64,
    ) -> (r: Result<(), FsError>)
        requires
            old(fs).wf(),
            self.valid(&*old(fs)),
        ensures
            final(fs).wf(),
            final(fs).extends(*old(fs)),
            r == Ok::<(), FsError>(()),
            final(fs).file_node(self.serial).atim == (match resolve_time(atime, now) {
                Some(v) => v,
                None => old(fs).file_node(self.serial).atim,
            }),
            final(fs).file_node(self.serial).mtim == (match resolve_time(mtime, now) {
                Some(v) => v,
                None => old(fs).file_node(self.serial).mtim,
            }),
            final(fs).file_node(self.serial).ctim == old(fs).file_node(self.serial).ctim,
            final(fs).file_data(self.serial) == old(fs).file_data(self.serial),
            final(fs).nlink_of(self.serial) == old(fs).nlink_of(self.serial),
            final(fs).node_count() == old(fs).node_count(),
            forall|t: u64|
                t < old(fs).node_count() && t != self.serial ==> final(fs).nodes@[t as int]
                    == old(fs).nodes@[t as int],
    {
        let a: Option<u64> = match atime {
            None => None,
            Some(SystemTimeSpec::SymbolicNow) => Some(now),
            Some(SystemTimeSpec::Absolute(v)) => Some(v),
        };
        let m: Option<u64> = match mtime {
            None => None,
            Some(SystemTimeSpec::SymbolicNow) => Some(now),
            Some(SystemTimeSpec::Absolute(v)) => Some(v),
        };
        file_set_times(fs, self.serial, a, m);
        Ok(())
    }

    /// The metadata of the open file's node.
    pub fn get_filestat(&self, fs: &Filesystem) -> (r: Result<Filestat, FsError>)
        requires
            fs.wf(),
            self.valid(fs),
        ensures
            r == Ok::<Filestat, FsError>(fs.spec_stat(self.serial)),
    {
        Ok(fs.stat_of(self.serial))
    }

    /// Nothing to flush for memory-backed storage.
    pub fn sync(&self) -> (r: Result<(), FsError>)
        ensures
            r == Ok::<(), FsError>(()),
    {
        Ok(())
    }

    /// Nothing to flush for memory-backed storage.
    pub fn datasync(&self) -> (r: Result<(), FsError>)
        ensures
            r == Ok::<(), FsError>(()),
    {
        Ok(())
    }

    /// Access-pattern advice is accepted and ignored.
    pub fn advise(&self, offset: u64, len: u64, advice: Advice) -> (r: Result<(), FsError>)
        ensures
            r == Ok::<(), FsError>(()),
    {
        Ok(())
    }

    /// An open-file capability always names a regular file.
    pub fn get_filetype(&self) -> (r: Result<FileType, FsError>)
        ensures
            r == Ok::<FileType, FsError>(FileType::RegularFile),
    {
        Ok(FileType::RegularFile)
    }

    pub fn get_fdflags(&self) -> (r: Result<FdFlags, FsError>)
        ensures
            r == Ok::<FdFlags, FsError>(self.fdflags),
    {
        Ok(self.fdflags)
    }

    pub fn set_fdflags(&mut self, fdflags: FdFlags) -> (r: Result<(), FsError>)
        ensures
            r == Ok::<(), FsError>(()),
            final(self).fdflags == fdflags,
            final(self).instance == old(self).instance,
            final(self).serial == old(self).serial,
            final(self).position == old(self).position,
            final(self).mode == old(self).mode,
    {
        self.fdflags = fdflags;
        Ok(())
    }
}

} // verus!
