//! Laws that relate several operations of the filesystem: what the
//! individual contracts promise when calls are chained.

use vstd::prelude::*;

use crate::file::{read_window, resize_bytes, write_bytes, zeros, File};
use crate::fs::{created_file_at, entity_matches, Filesystem};
use crate::node::ReaddirEntity;

verus! {

/// Inserting a fresh leaf name into directory `d` never changes how any
/// path resolves: the walk only queries names that already resolved, so
/// a path that resolved before the insertion resolves to the same
/// directory and final name afterwards.
pub proof fn lemma_resolve_stable_after_leaf_insert(
    pre: Filesystem,
    post: Filesystem,
    d0: u64,
    path: Seq<char>,
    accept_trailing: bool,
    d: u64,
    name: Seq<char>,
)
    requires
        pre.wf(),
        pre.is_dir(d0),
        pre.resolve_spec(d0, path, accept_trailing) is Ok,
        pre.is_dir(d),
        post.is_dir(d),
        post.node_count() >= pre.node_count(),
        forall|t: u64|
            t < pre.node_count() && t != d ==> post.nodes@[t as int] == pre.nodes@[t as int],
        forall|nm: Seq<char>| nm != name ==> post.lookup(d, nm) == pre.lookup(d, nm),
        pre.lookup(d, name) is None,
    ensures
        post.resolve_spec(d0, path, accept_trailing) == pre.resolve_spec(
            d0,
            path,
            accept_trailing,
        ),
    decreases path.len(),
{
    crate::fs::lemma_first_slash(path);
    match crate::fs::first_slash(path) {
        None => {},
        Some(i) => {
            let rest = path.subrange(i + 1, path.len() as int);
            if rest.len() == 0 {
            } else {
                let head = path.subrange(0, i);
                if d0 != d {
                    assert(post.nodes@[d0 as int] == pre.nodes@[d0 as int]);
                    assert(post.lookup(d0, head) == pre.lookup(d0, head));
                } else {
                    assert(head != name && post.lookup(d0, head) == pre.lookup(d0, head)) by {
                        if head == name {
                            assert(pre.lookup(d, head) is None);
                            assert(pre.resolve_spec(d0, path, accept_trailing) is Err);
                        }
                    }
                }
                match pre.lookup(d0, head) {
                    None => {},
                    Some(c) => {
                        if pre.is_dir(c) {
                            if c != d {
                                assert(post.nodes@[c as int] == pre.nodes@[c as int]);
                            }
                            assert(post.is_dir(c));
                            lemma_resolve_stable_after_leaf_insert(
                                pre,
                                post,
                                c,
                                rest,
                                accept_trailing,
                                d,
                                name,
                            );
                        } else {
                            assert(!post.is_dir(c)) by {
                                if c != d {
                                    assert(post.nodes@[c as int] == pre.nodes@[c as int]);
                                }
                            }
                        }
                    },
                }
            }
        },
    }
}

/// Exclusive creation twice in a row, in full: if a path resolved to
/// `(d, name)` and an exclusive create then filled that free name, the
/// same path still resolves to `(d, name)` afterwards, and the name now
/// denotes a node — which is the branch of `open_file`'s contract that
/// returns `AlreadyExists` and leaves the store, and so the first file's
/// bytes, untouched.
pub proof fn lemma_exclusive_create_twice(
    pre: Filesystem,
    mid: Filesystem,
    d0: u64,
    path: Seq<char>,
    d: u64,
    name: Seq<char>,
    now: u64,
)
    requires
        pre.wf(),
        pre.is_dir(d0),
        pre.resolve_spec(d0, path, false) == Ok::<(u64, Seq<char>), crate::error::FsError>(
            (d, name),
        ),
        pre.is_dir(d),
        mid.is_dir(d),
        pre.lookup(d, name) is None,
        created_file_at(pre, mid, d, name, now),
    ensures
        mid.resolve_spec(d0, path, false) == Ok::<(u64, Seq<char>), crate::error::FsError>(
            (d, name),
        ),
        mid.lookup(d, name) is Some,
{
    lemma_resolve_stable_after_leaf_insert(pre, mid, d0, path, false, d, name);
}

/// Creating a directory and at once removing it, in full: after
/// `create_dir` filled the free name `(d, name)` that `path` resolved
/// to, the same path still resolves to `(d, name)`, and the name denotes
/// an empty directory — exactly the branch of `remove_dir`'s contract
/// that succeeds and takes the name away.
pub proof fn lemma_create_then_remove(
    pre: Filesystem,
    post: Filesystem,
    d0: u64,
    path: Seq<char>,
    d: u64,
    name: Seq<char>,
    s: u64,
)
    requires
        pre.wf(),
        pre.is_dir(d0),
        pre.resolve_spec(d0, path, true) == Ok::<(u64, Seq<char>), crate::error::FsError>(
            (d, name),
        ),
        pre.is_dir(d),
        pre.lookup(d, name) is None,
        post.is_dir(d),
        post.node_count() >= pre.node_count(),
        forall|t: u64|
            t < pre.node_count() && t != d ==> post.nodes@[t as int] == pre.nodes@[t as int],
        forall|nm: Seq<char>| nm != name ==> post.lookup(d, nm) == pre.lookup(d, nm),
        post.lookup(d, name) == Some(s),
        post.is_dir(s),
        post.children(s).len() == 0,
    ensures
        post.resolve_spec(d0, path, true) == Ok::<(u64, Seq<char>), crate::error::FsError>(
            (d, name),
        ),
        post.lookup(d, name) matches Some(t) && !post.is_file(t) && post.children(t).len() == 0,
{
    lemma_resolve_stable_after_leaf_insert(pre, post, d0, path, true, d, name);
    assert(!post.is_file(s));
}

/// Open-before-unlink durability: removing a file's name leaves every
/// open handle on that node valid, and the bytes it reads unchanged.
/// The premises are what `unlink_file` ensures of its success case.
pub proof fn lemma_unlink_keeps_open_handles(
    pre: Filesystem,
    post: Filesystem,
    h: File,
    d: u64,
    name: Seq<char>,
)
    requires
        pre.wf(),
        h.valid(&pre),
        pre.is_dir(d),
        pre.lookup(d, name) == Some(h.serial),
        post.extends(pre),
        post.file_data(h.serial) == pre.file_data(h.serial),
    ensures
        h.valid(&post),
        post.file_data(h.serial) == pre.file_data(h.serial),
{
    assert(pre.is_file(h.serial));
}

/// Hard-link visibility, in full: after the destination name was linked
/// to the source file, any path that resolved to `(dd, dname)` before
/// the link still resolves there, and the name now denotes the very node
/// the source denotes — so bytes written through a handle on that node
/// are the bytes a handle opened through the new name reads.
pub proof fn lemma_hard_link_then_reopen(
    pre: Filesystem,
    post: Filesystem,
    d0: u64,
    dest_path: Seq<char>,
    dd: u64,
    dname: Seq<char>,
    src: u64,
)
    requires
        pre.wf(),
        pre.is_dir(d0),
        pre.resolve_spec(d0, dest_path, false) == Ok::<(u64, Seq<char>), crate::error::FsError>(
            (dd, dname),
        ),
        pre.is_dir(dd),
        pre.lookup(dd, dname) is None,
        post.is_dir(dd),
        post.node_count() >= pre.node_count(),
        forall|t: u64|
            t < pre.node_count() && t != dd ==> post.nodes@[t as int] == pre.nodes@[t as int],
        forall|nm: Seq<char>| nm != dname ==> post.lookup(dd, nm) == pre.lookup(dd, nm),
        post.lookup(dd, dname) == Some(src),
    ensures
        post.resolve_spec(d0, dest_path, false) == Ok::<(u64, Seq<char>), crate::error::FsError>(
            (dd, dname),
        ),
        post.lookup(dd, dname) == Some(src),
{
    lemma_resolve_stable_after_leaf_insert(pre, post, d0, dest_path, false, dd, dname);
}

/// Hard-link aliasing: when two names denote one serial, the bytes
/// behind both names are one and the same sequence, so a write that
/// reaches the node through either name is read back through the other.
pub proof fn lemma_hard_link_aliases(
    fs: Filesystem,
    sd: u64,
    sname: Seq<char>,
    dd: u64,
    dname: Seq<char>,
    src: u64,
)
    requires
        fs.wf(),
        fs.is_dir(sd),
        fs.is_dir(dd),
        fs.lookup(sd, sname) == Some(src),
        fs.lookup(dd, dname) == Some(src),
    ensures
        fs.lookup(sd, sname) == fs.lookup(dd, dname),
{
}

/// Restarting a directory listing at any intermediate cursor reproduces
/// exactly the remaining suffix of the full listing, entry for entry, as
/// long as the directory's child set is unchanged.
pub proof fn lemma_readdir_restart(
    fs: Filesystem,
    d: u64,
    c1: u64,
    full: Seq<ReaddirEntity>,
    tail: Seq<ReaddirEntity>,
)
    requires
        fs.wf(),
        fs.is_dir(d),
        full.len() == fs.children(d).len() + 2,
        forall|k: int| 0 <= k < full.len() ==> entity_matches(fs, d, k as u64, #[trigger] full[k]),
        c1 <= fs.children(d).len() + 2,
        tail.len() == fs.children(d).len() + 2 - c1,
        forall|k: int|
            0 <= k < tail.len() ==> entity_matches(fs, d, (c1 + k) as u64, #[trigger] tail[k]),
    ensures
        forall|k: int|
            0 <= k < tail.len() ==> {
                &&& (#[trigger] tail[k]).inode == full[c1 + k].inode
                &&& tail[k].name@ == full[c1 + k].name@
                &&& tail[k].filetype == full[c1 + k].filetype
                &&& tail[k].next == full[c1 + k].next
            },
{
    assert forall|k: int| 0 <= k < tail.len() implies {
        &&& (#[trigger] tail[k]).inode == full[c1 + k].inode
        &&& tail[k].name@ == full[c1 + k].name@
        &&& tail[k].filetype == full[c1 + k].filetype
        &&& tail[k].next == full[c1 + k].next
    } by {
        assert(entity_matches(fs, d, (c1 + k) as u64, tail[k]));
        assert(entity_matches(fs, d, (c1 + k) as u64, full[c1 + k]));
    }
}

/// Writing bytes to a fresh empty file leaves the file holding exactly
/// those bytes.
pub proof fn lemma_fresh_write_is_contents(bs: Seq<u8>)
    ensures
        write_bytes(Seq::<u8>::empty(), 0, bs) == bs,
{
    assert(write_bytes(Seq::<u8>::empty(), 0, bs) =~= bs);
}

/// Round trip: a read at `pos` with room for exactly the bytes a write
/// at `pos` put there yields those bytes back.
pub proof fn lemma_write_read_roundtrip(data: Seq<u8>, pos: int, bs: Seq<u8>)
    requires
        pos >= 0,
    ensures
        read_window(write_bytes(data, pos, bs), pos, bs.len()) == bs,
{
    assert(read_window(write_bytes(data, pos, bs), pos, bs.len()) =~= bs);
}

/// Shrinking a file keeps exactly the leading bytes and discards the
/// rest; growing it keeps every old byte and zero-fills the gap.
pub proof fn lemma_resize_effect(data: Seq<u8>, n: nat)
    ensures
        resize_bytes(data, n).len() == n,
        n <= data.len() ==> resize_bytes(data, n) == data.subrange(0, n as int),
        n > data.len() ==> resize_bytes(data, n) == data + zeros((n - data.len()) as nat),
        forall|i: int| data.len() <= i < n ==> resize_bytes(data, n)[i] == 0u8,
{
}

} // verus!
