use virtfs::{Dir, FdFlags, File, FileType, FsError, Filesystem, SeekFrom, SystemTimeSpec};

fn plain() -> FdFlags {
    FdFlags { append: false }
}

fn append() -> FdFlags {
    FdFlags { append: true }
}

fn new_fs(instance: u64) -> (Filesystem, Dir) {
    let fs = Filesystem::new(7, instance, 100);
    let root = fs.root();
    (fs, root)
}

fn write_all(f: &mut File, fs: &mut Filesystem, bytes: &[u8]) -> u64 {
    let bufs = vec![bytes.to_vec()];
    f.write_vectored(fs, &bufs).unwrap()
}

fn read_exact(f: &mut File, fs: &Filesystem, n: usize) -> Vec<u8> {
    let mut bufs = vec![vec![0u8; n]];
    let got = f.read_vectored(fs, &mut bufs).unwrap();
    assert_eq!(got, n as u64);
    bufs.pop().unwrap()
}

#[test]
fn exclusive_create_twice_fails_and_keeps_content() {
    let (mut fs, root) = new_fs(1);
    let mut f = root
        .open_file(&mut fs, "a.txt", true, true, true, true, plain(), 101)
        .unwrap();
    write_all(&mut f, &mut fs, b"hello");
    let second = root.open_file(&mut fs, "a.txt", true, true, true, true, plain(), 102);
    assert_eq!(second.unwrap_err(), FsError::AlreadyExists);
    f.seek(&fs, SeekFrom::Start(0)).unwrap();
    assert_eq!(read_exact(&mut f, &fs, 5), b"hello".to_vec());
}

#[test]
fn create_dir_then_remove_dir_succeeds() {
    let (mut fs, root) = new_fs(1);
    root.create_dir(&mut fs, "d", 101).unwrap();
    assert!(root.open_dir(&fs, "d").is_ok());
    root.remove_dir(&mut fs, "d").unwrap();
    assert_eq!(root.open_dir(&fs, "d").unwrap_err(), FsError::NotFound);
}

#[test]
fn remove_dir_nonempty_fails() {
    let (mut fs, root) = new_fs(1);
    root.create_dir(&mut fs, "d", 101).unwrap();
    root.create_dir(&mut fs, "d/e", 102).unwrap();
    assert_eq!(root.remove_dir(&mut fs, "d").unwrap_err(), FsError::NotEmpty);
}

#[test]
fn hard_link_write_visible_through_other_name() {
    let (mut fs, root) = new_fs(1);
    let mut fa = root
        .open_file(&mut fs, "a", true, false, true, true, plain(), 101)
        .unwrap();
    root.hard_link(&mut fs, "a", &root, "b").unwrap();
    write_all(&mut fa, &mut fs, b"xyz");
    let mut fb = root
        .open_file(&mut fs, "b", false, false, true, false, plain(), 103)
        .unwrap();
    assert_eq!(read_exact(&mut fb, &fs, 3), b"xyz".to_vec());
    let stat = fb.get_filestat(&fs).unwrap();
    assert_eq!(stat.nlink, 2);
}

#[test]
fn unlink_while_open_keeps_bytes_readable() {
    let (mut fs, root) = new_fs(1);
    let mut f = root
        .open_file(&mut fs, "a", true, false, true, true, plain(), 101)
        .unwrap();
    write_all(&mut f, &mut fs, b"keep");
    root.unlink_file(&mut fs, "a").unwrap();
    assert_eq!(
        root.open_file(&mut fs, "a", false, false, true, false, plain(), 103)
            .unwrap_err(),
        FsError::NotFound
    );
    f.seek(&fs, SeekFrom::Start(0)).unwrap();
    assert_eq!(read_exact(&mut f, &fs, 4), b"keep".to_vec());
}

#[test]
fn readdir_yields_dot_dotdot_then_children() {
    let (mut fs, root) = new_fs(1);
    root.create_dir(&mut fs, "d1", 101).unwrap();
    root.open_file(&mut fs, "f1", true, true, false, true, plain(), 102)
        .unwrap();
    root.create_dir(&mut fs, "d2", 103).unwrap();
    let all = root.readdir(&fs, 0);
    assert_eq!(all.len(), 5);
    assert_eq!(all[0].name, ".");
    assert_eq!(all[0].filetype, FileType::Directory);
    assert_eq!(all[1].name, "..");
    assert_eq!(all[1].filetype, FileType::Directory);
    assert_eq!(all[2].name, "d1");
    assert_eq!(all[3].name, "f1");
    assert_eq!(all[3].filetype, FileType::RegularFile);
    assert_eq!(all[4].name, "d2");
    for (k, e) in all.iter().enumerate() {
        assert_eq!(e.next, k as u64 + 1);
    }
}

#[test]
fn readdir_restart_reproduces_suffix() {
    let (mut fs, root) = new_fs(1);
    root.create_dir(&mut fs, "d1", 101).unwrap();
    root.create_dir(&mut fs, "d2", 102).unwrap();
    let all = root.readdir(&fs, 0);
    for start in 0..=all.len() {
        let tail = root.readdir(&fs, start as u64);
        assert_eq!(tail.len(), all.len() - start);
        for (k, e) in tail.iter().enumerate() {
            assert_eq!(e.name, all[start + k].name);
            assert_eq!(e.inode, all[start + k].inode);
            assert_eq!(e.next, all[start + k].next);
        }
    }
    assert!(root.readdir_entry(&fs, all.len() as u64).is_none());
}

#[test]
fn write_then_read_roundtrip() {
    let (mut fs, root) = new_fs(1);
    let mut f = root
        .open_file(&mut fs, "a", true, true, true, true, plain(), 101)
        .unwrap();
    let n = write_all(&mut f, &mut fs, b"roundtrip");
    assert_eq!(n, 9);
    f.seek(&fs, SeekFrom::Start(0)).unwrap();
    assert_eq!(read_exact(&mut f, &fs, 9), b"roundtrip".to_vec());
}

#[test]
fn truncate_discards_and_grow_zero_fills() {
    let (mut fs, root) = new_fs(1);
    let mut f = root
        .open_file(&mut fs, "a", true, true, true, true, plain(), 101)
        .unwrap();
    write_all(&mut f, &mut fs, b"abcdef");
    f.set_filestat_size(&mut fs, 3).unwrap();
    assert_eq!(f.get_filestat(&fs).unwrap().size, 3);
    f.set_filestat_size(&mut fs, 6).unwrap();
    f.seek(&fs, SeekFrom::Start(0)).unwrap();
    assert_eq!(read_exact(&mut f, &fs, 6), vec![b'a', b'b', b'c', 0, 0, 0]);
}

#[test]
fn sparse_write_zero_fills_gap() {
    let (mut fs, root) = new_fs(1);
    let mut f = root
        .open_file(&mut fs, "a", true, true, true, true, plain(), 101)
        .unwrap();
    f.seek(&fs, SeekFrom::Start(4)).unwrap();
    write_all(&mut f, &mut fs, b"zz");
    f.seek(&fs, SeekFrom::Start(0)).unwrap();
    assert_eq!(read_exact(&mut f, &fs, 6), vec![0, 0, 0, 0, b'z', b'z']);
}

#[test]
fn allocate_overflow_fails() {
    let (mut fs, root) = new_fs(1);
    let f = root
        .open_file(&mut fs, "a", true, true, true, true, plain(), 101)
        .unwrap();
    assert_eq!(f.allocate(&mut fs, u64::MAX, 1).unwrap_err(), FsError::Overflow);
}

#[test]
fn allocate_grows_short_file() {
    let (mut fs, root) = new_fs(1);
    let f = root
        .open_file(&mut fs, "a", true, true, true, true, plain(), 101)
        .unwrap();
    f.allocate(&mut fs, 2, 3).unwrap();
    assert_eq!(f.get_filestat(&fs).unwrap().size, 5);
    f.allocate(&mut fs, 0, 1).unwrap();
    assert_eq!(f.get_filestat(&fs).unwrap().size, 5);
}

#[test]
fn append_mode_seek_rules() {
    let (mut fs, root) = new_fs(1);
    let mut f = root
        .open_file(&mut fs, "a", true, true, true, true, append(), 101)
        .unwrap();
    write_all(&mut f, &mut fs, b"ab");
    assert_eq!(f.seek(&fs, SeekFrom::Current(0)).unwrap(), 2);
    assert_eq!(
        f.seek(&fs, SeekFrom::Start(0)).unwrap_err(),
        FsError::BadDescriptor
    );
    assert_eq!(
        f.seek(&fs, SeekFrom::Current(1)).unwrap_err(),
        FsError::BadDescriptor
    );
    assert_eq!(
        f.seek(&fs, SeekFrom::End(0)).unwrap_err(),
        FsError::BadDescriptor
    );
}

#[test]
fn append_mode_rejects_write_at() {
    let (mut fs, root) = new_fs(1);
    let mut f = root
        .open_file(&mut fs, "a", true, true, true, true, append(), 101)
        .unwrap();
    let bufs = vec![vec![1u8]];
    assert_eq!(
        f.write_vectored_at(&mut fs, &bufs, 0).unwrap_err(),
        FsError::BadDescriptor
    );
}

#[test]
fn cross_instance_hard_link_not_supported() {
    let (mut fs1, root1) = new_fs(1);
    let (mut fs2, root2) = new_fs(2);
    root1
        .open_file(&mut fs1, "a", true, true, false, true, plain(), 101)
        .unwrap();
    assert_eq!(
        root1.hard_link(&mut fs1, "a", &root2, "b").unwrap_err(),
        FsError::NotSupported
    );
    let _ = &mut fs2;
}

#[test]
fn hard_link_source_directory_denied() {
    let (mut fs, root) = new_fs(1);
    root.create_dir(&mut fs, "d", 101).unwrap();
    assert_eq!(
        root.hard_link(&mut fs, "d", &root, "e").unwrap_err(),
        FsError::PermissionDenied
    );
}

#[test]
fn path_resolution_walks_directories() {
    let (mut fs, root) = new_fs(1);
    root.create_dir(&mut fs, "a", 101).unwrap();
    root.create_dir(&mut fs, "a/b", 102).unwrap();
    let mut f = root
        .open_file(&mut fs, "a/b/c", true, true, true, true, plain(), 103)
        .unwrap();
    write_all(&mut f, &mut fs, b"deep");
    let sub = root.open_dir(&fs, "a/b").unwrap();
    let mut g = sub
        .open_file(&mut fs, "c", false, false, true, false, plain(), 104)
        .unwrap();
    assert_eq!(read_exact(&mut g, &fs, 4), b"deep".to_vec());
}

#[test]
fn dotdot_segment_fails_rather_than_ascending() {
    let (mut fs, root) = new_fs(1);
    root.create_dir(&mut fs, "a", 101).unwrap();
    root.open_file(&mut fs, "top", true, true, false, true, plain(), 102)
        .unwrap();
    let sub = root.open_dir(&fs, "a").unwrap();
    assert_eq!(
        sub.open_file(&mut fs, "../top", false, false, true, false, plain(), 103)
            .unwrap_err(),
        FsError::NotFound
    );
    assert_eq!(sub.open_dir(&fs, "..").unwrap_err(), FsError::NotFound);
}

#[test]
fn dot_denotes_directory_itself() {
    let (mut fs, root) = new_fs(1);
    root.create_dir(&mut fs, "a", 101).unwrap();
    let sub = root.open_dir(&fs, "a").unwrap();
    let same = sub.open_dir(&fs, ".").unwrap();
    assert_eq!(
        same.get_filestat(&fs).unwrap().inode,
        sub.get_filestat(&fs).unwrap().inode
    );
}

#[test]
fn file_in_the_middle_of_a_path_is_not_a_directory() {
    let (mut fs, root) = new_fs(1);
    root.open_file(&mut fs, "f", true, true, false, true, plain(), 101)
        .unwrap();
    assert_eq!(
        root.open_file(&mut fs, "f/x", false, false, true, false, plain(), 102)
            .unwrap_err(),
        FsError::NotADirectory
    );
}

#[test]
fn open_missing_file_not_found_and_directory_is_a_directory() {
    let (mut fs, root) = new_fs(1);
    root.create_dir(&mut fs, "d", 101).unwrap();
    assert_eq!(
        root.open_file(&mut fs, "nope", false, false, true, false, plain(), 102)
            .unwrap_err(),
        FsError::NotFound
    );
    assert_eq!(
        root.open_file(&mut fs, "d", false, false, true, false, plain(), 103)
            .unwrap_err(),
        FsError::IsADirectory
    );
}

#[test]
fn unlink_directory_and_remove_file_mismatches() {
    let (mut fs, root) = new_fs(1);
    root.create_dir(&mut fs, "d", 101).unwrap();
    root.open_file(&mut fs, "f", true, true, false, true, plain(), 102)
        .unwrap();
    assert_eq!(root.unlink_file(&mut fs, "d").unwrap_err(), FsError::IsADirectory);
    assert_eq!(root.remove_dir(&mut fs, "f").unwrap_err(), FsError::NotADirectory);
    assert_eq!(root.unlink_file(&mut fs, "nope").unwrap_err(), FsError::NotFound);
    assert_eq!(root.remove_dir(&mut fs, "nope").unwrap_err(), FsError::NotFound);
}

#[test]
fn access_mode_gating() {
    let (mut fs, root) = new_fs(1);
    let mut w = root
        .open_file(&mut fs, "a", true, true, false, true, plain(), 101)
        .unwrap();
    write_all(&mut w, &mut fs, b"x");
    let mut bufs = vec![vec![0u8; 1]];
    assert_eq!(
        w.read_vectored(&fs, &mut bufs).unwrap_err(),
        FsError::BadDescriptor
    );
    assert_eq!(w.num_ready_bytes(&fs).unwrap_err(), FsError::BadDescriptor);
    let mut r = root
        .open_file(&mut fs, "a", false, false, true, false, plain(), 102)
        .unwrap();
    let wb = vec![vec![1u8]];
    assert_eq!(
        r.write_vectored(&mut fs, &wb).unwrap_err(),
        FsError::BadDescriptor
    );
}

#[test]
fn peek_does_not_advance_cursor() {
    let (mut fs, root) = new_fs(1);
    let mut f = root
        .open_file(&mut fs, "a", true, true, true, true, plain(), 101)
        .unwrap();
    write_all(&mut f, &mut fs, b"abc");
    f.seek(&fs, SeekFrom::Start(0)).unwrap();
    let mut buf = vec![0u8; 2];
    assert_eq!(f.peek(&fs, &mut buf).unwrap(), 2);
    assert_eq!(buf, b"ab".to_vec());
    assert_eq!(f.num_ready_bytes(&fs).unwrap(), 3);
    assert_eq!(read_exact(&mut f, &fs, 3), b"abc".to_vec());
}

#[test]
fn read_at_explicit_offset_leaves_cursor() {
    let (mut fs, root) = new_fs(1);
    let mut f = root
        .open_file(&mut fs, "a", true, true, true, true, plain(), 101)
        .unwrap();
    write_all(&mut f, &mut fs, b"abcdef");
    let mut bufs = vec![vec![0u8; 2]];
    assert_eq!(f.read_vectored_at(&fs, &mut bufs, 2).unwrap(), 2);
    assert_eq!(bufs[0], b"cd".to_vec());
    assert_eq!(f.seek(&fs, SeekFrom::Current(0)).unwrap(), 6);
}

#[test]
fn write_at_explicit_offset_leaves_cursor() {
    let (mut fs, root) = new_fs(1);
    let mut f = root
        .open_file(&mut fs, "a", true, true, true, true, plain(), 101)
        .unwrap();
    write_all(&mut f, &mut fs, b"abcdef");
    let bufs = vec![b"ZZ".to_vec()];
    assert_eq!(f.write_vectored_at(&mut fs, &bufs, 1).unwrap(), 2);
    assert_eq!(f.seek(&fs, SeekFrom::Current(0)).unwrap(), 6);
    f.seek(&fs, SeekFrom::Start(0)).unwrap();
    assert_eq!(read_exact(&mut f, &fs, 6), b"aZZdef".to_vec());
}

#[test]
fn vectored_read_fills_buffers_in_order() {
    let (mut fs, root) = new_fs(1);
    let mut f = root
        .open_file(&mut fs, "a", true, true, true, true, plain(), 101)
        .unwrap();
    write_all(&mut f, &mut fs, b"abcde");
    f.seek(&fs, SeekFrom::Start(0)).unwrap();
    let mut bufs = vec![vec![0u8; 2], vec![9u8; 4]];
    assert_eq!(f.read_vectored(&fs, &mut bufs).unwrap(), 5);
    assert_eq!(bufs[0], b"ab".to_vec());
    assert_eq!(bufs[1], vec![b'c', b'd', b'e', 9]);
}

#[test]
fn seek_from_end_and_underflow() {
    let (mut fs, root) = new_fs(1);
    let mut f = root
        .open_file(&mut fs, "a", true, true, true, true, plain(), 101)
        .unwrap();
    write_all(&mut f, &mut fs, b"abcdef");
    assert_eq!(f.seek(&fs, SeekFrom::End(-2)).unwrap(), 4);
    assert_eq!(f.seek(&fs, SeekFrom::Current(-1)).unwrap(), 3);
    assert_eq!(f.seek(&fs, SeekFrom::Current(-4)).unwrap_err(), FsError::Overflow);
    assert_eq!(f.seek(&fs, SeekFrom::End(-7)).unwrap_err(), FsError::Overflow);
}

#[test]
fn filestat_reports_identity_and_times() {
    let (mut fs, root) = new_fs(9);
    let f = root
        .open_file(&mut fs, "a", true, true, true, true, plain(), 150)
        .unwrap();
    let st = f.get_filestat(&fs).unwrap();
    assert_eq!(st.device_id, 7);
    assert_eq!(st.filetype, FileType::RegularFile);
    assert_eq!(st.nlink, 1);
    assert_eq!(st.size, 0);
    assert_eq!(st.atim, Some(150));
    assert_eq!(st.mtim, Some(150));
    assert_eq!(st.ctim, Some(150));
    let rst = root.get_filestat(&fs).unwrap();
    assert_eq!(rst.filetype, FileType::Directory);
    assert_eq!(rst.inode, 0);
    assert_eq!(rst.size, 1);
    let pst = root.get_path_filestat(&fs, "a").unwrap();
    assert_eq!(pst.inode, st.inode);
}

#[test]
fn open_existing_touches_access_time_only() {
    let (mut fs, root) = new_fs(1);
    root.open_file(&mut fs, "a", true, true, true, true, plain(), 100)
        .unwrap();
    let f = root
        .open_file(&mut fs, "a", false, false, true, false, plain(), 222)
        .unwrap();
    let st = f.get_filestat(&fs).unwrap();
    assert_eq!(st.atim, Some(222));
    assert_eq!(st.mtim, Some(100));
    assert_eq!(st.ctim, Some(100));
}

#[test]
fn set_times_now_and_absolute() {
    let (mut fs, root) = new_fs(1);
    let f = root
        .open_file(&mut fs, "a", true, true, true, true, plain(), 100)
        .unwrap();
    f.set_times(
        &mut fs,
        Some(SystemTimeSpec::SymbolicNow),
        Some(SystemTimeSpec::Absolute(5)),
        333,
    )
    .unwrap();
    let st = f.get_filestat(&fs).unwrap();
    assert_eq!(st.atim, Some(333));
    assert_eq!(st.mtim, Some(5));
}

#[test]
fn unlink_one_of_two_links_decrements_count() {
    let (mut fs, root) = new_fs(1);
    root.open_file(&mut fs, "a", true, true, false, true, plain(), 101)
        .unwrap();
    root.hard_link(&mut fs, "a", &root, "b").unwrap();
    assert_eq!(root.get_path_filestat(&fs, "a").unwrap().nlink, 2);
    root.unlink_file(&mut fs, "a").unwrap();
    assert_eq!(root.get_path_filestat(&fs, "b").unwrap().nlink, 1);
}

#[test]
fn hard_link_to_taken_name_exists() {
    let (mut fs, root) = new_fs(1);
    root.open_file(&mut fs, "a", true, true, false, true, plain(), 101)
        .unwrap();
    root.open_file(&mut fs, "b", true, true, false, true, plain(), 102)
        .unwrap();
    assert_eq!(
        root.hard_link(&mut fs, "a", &root, "b").unwrap_err(),
        FsError::AlreadyExists
    );
    assert_eq!(
        root.hard_link(&mut fs, "nope", &root, "c").unwrap_err(),
        FsError::NotFound
    );
}

#[test]
fn placeholders_are_unimplemented() {
    let (mut fs, root) = new_fs(1);
    assert_eq!(
        root.rename(&fs, "a", &root, "b").unwrap_err(),
        FsError::Unimplemented
    );
    assert_eq!(
        root.symlink(&fs, "a", "b").unwrap_err(),
        FsError::Unimplemented
    );
    assert_eq!(root.read_link(&fs, "a").unwrap_err(), FsError::Unimplemented);
    assert_eq!(
        root.set_times(&fs, "a", None, None).unwrap_err(),
        FsError::Unimplemented
    );
    let _ = &mut fs;
}

#[test]
fn fdflags_and_filetype_accessors() {
    let (mut fs, root) = new_fs(1);
    let mut f = root
        .open_file(&mut fs, "a", true, true, true, true, plain(), 101)
        .unwrap();
    assert_eq!(f.get_filetype().unwrap(), FileType::RegularFile);
    assert_eq!(f.get_fdflags().unwrap(), FdFlags { append: false });
    f.set_fdflags(FdFlags { append: true }).unwrap();
    assert_eq!(f.get_fdflags().unwrap(), FdFlags { append: true });
    f.sync().unwrap();
    f.datasync().unwrap();
    f.advise(0, 0, virtfs::Advice::Normal).unwrap();
}

#[test]
fn set_filestat_size_overflow_guard() {
    let (mut fs, root) = new_fs(1);
    let f = root
        .open_file(&mut fs, "a", true, true, true, true, plain(), 101)
        .unwrap();
    if usize::MAX as u64 == u32::MAX as u64 {
        assert_eq!(
            f.set_filestat_size(&mut fs, u64::MAX).unwrap_err(),
            FsError::Overflow
        );
    } else {
        f.set_filestat_size(&mut fs, 0).unwrap();
    }
}

#[test]
fn trailing_slash_resolution() {
    let (mut fs, root) = new_fs(1);
    root.create_dir(&mut fs, "a", 101).unwrap();
    root.create_dir(&mut fs, "a/c", 102).unwrap();
    // a trailing empty segment is accepted: the separator is stripped
    assert!(root.open_dir(&fs, "a/").is_ok());
    assert!(root.open_dir(&fs, "a/c/").is_ok());
    root.create_dir(&mut fs, "b/", 103).unwrap();
    assert!(root.open_dir(&fs, "b").is_ok());
    root.remove_dir(&mut fs, "b/").unwrap();
    assert_eq!(root.open_dir(&fs, "b").unwrap_err(), FsError::NotFound);
    // without opting in, a trailing separator is rejected outright
    assert_eq!(
        root.open_file(&mut fs, "c/", true, false, true, true, plain(), 104)
            .unwrap_err(),
        FsError::NotFound
    );
}

#[test]
fn create_over_directory_name_replaces_entry() {
    let (mut fs, root) = new_fs(1);
    root.create_dir(&mut fs, "x", 101).unwrap();
    let mut f = root
        .open_file(&mut fs, "x", true, false, true, true, plain(), 102)
        .unwrap();
    write_all(&mut f, &mut fs, b"now a file");
    assert_eq!(
        root.get_path_filestat(&fs, "x").unwrap().filetype,
        FileType::RegularFile
    );
}

#[test]
fn creating_dot_or_dotdot_is_refused() {
    let (mut fs, root) = new_fs(1);
    assert_eq!(
        root.create_dir(&mut fs, ".", 101).unwrap_err(),
        FsError::AlreadyExists
    );
    assert_eq!(
        root.open_file(&mut fs, "..", true, true, true, true, plain(), 102)
            .unwrap_err(),
        FsError::AlreadyExists
    );
}

#[test]
fn serials_are_unique_and_increasing() {
    let (mut fs, root) = new_fs(1);
    let a = root
        .open_file(&mut fs, "a", true, true, true, true, plain(), 101)
        .unwrap();
    let b = root
        .open_file(&mut fs, "b", true, true, true, true, plain(), 102)
        .unwrap();
    let sa = a.get_filestat(&fs).unwrap().inode;
    let sb = b.get_filestat(&fs).unwrap().inode;
    assert!(sa > 0);
    assert!(sb > sa);
}
