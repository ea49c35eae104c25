//! Deterministic serialization of filesystem entries into a tar byte stream.
//!
//! Entries are modelled as plain values (path, kind, stat fields, extended
//! attributes, content); emitting an entry appends records whose bytes are a
//! function of those values and of the clamp time alone, which is what makes
//! the produced stream reproducible.  Hardlinks are resolved through a
//! `(device, inode)` table: the second sighting of an inode emits a link
//! record pointing at the first-seen path instead of repeating content.

use crate::pax::{pax_data, pax_data_spec, xattr_pairs, Xattr};
use vstd::prelude::*;
use vstd::utf8::encode_utf8;

verus! {

/// The bytes an archive builder has written so far to its in-memory sink.
pub uninterp spec fn tar_bytes(a: ArchiveBuilder) -> Seq<u8>;

/// What tar emits for a regular-file or directory entry: a header block,
/// the content, and zero padding to the next block boundary.
pub uninterp spec fn tar_data_record(
    path: Seq<char>,
    is_dir: bool,
    mode: u32,
    uid: u64,
    gid: u64,
    mtime: u64,
    content: Seq<u8>,
) -> Seq<u8>;

/// What tar emits for a symlink or hardlink entry: a header block naming the
/// link target, with no content.
pub uninterp spec fn tar_link_record(
    path: Seq<char>,
    target: Seq<char>,
    is_symlink: bool,
    mode: u32,
    uid: u64,
    gid: u64,
    mtime: u64,
) -> Seq<u8>;

/// What tar emits for a PAX extended-header record carrying `data`.
pub uninterp spec fn tar_pax_record(data: Seq<u8>) -> Seq<u8>;

/// Zero padding needed after `n` content bytes to reach a 512-byte boundary.
pub open spec fn pad512(n: nat) -> nat {
    if n % 512 == 0 {
        0nat
    } else {
        (512 - n % 512) as nat
    }
}

/// A run of `n` zero bytes.
pub open spec fn seq_zeros(n: nat) -> Seq<u8> {
    Seq::new(n, |i: int| 0u8)
}

/// What must hold of the character at position `i` of a path tar accepts:
/// no NUL; a slash neither leads, trails, nor follows another slash; and a
/// dot opening a component neither ends it nor forms `..`.
pub open spec fn path_char_ok(p: Seq<char>, i: int) -> bool
    recommends
        0 <= i < p.len(),
{
    &&& p[i] != 0 as char
    &&& (p[i] == '/' ==> 0 < i && i < p.len() - 1 && p[i - 1] != '/')
    &&& (((i == 0 || p[i - 1] == '/') && p[i] == '.') ==> (i + 1 < p.len() && p[i + 1] != '/'
        && !(p[i + 1] == '.' && (i + 2 == p.len() || p[i + 2] == '/'))))
}

/// A path tar accepts in an archive entry: nonempty, relative, with no NUL,
/// no empty component, and no `.` or `..` component.
pub open spec fn tar_path_ok(p: Seq<char>) -> bool {
    &&& 0 < p.len()
    &&& (forall|i: int| 0 <= i < p.len() ==> #[trigger] path_char_ok(p, i))
}

/// A link target tar accepts: nonempty and free of NUL.  Targets may be
/// absolute and may contain `.` or `..` components.
pub open spec fn tar_target_ok(p: Seq<char>) -> bool {
    &&& 0 < p.len()
    &&& (forall|i: int| 0 <= i < p.len() ==> p[i] != 0 as char)
}

pub proof fn lemma_path_ok_target_ok(p: Seq<char>)
    requires
        tar_path_ok(p),
    ensures
        tar_target_ok(p),
{
    assert(forall|i: int| 0 <= i < p.len() ==> #[trigger] path_char_ok(p, i));
    assert forall|i: int| 0 <= i < p.len() implies p[i] != 0 as char by {
        assert(path_char_ok(p, i));
    }
}

/// Whether the string is a path tar accepts in an archive entry.
pub fn check_tar_path(s: &str) -> (b: bool)
    ensures
        b == tar_path_ok(s@),
{
    let n = s.unicode_len();
    if n == 0 {
        return false;
    }
    let mut i: usize = 0;
    while i < n
        invariant
            0 < n == s@.len(),
            i <= n,
            forall|j: int| 0 <= j < i ==> #[trigger] path_char_ok(s@, j),
        decreases n - i,
    {
        let c = s.get_char(i);
        if c == 0 as char {
            assert(!path_char_ok(s@, i as int));
            return false;
        }
        if c == '/' {
            if i == 0 || i == n - 1 || s.get_char(i - 1) == '/' {
                assert(!path_char_ok(s@, i as int));
                return false;
            }
        }
        let at_start = i == 0 || s.get_char(i - 1) == '/';
        if c == '.' && at_start {
            if i + 1 >= n {
                assert(!path_char_ok(s@, i as int));
                return false;
            }
            let next = s.get_char(i + 1);
            if next == '/' {
                assert(!path_char_ok(s@, i as int));
                return false;
            }
            if next == '.' && (i + 2 == n || s.get_char(i + 2) == '/') {
                assert(!path_char_ok(s@, i as int));
                return false;
            }
        }
        assert(path_char_ok(s@, i as int));
        i = i + 1;
    }
    true
}

/// Whether the string is a link target tar accepts.
pub fn check_tar_target(s: &str) -> (b: bool)
    ensures
        b == tar_target_ok(s@),
{
    let n = s.unicode_len();
    if n == 0 {
        return false;
    }
    let mut i: usize = 0;
    while i < n
        invariant
            0 < n == s@.len(),
            i <= n,
            forall|j: int| 0 <= j < i ==> s@[j] != 0 as char,
        decreases n - i,
    {
        if s.get_char(i) == 0 as char {
            return false;
        }
        i = i + 1;
    }
    true
}

/// An in-memory tar stream under construction.  The struct is opaque to the
/// verifier because tar's builder type carries a std trait bound in its
/// declaration; `tar_bytes` names what it has written.
#[verifier::external_body]
pub struct ArchiveBuilder {
    inner: tar::Builder<Vec<u8>>,
}

impl ArchiveBuilder {
    /// The bytes written to the stream so far.
    pub open spec fn bytes(&self) -> Seq<u8> {
        tar_bytes(*self)
    }

    /// Relies on tar::Builder::new: a fresh builder has written nothing.
    #[verifier::external_body]
    pub fn new() -> (a: ArchiveBuilder)
        ensures
            tar_bytes(a) == Seq::<u8>::empty(),
    {
        ArchiveBuilder { inner: tar::Builder::new(Vec::new()) }
    }

    /// Relies on tar::Builder::append_data: it writes a header block built
    /// from the given fields, the content, and zero padding to the next
    /// 512-byte boundary; for a path under 100 bytes that is one header
    /// block.  Writing to an in-memory sink cannot fail, and the path shape
    /// admitted here is one tar encodes without error.
    #[verifier::external_body]
    pub fn append_data(
        &mut self,
        path: &String,
        is_dir: bool,
        mode: u32,
        uid: u64,
        gid: u64,
        mtime: u64,
        content: &Vec<u8>,
    )
        requires
            tar_path_ok(path@),
        ensures
            tar_bytes(*final(self)) == tar_bytes(*old(self)) + tar_data_record(
                path@,
                is_dir,
                mode,
                uid,
                gid,
                mtime,
                content@,
            ),
            encode_utf8(path@).len() < 100 ==> tar_bytes(*final(self)).len() == tar_bytes(
                *old(self),
            ).len() + 512 + content@.len() + pad512(content@.len()),
    {
        let mut header = tar::Header::new_gnu();
        let etype = if is_dir { tar::EntryType::Directory } else { tar::EntryType::Regular };
        header.set_entry_type(etype);
        header.set_mode(mode);
        header.set_uid(uid);
        header.set_gid(gid);
        header.set_mtime(mtime);
        header.set_size(content.len() as u64);
        self.inner
            .append_data(&mut header, std::path::Path::new(path.as_str()), content.as_slice())
            .expect("writing to an in-memory sink");
    }

    /// Relies on tar::Builder::append_link: it writes one header block
    /// naming the target, with no content, for a path and target under 100
    /// bytes.  Writing to an in-memory sink cannot fail, and the path and
    /// target shapes admitted here are ones tar encodes without error.
    #[verifier::external_body]
    pub fn append_link(
        &mut self,
        path: &String,
        target: &String,
        is_symlink: bool,
        mode: u32,
        uid: u64,
        gid: u64,
        mtime: u64,
    )
        requires
            tar_path_ok(path@),
            tar_target_ok(target@),
        ensures
            tar_bytes(*final(self)) == tar_bytes(*old(self)) + tar_link_record(
                path@,
                target@,
                is_symlink,
                mode,
                uid,
                gid,
                mtime,
            ),
            encode_utf8(path@).len() < 100 && encode_utf8(target@).len() < 100 ==> tar_bytes(
                *final(self),
            ).len() == tar_bytes(*old(self)).len() + 512,
    {
        let mut header = tar::Header::new_gnu();
        let etype = if is_symlink { tar::EntryType::Symlink } else { tar::EntryType::Link };
        header.set_entry_type(etype);
        header.set_mode(mode);
        header.set_uid(uid);
        header.set_gid(gid);
        header.set_mtime(mtime);
        header.set_size(0);
        self.inner
            .append_link(&mut header, std::path::Path::new(path.as_str()), std::path::Path::new(target.as_str()))
            .expect("writing to an in-memory sink");
    }

    /// Relies on tar::Builder::append: it writes the given extended-header
    /// block, the payload, and zero padding to the next 512-byte boundary.
    /// Writing to an in-memory sink cannot fail.
    #[verifier::external_body]
    pub fn append_pax(&mut self, data: &Vec<u8>)
        ensures
            tar_bytes(*final(self)) == tar_bytes(*old(self)) + tar_pax_record(data@),
            tar_bytes(*final(self)).len() == tar_bytes(*old(self)).len() + 512 + data@.len()
                + pad512(data@.len()),
    {
        let mut header = tar::Header::new_ustar();
        header.set_size(data.len() as u64);
        header.set_entry_type(tar::EntryType::XHeader);
        header.set_cksum();
        self.inner.append(&header, data.as_slice()).expect("writing to an in-memory sink");
    }

    /// Relies on tar::Builder::into_inner: finishing appends two zero blocks
    /// and hands back the sink.  Writing to an in-memory sink cannot fail.
    #[verifier::external_body]
    pub fn finish(self) -> (out: Vec<u8>)
        ensures
            out@ == tar_bytes(self) + seq_zeros(1024),
    {
        self.inner.into_inner().expect("writing to an in-memory sink")
    }
}

/// The first path recorded for a device and inode, if any.
pub open spec fn table_find(t: Seq<(u64, u64, Seq<char>)>, dev: u64, ino: u64) -> Option<
    Seq<char>,
>
    decreases t.len(),
{
    if t.len() == 0 {
        None
    } else if t[0].0 == dev && t[0].1 == ino {
        Some(t[0].2)
    } else {
        table_find(t.drop_first(), dev, ino)
    }
}

/// Maps a `(device, inode)` pair to the first-seen relative path, scoped to
/// one archive-building pass.
pub struct HardlinkTable {
    entries: Vec<(u64, u64, String)>,
}

impl HardlinkTable {
    pub closed spec fn view(&self) -> Seq<(u64, u64, Seq<char>)> {
        self.entries@.map(|i: int, t: (u64, u64, String)| (t.0, t.1, t.2@))
    }

    /// Every recorded path is one tar accepts, so later link records can
    /// point at it.
    pub open spec fn wf(&self) -> bool {
        forall|i: int| 0 <= i < self.view().len() ==> tar_path_ok(#[trigger] self.view()[i].2)
    }

    pub fn new() -> (t: HardlinkTable)
        ensures
            t.view() == Seq::<(u64, u64, Seq<char>)>::empty(),
            t.wf(),
    {
        let t = HardlinkTable { entries: Vec::new() };
        proof {
            assert(t.view() =~= Seq::<(u64, u64, Seq<char>)>::empty());
        }
        t
    }

    /// The first path recorded under the device and inode, if any.
    pub fn find(&self, dev: u64, ino: u64) -> (r: Option<String>)
        ensures
            match r {
                Some(p) => table_find(self.view(), dev, ino) == Some(p@),
                None => table_find(self.view(), dev, ino) is None,
            },
    {
        let n = self.entries.len();
        let mut i: usize = 0;
        proof {
            assert(self.view().skip(0) =~= self.view());
        }
        while i < n
            invariant
                n == self.entries@.len(),
                i <= n,
                table_find(self.view(), dev, ino) == table_find(
                    self.view().skip(i as int),
                    dev,
                    ino,
                ),
            decreases n - i,
        {
            proof {
                assert(self.view().skip(i as int)[0] == self.view()[i as int]);
                assert(self.view().skip(i as int).drop_first() =~= self.view().skip(i + 1));
            }
            if self.entries[i].0 == dev && self.entries[i].1 == ino {
                return Some(self.entries[i].2.clone());
            }
            i = i + 1;
        }
        proof {
            assert(self.view().skip(n as int) =~= Seq::<(u64, u64, Seq<char>)>::empty());
        }
        None
    }

    /// Record the first-seen path for a device and inode.
    pub fn insert(&mut self, dev: u64, ino: u64, path: String)
        requires
            tar_path_ok(path@),
        ensures
            final(self).view() == old(self).view().push((dev, ino, path@)),
            old(self).wf() ==> final(self).wf(),
    {
        let ghost p = path@;
        self.entries.push((dev, ino, path));
        proof {
            assert(self.view() =~= old(self).view().push((dev, ino, p)));
        }
    }
}


/// The kind of a filesystem entry, with what archiving needs of it.
pub enum EntryKind {
    /// A regular file and its content.
    File { content: Vec<u8> },
    /// A directory.
    Dir,
    /// A symbolic link and its target.
    Symlink { target: String },
    /// A UNIX domain socket.
    Socket,
    /// Any other special file, such as a fifo or a device node.
    Other,
}

/// One filesystem entry, as plain values: the walk hands these to the
/// archive builder in its visitation order.
pub struct FsEntry {
    /// Path relative to the walked root.
    pub path: String,
    /// What the entry is, with its content or link target.
    pub kind: EntryKind,
    /// Device number of the filesystem holding the entry.
    pub dev: u64,
    /// Inode number.
    pub ino: u64,
    /// Number of hard links to the inode.
    pub nlink: u64,
    /// Modification time, seconds since the epoch.
    pub mtime: u64,
    /// Permission bits.
    pub mode: u32,
    /// Owning user id.
    pub uid: u64,
    /// Owning group id.
    pub gid: u64,
    /// Extended attributes, in listing order.
    pub xattrs: Vec<Xattr>,
}

/// The mtime actually recorded: capped at the clamp time.
pub open spec fn clamped_mtime(mtime: u64, clamp: u64) -> u64 {
    if mtime > clamp {
        clamp
    } else {
        mtime
    }
}

/// Entries the walk passes over without archiving them: the walk root
/// itself, sockets, and other special files.
pub open spec fn entry_skipped(e: FsEntry) -> bool {
    ||| e.path@.len() == 0
    ||| e.kind is Socket
    ||| e.kind is Other
}

/// Whether an entry can be archived: skipped entries always can; the rest
/// need a path tar accepts, and a symlink a target tar accepts.
pub open spec fn entry_ok(e: FsEntry) -> bool {
    entry_skipped(e) || (tar_path_ok(e.path@) && match e.kind {
        EntryKind::Symlink { target } => tar_target_ok(target@),
        _ => true,
    })
}

/// Machine limits under which an entry's attribute records can be sized.
pub open spec fn entry_xattrs_bounded(e: FsEntry) -> bool {
    &&& e.xattrs@.len() < 0x100
    &&& (forall|i: int|
        0 <= i < e.xattrs@.len() ==> (#[trigger] e.xattrs@[i]).key@.len()
            + e.xattrs@[i].value@.len() < 0x1000000)
}

/// The PAX extended-header record emitted before an entry that carries
/// extended attributes; nothing for an entry without them.
pub open spec fn entry_pax_bytes(e: FsEntry) -> Seq<u8> {
    if e.xattrs@.len() == 0 {
        Seq::<u8>::empty()
    } else {
        tar_pax_record(pax_data_spec(xattr_pairs(e.xattrs@)))
    }
}

/// The bytes emitted for one entry, given the hardlink table so far: a PAX
/// record if the entry has extended attributes, then its own record.  A
/// second sighting of a multi-link inode yields a link record pointing at
/// the first-seen path instead of repeated content.
pub open spec fn entry_emit(e: FsEntry, clamp: u64, table: Seq<(u64, u64, Seq<char>)>) -> Seq<
    u8,
> {
    if entry_skipped(e) {
        Seq::<u8>::empty()
    } else {
        let mt = clamped_mtime(e.mtime, clamp);
        match e.kind {
            EntryKind::Symlink { target } => entry_pax_bytes(e) + tar_link_record(
                e.path@,
                target@,
                true,
                e.mode,
                e.uid,
                e.gid,
                mt,
            ),
            EntryKind::File { content } => {
                if e.nlink > 1 && table_find(table, e.dev, e.ino) is Some {
                    entry_pax_bytes(e) + tar_link_record(
                        e.path@,
                        table_find(table, e.dev, e.ino)->Some_0,
                        false,
                        e.mode,
                        e.uid,
                        e.gid,
                        mt,
                    )
                } else {
                    entry_pax_bytes(e) + tar_data_record(
                        e.path@,
                        false,
                        e.mode,
                        e.uid,
                        e.gid,
                        mt,
                        content@,
                    )
                }
            },
            EntryKind::Dir => {
                if e.nlink > 1 && table_find(table, e.dev, e.ino) is Some {
                    entry_pax_bytes(e) + tar_link_record(
                        e.path@,
                        table_find(table, e.dev, e.ino)->Some_0,
                        false,
                        e.mode,
                        e.uid,
                        e.gid,
                        mt,
                    )
                } else {
                    entry_pax_bytes(e) + tar_data_record(
                        e.path@,
                        true,
                        e.mode,
                        e.uid,
                        e.gid,
                        mt,
                        Seq::<u8>::empty(),
                    )
                }
            },
            _ => Seq::<u8>::empty(),
        }
    }
}

/// The hardlink table after one entry: the first sighting of a multi-link
/// file or directory records its path.
pub open spec fn entry_table_after(e: FsEntry, table: Seq<(u64, u64, Seq<char>)>) -> Seq<
    (u64, u64, Seq<char>),
> {
    if !entry_skipped(e) && (e.kind is File || e.kind is Dir) && e.nlink > 1 && table_find(
        table,
        e.dev,
        e.ino,
    ) is None {
        table.push((e.dev, e.ino, e.path@))
    } else {
        table
    }
}

/// Why a build was abandoned.
#[derive(Debug)]
pub enum ArchiveError {
    /// The entry at this path, or its link target, is not one tar can
    /// encode.
    InvalidPath {
        /// The path of the offending entry.
        path: String,
    },
}

/// A found table entry is one of the recorded ones.
proof fn lemma_table_find_found(t: Seq<(u64, u64, Seq<char>)>, dev: u64, ino: u64)
    requires
        table_find(t, dev, ino) is Some,
    ensures
        exists|k: int|
            0 <= k < t.len() && #[trigger] t[k].2 == table_find(t, dev, ino)->Some_0,
    decreases t.len(),
{
    if t.len() > 0 {
        if t[0].0 == dev && t[0].1 == ino {
            assert(t[0].2 == table_find(t, dev, ino)->Some_0);
        } else {
            lemma_table_find_found(t.drop_first(), dev, ino);
            let k0 = choose|k: int|
                0 <= k < t.drop_first().len() && #[trigger] t.drop_first()[k].2 == table_find(
                    t.drop_first(),
                    dev,
                    ino,
                )->Some_0;
            assert(t[k0 + 1].2 == table_find(t, dev, ino)->Some_0);
        }
    }
}

/// Append one entry to an archive, maintaining the hardlink table.
///
/// Exactly the entries whose path (and, for a symlink, target) tar can
/// encode are accepted; an offending entry changes nothing and is reported
/// with its path.  A symlink's mtime is clamped in the emitted header
/// itself, so the source tree is never touched.
pub fn append_entry(
    a: &mut ArchiveBuilder,
    e: &FsEntry,
    clamp: u64,
    table: &mut HardlinkTable,
) -> (r: Result<(), ArchiveError>)
    requires
        entry_xattrs_bounded(*e),
        old(table).wf(),
    ensures
        final(table).wf(),
        r is Ok == entry_ok(*e),
        r is Ok ==> tar_bytes(*final(a)) == tar_bytes(*old(a)) + entry_emit(
            *e,
            clamp,
            old(table).view(),
        ) && final(table).view() == entry_table_after(*e, old(table).view()),
        r matches Err(ArchiveError::InvalidPath { path }) ==> path@ == e.path@ && tar_bytes(
            *final(a),
        ) == tar_bytes(*old(a)) && final(table).view() == old(table).view(),
{
    match &e.kind {
        EntryKind::Socket => {
            return Ok(());
        },
        EntryKind::Other => {
            return Ok(());
        },
        _ => {},
    }
    if e.path.as_str().is_empty() {
        return Ok(());
    }
    if !check_tar_path(e.path.as_str()) {
        return Err(ArchiveError::InvalidPath { path: e.path.clone() });
    }
    if let EntryKind::Symlink { target } = &e.kind {
        if !check_tar_target(target.as_str()) {
            return Err(ArchiveError::InvalidPath { path: e.path.clone() });
        }
    }
    let ghost table0 = table.view();
    let pax = pax_data(&e.xattrs);
    if pax.len() > 0 {
        a.append_pax(&pax);
    }
    let ghost mid = tar_bytes(*a);
    proof {
        assert(mid == tar_bytes(*old(a)) + entry_pax_bytes(*e));
    }
    let mt = if e.mtime > clamp {
        clamp
    } else {
        e.mtime
    };
    match &e.kind {
        EntryKind::Symlink { target } => {
            a.append_link(&e.path, target, true, e.mode, e.uid, e.gid, mt);
            proof {
                assert(tar_bytes(*a) =~= tar_bytes(*old(a)) + entry_emit(
                    *e,
                    clamp,
                    table0,
                ));
            }
            Ok(())
        },
        EntryKind::File { content } => {
            if e.nlink > 1 {
                let found = table.find(e.dev, e.ino);
                match found {
                    Option::Some(first) => {
                        proof {
                            lemma_table_find_found(table0, e.dev, e.ino);
                            lemma_path_ok_target_ok(first@);
                        }
                        a.append_link(&e.path, &first, false, e.mode, e.uid, e.gid, mt);
                        proof {
                            assert(tar_bytes(*a) =~= tar_bytes(*old(a)) + entry_emit(
                                *e,
                                clamp,
                                table0,
                            ));
                        }
                        return Ok(());
                    },
                    Option::None => {
                        table.insert(e.dev, e.ino, e.path.clone());
                    },
                }
            }
            a.append_data(&e.path, false, e.mode, e.uid, e.gid, mt, content);
            proof {
                assert(tar_bytes(*a) =~= tar_bytes(*old(a)) + entry_emit(*e, clamp, table0));
            }
            Ok(())
        },
        EntryKind::Dir => {
            if e.nlink > 1 {
                let found = table.find(e.dev, e.ino);
                match found {
                    Option::Some(first) => {
                        proof {
                            lemma_table_find_found(table0, e.dev, e.ino);
                            lemma_path_ok_target_ok(first@);
                        }
                        a.append_link(&e.path, &first, false, e.mode, e.uid, e.gid, mt);
                        proof {
                            assert(tar_bytes(*a) =~= tar_bytes(*old(a)) + entry_emit(
                                *e,
                                clamp,
                                table0,
                            ));
                        }
                        return Ok(());
                    },
                    Option::None => {
                        table.insert(e.dev, e.ino, e.path.clone());
                    },
                }
            }
            let empty: Vec<u8> = Vec::new();
            a.append_data(&e.path, true, e.mode, e.uid, e.gid, mt, &empty);
            proof {
                assert(tar_bytes(*a) =~= tar_bytes(*old(a)) + entry_emit(*e, clamp, table0));
            }
            Ok(())
        },
        EntryKind::Socket => Ok(()),
        EntryKind::Other => Ok(()),
    }
}


/// The cumulative stream and hardlink table after the first `n` entries.
pub open spec fn walk_state(entries: Seq<FsEntry>, clamp: u64, n: int) -> (Seq<u8>, Seq<
    (u64, u64, Seq<char>),
>)
    decreases n,
{
    if n <= 0 {
        (Seq::<u8>::empty(), Seq::<(u64, u64, Seq<char>)>::empty())
    } else {
        let prev = walk_state(entries, clamp, n - 1);
        (
            prev.0 + entry_emit(entries[n - 1], clamp, prev.1),
            entry_table_after(entries[n - 1], prev.1),
        )
    }
}

/// The whole tar stream for a walk: every entry's records in walk order,
/// then the two terminating zero blocks.
pub open spec fn archive_spec(entries: Seq<FsEntry>, clamp: u64) -> Seq<u8> {
    walk_state(entries, clamp, entries.len() as int).0 + seq_zeros(1024)
}

/// Whether every entry of the walk can be archived.
pub open spec fn entries_ok(entries: Seq<FsEntry>) -> bool {
    forall|i: int| 0 <= i < entries.len() ==> entry_ok(#[trigger] entries[i])
}

/// Machine limits on every entry's attributes.
pub open spec fn entries_xattrs_bounded(entries: Seq<FsEntry>) -> bool {
    forall|i: int| 0 <= i < entries.len() ==> entry_xattrs_bounded(#[trigger] entries[i])
}

/// Serialize a walked subtree into a complete tar stream.
///
/// The result is a function of the entries and the clamp time alone: for a
/// fixed subtree and clamp time, two runs produce byte-identical streams.
/// The build fails exactly when some entry cannot be encoded, and reports
/// the first such entry's path.
pub fn build_archive(entries: &Vec<FsEntry>, clamp: u64) -> (r: Result<Vec<u8>, ArchiveError>)
    requires
        entries_xattrs_bounded(entries@),
    ensures
        r is Ok == entries_ok(entries@),
        r matches Ok(bytes) ==> bytes@ == archive_spec(entries@, clamp),
        r matches Err(ArchiveError::InvalidPath { path }) ==> exists|i: int|
            0 <= i < entries@.len() && !entry_ok(#[trigger] entries@[i]) && path@
                == entries@[i].path@ && (forall|j: int| 0 <= j < i ==> entry_ok(entries@[j])),
{
    let mut a = ArchiveBuilder::new();
    let mut table = HardlinkTable::new();
    let mut i: usize = 0;
    while i < entries.len()
        invariant
            entries_xattrs_bounded(entries@),
            i <= entries@.len(),
            table.wf(),
            forall|j: int| 0 <= j < i ==> entry_ok(#[trigger] entries@[j]),
            tar_bytes(a) == walk_state(entries@, clamp, i as int).0,
            table.view() == walk_state(entries@, clamp, i as int).1,
        decreases entries@.len() - i,
    {
        let r = append_entry(&mut a, &entries[i], clamp, &mut table);
        match r {
            Result::Ok(()) => {},
            Result::Err(err) => {
                proof {
                    assert(!entry_ok(entries@[i as int]));
                }
                return Err(err);
            },
        }
        i = i + 1;
    }
    let bytes = a.finish();
    Ok(bytes)
}

/// Equality of entry kinds by what they stand for.
pub open spec fn kind_like(a: EntryKind, b: EntryKind) -> bool {
    match (a, b) {
        (EntryKind::File { content: c1 }, EntryKind::File { content: c2 }) => c1@ == c2@,
        (EntryKind::Dir, EntryKind::Dir) => true,
        (EntryKind::Symlink { target: t1 }, EntryKind::Symlink { target: t2 }) => t1@ == t2@,
        (EntryKind::Socket, EntryKind::Socket) => true,
        (EntryKind::Other, EntryKind::Other) => true,
        _ => false,
    }
}

/// Two entries that agree on everything the archive reads, except possibly
/// their mtime.
pub open spec fn entry_like_but_mtime(a: FsEntry, b: FsEntry) -> bool {
    &&& a.path@ == b.path@
    &&& kind_like(a.kind, b.kind)
    &&& a.dev == b.dev
    &&& a.ino == b.ino
    &&& a.nlink == b.nlink
    &&& a.mode == b.mode
    &&& a.uid == b.uid
    &&& a.gid == b.gid
    &&& xattr_pairs(a.xattrs@) == xattr_pairs(b.xattrs@)
}

/// One entry emits the same records as a like entry whose mtime differs
/// only above the clamp time.
pub proof fn lemma_entry_emit_like(
    a: FsEntry,
    b: FsEntry,
    clamp: u64,
    table: Seq<(u64, u64, Seq<char>)>,
)
    requires
        entry_like_but_mtime(a, b),
        a.mtime == b.mtime || (a.mtime > clamp && b.mtime > clamp),
    ensures
        entry_emit(a, clamp, table) == entry_emit(b, clamp, table),
        entry_table_after(a, table) == entry_table_after(b, table),
{
    assert(clamped_mtime(a.mtime, clamp) == clamped_mtime(b.mtime, clamp));
    assert(entry_pax_bytes(a) == entry_pax_bytes(b));
}

/// Determinism of the archive stream: it depends only on what the entries
/// stand for and on the clamp time, not on the actual mtimes of entries
/// whose mtime exceeds the clamp time.  Two walks of subtrees with equal
/// contents, under one clamp time, produce byte-identical streams.
pub proof fn lemma_archive_deterministic(e1: Seq<FsEntry>, e2: Seq<FsEntry>, clamp: u64)
    requires
        e1.len() == e2.len(),
        forall|i: int|
            0 <= i < e1.len() ==> entry_like_but_mtime(#[trigger] e1[i], #[trigger] e2[i]) && (
            e1[i].mtime == e2[i].mtime || (e1[i].mtime > clamp && e2[i].mtime > clamp)),
    ensures
        archive_spec(e1, clamp) == archive_spec(e2, clamp),
{
    lemma_walk_state_like(e1, e2, clamp, e1.len() as int);
}

proof fn lemma_walk_state_like(e1: Seq<FsEntry>, e2: Seq<FsEntry>, clamp: u64, n: int)
    requires
        e1.len() == e2.len(),
        n <= e1.len(),
        forall|i: int|
            0 <= i < e1.len() ==> entry_like_but_mtime(#[trigger] e1[i], #[trigger] e2[i]) && (
            e1[i].mtime == e2[i].mtime || (e1[i].mtime > clamp && e2[i].mtime > clamp)),
    ensures
        walk_state(e1, clamp, n).0 == walk_state(e2, clamp, n).0,
        walk_state(e1, clamp, n).1 == walk_state(e2, clamp, n).1,
    decreases n,
{
    if n > 0 {
        lemma_walk_state_like(e1, e2, clamp, n - 1);
        lemma_entry_emit_like(e1[n - 1], e2[n - 1], clamp, walk_state(e1, clamp, n - 1).1);
    }
}


/// A socket entry contributes nothing to the stream and does not touch the
/// hardlink table; the build goes on.
pub proof fn lemma_socket_skipped(e: FsEntry, clamp: u64, table: Seq<(u64, u64, Seq<char>)>)
    requires
        e.kind is Socket,
    ensures
        entry_emit(e, clamp, table) == Seq::<u8>::empty(),
        entry_table_after(e, table) == table,
{
}

/// Whether an entry is the sighting of a multi-link inode `(d, io)` that
/// records into the hardlink table.
pub open spec fn sights_inode(e: FsEntry, d: u64, io: u64) -> bool {
    &&& !entry_skipped(e)
    &&& (e.kind is File || e.kind is Dir)
    &&& e.nlink > 1
    &&& e.dev == d
    &&& e.ino == io
}

/// The first entry among the first `n` that sights inode `(d, io)`, if any.
pub open spec fn first_sight(entries: Seq<FsEntry>, n: int, d: u64, io: u64) -> Option<int>
    decreases n,
{
    if n <= 0 {
        None
    } else if first_sight(entries, n - 1, d, io) is Some {
        first_sight(entries, n - 1, d, io)
    } else if sights_inode(entries[n - 1], d, io) {
        Some(n - 1)
    } else {
        None
    }
}

/// Appending a table entry leaves earlier findings in place and serves the
/// new key only where it was absent.
proof fn lemma_table_find_push(
    t: Seq<(u64, u64, Seq<char>)>,
    d2: u64,
    i2: u64,
    p: Seq<char>,
    d: u64,
    io: u64,
)
    ensures
        table_find(t.push((d2, i2, p)), d, io) == (if table_find(t, d, io) is Some {
            table_find(t, d, io)
        } else if d2 == d && i2 == io {
            Some(p)
        } else {
            None
        }),
    decreases t.len(),
{
    if t.len() == 0 {
        assert(t.push((d2, i2, p)).drop_first() =~= Seq::<(u64, u64, Seq<char>)>::empty());
    } else {
        assert(t.push((d2, i2, p)).drop_first() =~= t.drop_first().push((d2, i2, p)));
        lemma_table_find_push(t.drop_first(), d2, i2, p, d, io);
    }
}

/// The hardlink table after `n` entries maps an inode to the path of its
/// first sighting, and knows no inode that was never sighted.
proof fn lemma_walk_table(entries: Seq<FsEntry>, clamp: u64, n: int, d: u64, io: u64)
    requires
        n <= entries.len(),
    ensures
        table_find(walk_state(entries, clamp, n).1, d, io) == (match first_sight(
            entries,
            n,
            d,
            io,
        ) {
            Some(k) => Some(entries[k].path@),
            None => None,
        }),
    decreases n,
{
    if n > 0 {
        lemma_walk_table(entries, clamp, n - 1, d, io);
        let prev = walk_state(entries, clamp, n - 1);
        let e = entries[n - 1];
        if !entry_skipped(e) && (e.kind is File || e.kind is Dir) && e.nlink > 1 && table_find(
            prev.1,
            e.dev,
            e.ino,
        ) is None {
            lemma_table_find_push(prev.1, e.dev, e.ino, e.path@, d, io);
            if e.dev == d && e.ino == io {
                lemma_walk_table(entries, clamp, n - 1, e.dev, e.ino);
            }
        }
    }
}

/// Hardlink fidelity: when entry `i` is the first sighting of a multi-link
/// inode and entry `j` is a later regular-file sighting of the same inode,
/// the stream holds the full content once — entry `i` emits a content
/// record, and entry `j` emits only a link record pointing at entry `i`'s
/// path, whatever content entry `j` carries.
pub proof fn lemma_hardlink_fidelity(entries: Seq<FsEntry>, clamp: u64, i: int, j: int)
    requires
        0 <= i < j < entries.len(),
        sights_inode(entries[i], entries[i].dev, entries[i].ino),
        sights_inode(entries[j], entries[i].dev, entries[i].ino),
        entries[i].kind is File,
        entries[j].kind is File,
        forall|k: int| 0 <= k < i ==> !sights_inode(#[trigger] entries[k], entries[i].dev, entries[i].ino),
    ensures
        entry_emit(entries[i], clamp, walk_state(entries, clamp, i).1) == entry_pax_bytes(
            entries[i],
        ) + tar_data_record(
            entries[i].path@,
            false,
            entries[i].mode,
            entries[i].uid,
            entries[i].gid,
            clamped_mtime(entries[i].mtime, clamp),
            entries[i].kind->File_content@,
        ),
        entry_emit(entries[j], clamp, walk_state(entries, clamp, j).1) == entry_pax_bytes(
            entries[j],
        ) + tar_link_record(
            entries[j].path@,
            entries[i].path@,
            false,
            entries[j].mode,
            entries[j].uid,
            entries[j].gid,
            clamped_mtime(entries[j].mtime, clamp),
        ),
{
    let d = entries[i].dev;
    let io = entries[i].ino;
    lemma_first_sight_none(entries, i, d, io);
    lemma_walk_table(entries, clamp, i, d, io);
    lemma_first_sight_at(entries, i, j, d, io);
    lemma_walk_table(entries, clamp, j, d, io);
}

/// No sighting among the first `i` entries means no first sighting.
proof fn lemma_first_sight_none(entries: Seq<FsEntry>, i: int, d: u64, io: u64)
    requires
        i <= entries.len(),
        forall|k: int| 0 <= k < i ==> !sights_inode(#[trigger] entries[k], d, io),
    ensures
        first_sight(entries, i, d, io) is None,
    decreases i,
{
    if i > 0 {
        lemma_first_sight_none(entries, i - 1, d, io);
    }
}

/// When entry `i` sights the inode and nothing before it does, it is the
/// first sighting for every later prefix.
proof fn lemma_first_sight_at(entries: Seq<FsEntry>, i: int, n: int, d: u64, io: u64)
    requires
        0 <= i < n <= entries.len(),
        sights_inode(entries[i], d, io),
        forall|k: int| 0 <= k < i ==> !sights_inode(#[trigger] entries[k], d, io),
    ensures
        first_sight(entries, n, d, io) == Some(i),
    decreases n,
{
    if n - 1 == i {
        lemma_first_sight_none(entries, i, d, io);
    } else {
        lemma_first_sight_at(entries, i, n - 1, d, io);
    }
}

} // verus!
