//! Planning of archive records: which entries are left out, what record an
//! entry gives, where its content comes from, and where an archive that is
//! extended goes on.

use vstd::prelude::*;
use vstd::string::*;
use crate::pkgmf::{opt_text, Entry, EntryView};
use crate::text::{chars_of, is_prefix, join_path, joined_path, starts_with};

verus! {

/// The size of an archive block: every record begins on a multiple of it.
pub const BLOCK_SIZE: u64 = 512;

/// Permission bits of a directory record.
pub const DIR_MODE: u32 = 0o755;

/// Permission bits of a file record.
pub const FILE_MODE: u32 = 0o644;

/// Permission bits of a symbolic link record.
pub const LINK_MODE: u32 = 0o777;

/// The least multiple of the block size that is not below `end`.
pub open spec fn align_up(end: int) -> int {
    ((end + 511) / 512) * 512
}

/// `align_up` gives a block boundary at or behind `end`, and the nearest
/// such one.
pub proof fn lemma_align_up(end: int)
    requires
        0 <= end,
    ensures
        align_up(end) % 512 == 0,
        end <= align_up(end) < end + 512,
        end % 512 == 0 ==> align_up(end) == end,
{
}

/// The block boundary at or behind `end`; none where it does not fit in 64
/// bits.
pub fn align_block(end: u64) -> (r: Option<u64>)
    ensures
        match r {
            Some(o) => o == align_up(end as int),
            None => align_up(end as int) > u64::MAX,
        },
{
    let rem: u64 = end % BLOCK_SIZE;
    if rem == 0 {
        Some(end)
    } else {
        end.checked_add(BLOCK_SIZE - rem)
    }
}

/// Where the records of an archive end, given where the payload of its
/// last record starts and how long that payload is; 0 for an archive
/// without records.
pub open spec fn resume_point(last: Option<(u64, u64)>) -> int {
    match last {
        Some((start, size)) => align_up(start + size),
        None => 0,
    }
}

/// The offset at which new records are written to an archive that is
/// extended. `last` holds, for the last record that is there, the offset of
/// its payload and the payload's size. None where the offset does not fit
/// in 64 bits.
pub fn resume_offset(last: Option<(u64, u64)>) -> (r: Option<u64>)
    ensures
        match r {
            Some(o) => o == resume_point(last),
            None => resume_point(last) > u64::MAX,
        },
        r matches Some(o) ==> o % 512 == 0,
{
    match last {
        None => Some(0),
        Some((start, size)) => {
            proof {
                lemma_align_up(start + size);
            }
            match start.checked_add(size) {
                Some(end) => align_block(end),
                None => None,
            }
        },
    }
}

/// Whether one of the prefixes `excludes` is a prefix of `path`, character
/// by character.
pub open spec fn excluded(path: Seq<char>, excludes: Seq<String>) -> bool {
    exists|i: int| 0 <= i < excludes.len() && is_prefix(#[trigger] excludes[i]@, path)
}

/// Exclusion looks at the beginning of a path alone: what is left out stays
/// left out whatever is put behind it.
pub proof fn lemma_excluded_extends(path: Seq<char>, more: Seq<char>, excludes: Seq<String>)
    requires
        excluded(path, excludes),
    ensures
        excluded(path + more, excludes),
{
    let i = choose|i: int| 0 <= i < excludes.len() && is_prefix(#[trigger] excludes[i]@, path);
    let p = excludes[i]@;
    assert((path + more).subrange(0, p.len() as int) =~= path.subrange(0, p.len() as int));
}

/// Whether the manifest path `path` is left out of the archive.
pub fn is_excluded(path: &str, excludes: &Vec<String>) -> (r: bool)
    ensures
        r == excluded(path@, excludes@),
{
    let p = chars_of(path);
    let mut i: usize = 0;
    while i < excludes.len()
        invariant
            i <= excludes@.len(),
            p@ == path@,
            forall|k: int| 0 <= k < i ==> !is_prefix(#[trigger] excludes@[k]@, path@),
        decreases excludes@.len() - i,
    {
        let e = chars_of(excludes[i].as_str());
        if starts_with(&p, &e) {
            return true;
        }
        i += 1;
    }
    false
}

/// Whether an entry gets a record: it has a path, and the path is not left
/// out.
pub fn is_wanted(entry: &Entry, excludes: &Vec<String>) -> (r: bool)
    ensures
        r == (entry@.path() is Some && !excluded(entry@.path()->0, excludes@)),
{
    match entry.get_path() {
        Some(path) => !is_excluded(path, excludes),
        None => false,
    }
}

/// The kinds of record that an archive holds.
#[derive(Debug, PartialEq, Eq, Clone, Copy)]
pub enum RecordKind {
    Directory,
    Regular,
    Symlink,
}

/// What the header of one archive record states.
#[derive(Debug, PartialEq, Eq)]
pub struct Record {
    pub kind: RecordKind,
    pub path: String,
    pub mode: u32,
    pub mtime: u64,
    pub size: u64,
    pub link_target: Option<String>,
}

/// Where the content of file records comes from.
#[derive(Debug, PartialEq, Eq)]
pub enum ContentSource {
    /// A directory tree, named by its root.
    Tree(String),
    /// A content-addressed repository.
    Repository,
}

/// Where the payload of one record comes from.
#[derive(Debug, PartialEq, Eq)]
pub enum Content {
    /// The record has no payload.
    Empty,
    /// The file at this path of the directory tree.
    TreeFile(String),
    /// The blob of the repository with this content name and content hash.
    Blob { cname: String, chash: String },
}

/// Why an entry gets no record.
#[derive(Debug, PartialEq, Eq)]
pub enum ArchiveError {
    /// A file entry that is to be read from a repository does not say which
    /// blob holds it; the entry's path is given.
    NoContentId(String),
    /// The path in the directory tree is no regular file.
    NotAFile(String),
    /// The path of a record cannot be written into a header; the reason
    /// is given.
    PathRefused(String),
    /// The target of a link cannot be written into a header; the reason is
    /// given.
    LinkRefused(String),
}

impl Record {
    /// Whether the record states exactly these values.
    pub open spec fn states(
        self,
        kind: RecordKind,
        path: Seq<char>,
        mode: u32,
        size: u64,
        mtime: u64,
        link_target: Option<Seq<char>>,
    ) -> bool {
        &&& self.kind == kind
        &&& self.path@ == path
        &&& self.mode == mode
        &&& self.size == size
        &&& self.mtime == mtime
        &&& opt_text(self.link_target) == link_target
    }
}

/// Whether `rec` is the record that an entry gives for a payload of `size`
/// bytes and the time `mtime`: a directory with mode 0755 and a link with
/// mode 0777, both without payload, or a file with mode 0644.
pub open spec fn record_of(entry: EntryView, size: u64, mtime: u64, rec: Record) -> bool {
    match entry {
        EntryView::Dir { path, .. } => rec.states(
            RecordKind::Directory,
            path,
            0o755,
            0,
            mtime,
            None,
        ),
        EntryView::File { path, .. } => rec.states(
            RecordKind::Regular,
            path,
            0o644,
            size,
            mtime,
            None,
        ),
        EntryView::Link { path, target, .. } => rec.states(
            RecordKind::Symlink,
            path,
            0o777,
            0,
            mtime,
            Some(target),
        ),
        _ => false,
    }
}

/// The record that an entry gives, for a payload of `size` bytes and the
/// time `mtime`. A directory or a link has no payload, whatever `size` is.
/// Entries without a path give no record.
pub fn plan_record(entry: &Entry, size: u64, mtime: u64) -> (r: Option<Record>)
    ensures
        match r {
            Some(rec) => record_of(entry@, size, mtime, rec),
            None => entry@.path() is None,
        },
{
    match entry {
        Entry::Dir(dir) => Some(
            Record {
                kind: RecordKind::Directory,
                path: dir.path.clone(),
                mode: DIR_MODE,
                mtime,
                size: 0,
                link_target: None,
            },
        ),
        Entry::File(file) => Some(
            Record {
                kind: RecordKind::Regular,
                path: file.path.clone(),
                mode: FILE_MODE,
                mtime,
                size,
                link_target: None,
            },
        ),
        Entry::Link(link) => Some(
            Record {
                kind: RecordKind::Symlink,
                path: link.path.clone(),
                mode: LINK_MODE,
                mtime,
                size: 0,
                link_target: Some(link.target.clone()),
            },
        ),
        _ => None,
    }
}

/// Where the payload of an entry's record comes from. Only a file entry
/// has one: from a directory tree it is the file at the entry's path below
/// the root, from a repository the blob that the entry names; an entry that
/// names none is an error there.
pub fn content_of(source: &ContentSource, entry: &Entry) -> (r: Result<Content, ArchiveError>)
    ensures
        match entry@ {
            EntryView::File { path, chash, cname, .. } => match *source {
                ContentSource::Tree(root) => r matches Ok(Content::TreeFile(p)) && p@
                    == joined_path(root@, path),
                ContentSource::Repository => if cname is Some && chash is Some {
                    r matches Ok(Content::Blob { cname: n, chash: h }) && n@ == cname->0 && h@
                        == chash->0
                } else {
                    r matches Err(ArchiveError::NoContentId(p)) && p@ == path
                },
            },
            _ => r matches Ok(Content::Empty),
        },
{
    match entry {
        Entry::File(file) => match source {
            ContentSource::Tree(root) => Ok(
                Content::TreeFile(join_path(root.as_str(), file.path.as_str())),
            ),
            ContentSource::Repository => match (&file.cname, &file.chash) {
                (Some(n), Some(h)) => Ok(Content::Blob { cname: n.clone(), chash: h.clone() }),
                _ => Err(ArchiveError::NoContentId(file.path.clone())),
            },
        },
        _ => Ok(Content::Empty),
    }
}

/// The record of a file entry whose content is the file of a directory
/// tree at `source_path`, which is a regular file or not (`is_file`) and
/// `len` bytes long. What is no regular file is an error; an entry that is
/// no file entry gives the record that `plan_record` gives.
pub fn tree_file_record(
    entry: &Entry,
    source_path: &str,
    is_file: bool,
    len: u64,
    mtime: u64,
) -> (r: Result<Option<Record>, ArchiveError>)
    ensures
        match r {
            Ok(Some(rec)) => is_file && record_of(entry@, len, mtime, rec),
            Ok(None) => is_file && entry@.path() is None,
            Err(ArchiveError::NotAFile(p)) => !is_file && p@ == source_path@,
            Err(_) => false,
        },
{
    if !is_file {
        return Err(ArchiveError::NotAFile(String::from_str(source_path)));
    }
    Ok(plan_record(entry, len, mtime))
}

/// The header block of an archive record, of the `tar` crate.
#[verifier::external_type_specification]
#[verifier::external_body]
pub struct ExHeader(tar::Header);

/// The type flag that a header holds.
pub uninterp spec fn header_type(h: tar::Header) -> u8;

/// The path that a header states.
pub uninterp spec fn header_path(h: tar::Header) -> Seq<char>;

/// The permission bits that the mode field of a header states.
pub uninterp spec fn header_mode(h: tar::Header) -> u32;

/// The size that the size field of a header states.
pub uninterp spec fn header_size(h: tar::Header) -> u64;

/// The time that the modification time field of a header states.
pub uninterp spec fn header_mtime(h: tar::Header) -> u64;

/// The link name that a header states; none where its link field is
/// empty.
pub uninterp spec fn header_link(h: tar::Header) -> Option<Seq<char>>;

/// Whether the checksum field of a header holds the checksum of its block.
pub uninterp spec fn header_sealed(h: tar::Header) -> bool;

/// The form in which the `tar` crate stores `path` as the path of a new
/// header in the ustar format; none where it refuses the path.
pub uninterp spec fn ustar_path(path: Seq<char>) -> Option<Seq<char>>;

/// The form in which the `tar` crate stores `target` as the link name of
/// a header; none where it refuses the target.
pub uninterp spec fn ustar_link(target: Seq<char>) -> Option<Seq<char>>;

/// The type flag of each kind of record: the digits `5`, `0` and `2`.
pub open spec fn type_flag(kind: RecordKind) -> u8 {
    match kind {
        RecordKind::Directory => 53,
        RecordKind::Regular => 48,
        RecordKind::Symlink => 50,
    }
}

/// How many values the mode field of a header can hold: seven octal
/// digits.
pub const MODE_LIMIT: u32 = 0o10000000;

/// Trusted: `Header::new_ustar` of the `tar` crate, followed by `set_path`
/// on the new header. The contract claims that whether the path is
/// accepted, and the form in which it is stored, depend on the path alone,
/// and that the new header has an empty link field. The error is given as
/// its message.
#[verifier::external_body]
fn ustar_header(path: &str) -> (r: Result<tar::Header, String>)
    ensures
        match r {
            Ok(h) => ustar_path(path@) == Some(header_path(h)) && header_link(h) is None,
            Err(_) => ustar_path(path@) is None,
        },
{
    let mut header = tar::Header::new_ustar();
    match header.set_path(path) {
        Ok(_) => Ok(header),
        Err(e) => Err(e.to_string()),
    }
}

/// Trusted: `Header::set_link_name` of the `tar` crate. The contract
/// claims that whether the target is accepted, and the form in which it is
/// stored, depend on the target alone, and that an accepted target leaves
/// the other fields as they were. The error is given as its message.
#[verifier::external_body]
fn set_link_name(header: &mut tar::Header, target: &str) -> (r: Result<(), String>)
    ensures
        r is Ok <==> ustar_link(target@) is Some,
        r is Ok ==> header_link(*final(header)) == ustar_link(target@),
        r is Ok ==> header_type(*final(header)) == header_type(*old(header)),
        r is Ok ==> header_path(*final(header)) == header_path(*old(header)),
        r is Ok ==> header_mode(*final(header)) == header_mode(*old(header)),
        r is Ok ==> header_size(*final(header)) == header_size(*old(header)),
        r is Ok ==> header_mtime(*final(header)) == header_mtime(*old(header)),
{
    match header.set_link_name(target) {
        Ok(_) => Ok(()),
        Err(e) => Err(e.to_string()),
    }
}

/// Trusted: `Header::set_entry_type` of the `tar` crate, with the entry
/// type of that crate that stands for `kind`. The contract claims that the
/// type flag becomes the byte of that entry type, and that the other
/// fields stay.
#[verifier::external_body]
fn set_entry_type(header: &mut tar::Header, kind: RecordKind)
    ensures
        header_type(*final(header)) == type_flag(kind),
        header_path(*final(header)) == header_path(*old(header)),
        header_mode(*final(header)) == header_mode(*old(header)),
        header_size(*final(header)) == header_size(*old(header)),
        header_mtime(*final(header)) == header_mtime(*old(header)),
        header_link(*final(header)) == header_link(*old(header)),
{
    header.set_entry_type(
        match kind {
            RecordKind::Directory => tar::EntryType::Directory,
            RecordKind::Regular => tar::EntryType::Regular,
            RecordKind::Symlink => tar::EntryType::Symlink,
        },
    )
}

/// Trusted: `Header::set_size` of the `tar` crate. The contract claims
/// that the size field then states `size`, whatever its value, and that
/// the other fields stay.
#[verifier::external_body]
fn set_size(header: &mut tar::Header, size: u64)
    ensures
        header_size(*final(header)) == size,
        header_type(*final(header)) == header_type(*old(header)),
        header_path(*final(header)) == header_path(*old(header)),
        header_mode(*final(header)) == header_mode(*old(header)),
        header_mtime(*final(header)) == header_mtime(*old(header)),
        header_link(*final(header)) == header_link(*old(header)),
{
    header.set_size(size)
}

/// Trusted: `Header::set_mode` of the `tar` crate. The contract claims
/// that the mode field then states the low seven octal digits of `mode`,
/// which is all that it has room for, and that the other fields stay.
#[verifier::external_body]
fn set_mode(header: &mut tar::Header, mode: u32)
    ensures
        header_mode(*final(header)) == mode % MODE_LIMIT,
        header_type(*final(header)) == header_type(*old(header)),
        header_path(*final(header)) == header_path(*old(header)),
        header_size(*final(header)) == header_size(*old(header)),
        header_mtime(*final(header)) == header_mtime(*old(header)),
        header_link(*final(header)) == header_link(*old(header)),
{
    header.set_mode(mode)
}

/// Trusted: `Header::set_mtime` of the `tar` crate. The contract claims
/// that the time field then states `mtime`, whatever its value, and that
/// the other fields stay.
#[verifier::external_body]
fn set_mtime(header: &mut tar::Header, mtime: u64)
    ensures
        header_mtime(*final(header)) == mtime,
        header_type(*final(header)) == header_type(*old(header)),
        header_path(*final(header)) == header_path(*old(header)),
        header_mode(*final(header)) == header_mode(*old(header)),
        header_size(*final(header)) == header_size(*old(header)),
        header_link(*final(header)) == header_link(*old(header)),
{
    header.set_mtime(mtime)
}

/// Trusted: `Header::set_cksum` of the `tar` crate. The contract claims
/// that the checksum field then holds the checksum of the block, and that
/// the other fields stay.
#[verifier::external_body]
fn set_cksum(header: &mut tar::Header)
    ensures
        header_sealed(*final(header)),
        header_type(*final(header)) == header_type(*old(header)),
        header_path(*final(header)) == header_path(*old(header)),
        header_mode(*final(header)) == header_mode(*old(header)),
        header_size(*final(header)) == header_size(*old(header)),
        header_mtime(*final(header)) == header_mtime(*old(header)),
        header_link(*final(header)) == header_link(*old(header)),
{
    header.set_cksum()
}

impl Record {
    /// Whether a header can state this record: its path is accepted, and
    /// so is its link target where it has one.
    pub open spec fn fits(self) -> bool {
        &&& ustar_path(self.path@) is Some
        &&& match self.link_target {
            Some(t) => ustar_link(t@) is Some,
            None => true,
        }
    }

    /// Whether the header `h` states this record: its kind by the type
    /// flag, its path and its link target in the form in which they are
    /// stored, its size and its time as they are, its mode as far as the
    /// field has room, under a checksum that holds.
    pub open spec fn stated_by(self, h: tar::Header) -> bool {
        &&& header_type(h) == type_flag(self.kind)
        &&& ustar_path(self.path@) == Some(header_path(h))
        &&& header_mode(h) == self.mode % MODE_LIMIT
        &&& header_size(h) == self.size
        &&& header_mtime(h) == self.mtime
        &&& header_link(h) == match self.link_target {
            Some(t) => ustar_link(t@),
            None => None,
        }
        &&& header_sealed(h)
    }
}

/// The header block that states `record`, with its checksum. Paths and
/// link targets that do not fit the fields of a header are refused, the
/// path first.
pub fn make_header(record: &Record) -> (r: Result<tar::Header, ArchiveError>)
    ensures
        match r {
            Ok(h) => record.fits() && record.stated_by(h),
            Err(ArchiveError::PathRefused(_)) => ustar_path(record.path@) is None,
            Err(ArchiveError::LinkRefused(_)) => ustar_path(record.path@) is Some && !record.fits(),
            Err(_) => false,
        },
{
    let mut header = match ustar_header(record.path.as_str()) {
        Ok(h) => h,
        Err(why) => {
            return Err(ArchiveError::PathRefused(why));
        },
    };
    set_entry_type(&mut header, record.kind);
    set_size(&mut header, record.size);
    set_mode(&mut header, record.mode);
    set_mtime(&mut header, record.mtime);
    match &record.link_target {
        Some(target) => {
            match set_link_name(&mut header, target.as_str()) {
                Ok(_) => {},
                Err(why) => {
                    return Err(ArchiveError::LinkRefused(why));
                },
            }
        },
        None => {},
    }
    set_cksum(&mut header);
    Ok(header)
}

} // verus!
