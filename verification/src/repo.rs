//! The content-addressed repository: where blobs and package manifests
//! are stored, how a stored blob is verified, and which packages and
//! versions a listing of the package tree holds.

use vstd::prelude::*;
use vstd::string::*;
use digest::Digest;
use std::io::Read;
use crate::pkgmf::{
    entries, first_unresolved, lemma_resolved_needs_no_table, texts, MacroLookup, NoMacros, Reader,
};
use crate::text::{join_path, joined_path, push_char, same_str};

verus! {

/// The SHA-1 digest of `data`, as the `sha1` crate computes it.
pub uninterp spec fn sha1_of(data: Seq<u8>) -> Seq<u8>;

/// What `data` holds once its gzip framing and compression are undone, as
/// the `flate2` crate does it; none where it reports an error.
pub uninterp spec fn gunzip_of(data: Seq<u8>) -> Option<Seq<u8>>;

/// `name` with its percent escapes decoded and the result read as UTF-8,
/// as the `percent_encoding` crate does it; none where the result is not
/// UTF-8.
pub uninterp spec fn percent_decoded(name: Seq<char>) -> Option<Seq<char>>;

/// Trusted: `Digest::digest` of the `digest` crate on the hasher `Sha1` of
/// the `sha1` crate. The contract claims that the result is a function of
/// the bytes alone and is 20 bytes long, the output size of that hasher.
#[verifier::external_body]
fn sha1_bytes(buf: &[u8]) -> (r: Vec<u8>)
    ensures
        r@ == sha1_of(buf@),
        r@.len() == 20,
{
    sha1::Sha1::digest(buf).to_vec()
}

/// Trusted: `read_to_end` on a `flate2::read::GzDecoder` over `buf`. The
/// contract claims that success, and the bytes read on success, are a
/// function of `buf` alone. The error is given as its message.
#[verifier::external_body]
fn gunzip(buf: &[u8]) -> (r: Result<Vec<u8>, String>)
    ensures
        match r {
            Ok(raw) => gunzip_of(buf@) == Some(raw@),
            Err(_) => gunzip_of(buf@) is None,
        },
{
    let mut raw: Vec<u8> = Vec::new();
    match flate2::read::GzDecoder::new(buf).read_to_end(&mut raw) {
        Ok(_) => Ok(raw),
        Err(e) => Err(e.to_string()),
    }
}

/// Trusted: `percent_decode_str` of the `percent_encoding` crate, followed
/// by its `decode_utf8`. The contract claims that the result is a function
/// of the name alone; an error of `decode_utf8` is given as none.
#[verifier::external_body]
fn percent_decode(name: &str) -> (r: Option<String>)
    ensures
        match r {
            Some(s) => percent_decoded(name@) == Some(s@),
            None => percent_decoded(name@) is None,
        },
{
    match percent_encoding::percent_decode_str(name).decode_utf8() {
        Ok(s) => Some(s.into_owned()),
        Err(_) => None,
    }
}

/// The lower-case hexadecimal digit of a number below 16.
pub open spec fn hex_digit(n: u8) -> char {
    if n < 10 {
        ((n + 48) as u8) as char
    } else {
        ((n + 87) as u8) as char
    }
}

/// Bytes in lower-case hexadecimal, two digits for each byte.
pub open spec fn hex_lower(bytes: Seq<u8>) -> Seq<char> {
    Seq::new(
        2 * bytes.len(),
        |i: int|
            if i % 2 == 0 {
                hex_digit(bytes[i / 2] / 16)
            } else {
                hex_digit(bytes[i / 2] % 16)
            },
    )
}

fn hex_char(n: u8) -> (c: char)
    requires
        n < 16,
    ensures
        c == hex_digit(n),
{
    if n < 10 {
        (n + 48) as char
    } else {
        (n + 87) as char
    }
}

/// `bytes` in lower-case hexadecimal.
pub fn to_hex(bytes: &Vec<u8>) -> (s: String)
    ensures
        s@ == hex_lower(bytes@),
{
    let mut s = String::new();
    let mut i: usize = 0;
    while i < bytes.len()
        invariant
            i <= bytes@.len(),
            s@ == hex_lower(bytes@.take(i as int)),
        decreases bytes@.len() - i,
    {
        let b: u8 = bytes[i];
        push_char(&mut s, hex_char(b / 16));
        push_char(&mut s, hex_char(b % 16));
        i += 1;
    }
    s
}

/// The digest of `buf` in lower-case hexadecimal: 40 digits.
pub fn hash_buf(buf: &[u8]) -> (s: String)
    ensures
        s@ == hex_lower(sha1_of(buf@)),
        s@.len() == 40,
{
    let d = sha1_bytes(buf);
    to_hex(&d)
}

/// Why the repository does not give what was asked for.
#[derive(Debug, PartialEq, Eq)]
pub enum RepoError {
    /// The path is no directory.
    NotADirectory(String),
    /// The stored blob does not have the content hash that was asked for.
    OuterHashMismatch { actual: String, expected: String },
    /// The stored blob could not be decompressed; the reason is given.
    Decompress(String),
    /// The decompressed content does not have the content name that was
    /// asked for.
    InnerHashMismatch { actual: String, expected: String },
    /// The name of a package or of a version is not UTF-8 once decoded.
    BadName(String),
}

impl RepoError {
    /// The error in words, as `message` gives them.
    pub open spec fn message_text(self) -> Seq<char> {
        match self {
            RepoError::NotADirectory(p) => p@ + " is not a directory"@,
            RepoError::OuterHashMismatch { actual, expected } => "hash mismatch: "@ + actual@
                + " != expected "@ + expected@,
            RepoError::Decompress(why) => why@,
            RepoError::InnerHashMismatch { actual, expected } => "hash mismatch: "@ + actual@
                + " != expected "@ + expected@,
            RepoError::BadName(n) => "name is not valid UTF-8: "@ + n@,
        }
    }

    /// The error in words.
    pub fn message(&self) -> (r: String)
        ensures
            r@ == self.message_text(),
    {
        let mut r = String::new();
        match self {
            RepoError::NotADirectory(p) => {
                r.append(p.as_str());
                r.append(" is not a directory");
            },
            RepoError::OuterHashMismatch { actual, expected } => {
                r.append("hash mismatch: ");
                r.append(actual.as_str());
                r.append(" != expected ");
                r.append(expected.as_str());
            },
            RepoError::Decompress(why) => {
                r.append(why.as_str());
            },
            RepoError::InnerHashMismatch { actual, expected } => {
                r.append("hash mismatch: ");
                r.append(actual.as_str());
                r.append(" != expected ");
                r.append(expected.as_str());
            },
            RepoError::BadName(n) => {
                r.append("name is not valid UTF-8: ");
                r.append(n.as_str());
            },
        }
        r
    }
}

/// The outer check: the digest `actual` of a stored blob against the
/// content hash `chash` that was asked for.
pub fn check_outer(actual: String, chash: &str) -> (r: Result<(), RepoError>)
    ensures
        match r {
            Ok(_) => actual@ == chash@,
            Err(RepoError::OuterHashMismatch { actual: a, expected: e }) => actual@ != chash@ && a
                == actual && e@ == chash@,
            Err(_) => false,
        },
{
    if same_str(actual.as_str(), chash) {
        Ok(())
    } else {
        Err(RepoError::OuterHashMismatch { actual, expected: String::from_str(chash) })
    }
}

/// The inner check: the digest `actual` of the decompressed content `raw`
/// against the content name `cname` that was asked for. The content is
/// handed on where they agree.
pub fn check_inner(raw: Vec<u8>, actual: String, cname: &str) -> (r: Result<Vec<u8>, RepoError>)
    ensures
        match r {
            Ok(v) => actual@ == cname@ && v == raw,
            Err(RepoError::InnerHashMismatch { actual: a, expected: e }) => actual@ != cname@ && a
                == actual && e@ == cname@,
            Err(_) => false,
        },
{
    if same_str(actual.as_str(), cname) {
        Ok(raw)
    } else {
        Err(RepoError::InnerHashMismatch { actual, expected: String::from_str(cname) })
    }
}

/// A repository, by the two directories below its root.
#[derive(Debug, PartialEq, Eq)]
pub struct Repository {
    /// The blob store.
    pub file: String,
    /// The tree of packages and versions.
    pub pkg: String,
}

/// One version of a package, and where its manifest is.
#[derive(Debug, PartialEq, Eq)]
pub struct Version {
    pub version: String,
    pub file: String,
}

/// A package, with its versions in the order in which they were listed.
#[derive(Debug, PartialEq, Eq)]
pub struct Package {
    pub name: String,
    pub versions: Vec<Version>,
}

/// One directory of the package tree as it was found: its name, and the
/// names of the files in it.
#[derive(Debug, PartialEq, Eq)]
pub struct PackageDir {
    pub name: String,
    pub files: Vec<String>,
}

/// Whether the first `n` names can be decoded.
pub open spec fn names_decode(names: Seq<String>, n: int) -> bool {
    forall|k: int| 0 <= k < n && k < names.len() ==> percent_decoded(
        (#[trigger] names[k])@,
    ) is Some
}

impl PackageDir {
    /// Whether the name of the directory and of each of its files can be
    /// decoded.
    pub open spec fn decodes(self) -> bool {
        percent_decoded(self.name@) is Some && names_decode(self.files@, self.files@.len() as int)
    }

    /// Whether `bad` is the first name of this directory, its own name
    /// before those of its files, that cannot be decoded.
    pub open spec fn first_bad(self, bad: Seq<char>) -> bool {
        if percent_decoded(self.name@) is None {
            bad == self.name@
        } else {
            exists|j: int|
                0 <= j < self.files@.len() && names_decode(self.files@, j) && (
                #[trigger] self.files@[j])@ == bad && percent_decoded(bad) is None
        }
    }

    /// Whether `p` is the package that this directory of the package tree
    /// `root` holds: the names decoded, each version with the path of its
    /// file.
    pub open spec fn gives(self, root: Seq<char>, p: Package) -> bool {
        &&& percent_decoded(self.name@) == Some(p.name@)
        &&& p.versions@.len() == self.files@.len()
        &&& forall|j: int|
            0 <= j < self.files@.len() ==> percent_decoded((#[trigger] self.files@[j])@) == Some(
                p.versions@[j].version@,
            ) && p.versions@[j].file@ == joined_path(
                joined_path(root, self.name@),
                self.files@[j]@,
            )
    }
}

/// Whether the first `n` directories can be decoded.
pub open spec fn dirs_decode(listing: Seq<PackageDir>, n: int) -> bool {
    forall|k: int| 0 <= k < n && k < listing.len() ==> (#[trigger] listing[k]).decodes()
}

/// Whether the package `name` stands at index `i` of `pkgs` and nowhere
/// behind it.
pub open spec fn is_last_named(pkgs: Seq<Package>, name: Seq<char>, i: int) -> bool {
    &&& 0 <= i < pkgs.len()
    &&& pkgs[i].name@ == name
    &&& forall|k: int| i < k < pkgs.len() ==> (#[trigger] pkgs[k]).name@ != name
}

/// The package of the name `name`: the one that was listed last, where
/// several directories give that name.
pub fn find_package(pkgs: &Vec<Package>, name: &str) -> (r: Option<usize>)
    ensures
        match r {
            Some(i) => is_last_named(pkgs@, name@, i as int),
            None => forall|k: int| 0 <= k < pkgs@.len() ==> (#[trigger] pkgs@[k]).name@ != name@,
        },
{
    let mut i: usize = pkgs.len();
    while i > 0
        invariant
            i <= pkgs@.len(),
            forall|k: int| i <= k < pkgs@.len() ==> (#[trigger] pkgs@[k]).name@ != name@,
        decreases i,
    {
        i -= 1;
        if same_str(pkgs[i].name.as_str(), name) {
            return Some(i);
        }
    }
    None
}

impl Version {
    /// The version that the file `file` of the directory `dir` of the
    /// package tree `tree` stands for, given the file's name decoded; a
    /// name that could not be decoded is an error.
    pub fn of_file(tree: &str, dir: &str, file: &str, decoded: Option<String>) -> (r: Result<
        Version,
        RepoError,
    >)
        ensures
            match r {
                Ok(v) => decoded == Some(v.version) && v.file@ == joined_path(
                    joined_path(tree@, dir@),
                    file@,
                ),
                Err(RepoError::BadName(bad)) => decoded is None && bad@ == file@,
                Err(_) => false,
            },
    {
        match decoded {
            None => Err(RepoError::BadName(String::from_str(file))),
            Some(version) => {
                let base = join_path(tree, dir);
                Ok(Version { version, file: join_path(base.as_str(), file) })
            },
        }
    }

    /// A reader of this version's manifest, whose lines are `lines`. The
    /// manifests of a repository are stored with their macros replaced: the
    /// lines must hold no macro token, which `find_unresolved` tells. What
    /// the reader yields then depends on no macro definition.
    pub fn manifest(&self, lines: Vec<String>) -> (r: Reader<NoMacros>)
        requires
            first_unresolved(texts(lines@), 0) is None,
        ensures
            r.input == lines,
            r.pos == 0,
            forall|table: Map<Seq<char>, Seq<char>>|
                r.remaining() == #[trigger] entries(texts(lines@), 0, table),
    {
        let r = Reader::new(lines, NoMacros);
        assert forall|table: Map<Seq<char>, Seq<char>>|
            r.remaining() == #[trigger] entries(texts(lines@), 0, table) by {
            lemma_resolved_needs_no_table(texts(lines@), 0, NoMacros.table(), table);
        }
        r
    }
}

/// The blob store below the repository root `root`.
pub open spec fn store_of(root: Seq<char>) -> Seq<char> {
    joined_path(root, "file"@)
}

/// The package tree below the repository root `root`.
pub open spec fn tree_of(root: Seq<char>) -> Seq<char> {
    joined_path(root, "pkg"@)
}

/// Where the blob with the content hash `chash` is stored below the blob
/// store `store`: in the directory named by the first two digits of the
/// hash, under the hash as its name.
pub open spec fn blob_location(store: Seq<char>, chash: Seq<char>) -> Seq<char> {
    joined_path(joined_path(store, chash.subrange(0, 2)), chash)
}

impl Repository {
    /// The path of the blob store of the repository at `root`.
    pub fn store_dir(root: &str) -> (r: String)
        ensures
            r@ == store_of(root@),
    {
        join_path(root, "file")
    }

    /// The path of the package tree of the repository at `root`.
    pub fn package_dir(root: &str) -> (r: String)
        ensures
            r@ == tree_of(root@),
    {
        join_path(root, "pkg")
    }

    /// The repository at `root`, given whether its blob store and its
    /// package tree are directories. Both must be; the blob store is looked
    /// at first.
    pub fn new(root: &str, file_is_dir: bool, pkg_is_dir: bool) -> (r: Result<
        Repository,
        RepoError,
    >)
        ensures
            match r {
                Ok(repo) => file_is_dir && pkg_is_dir && repo.file@ == store_of(root@) && repo.pkg@
                    == tree_of(root@),
                Err(RepoError::NotADirectory(p)) => if !file_is_dir {
                    p@ == store_of(root@)
                } else {
                    !pkg_is_dir && p@ == tree_of(root@)
                },
                Err(_) => false,
            },
    {
        let file = Repository::store_dir(root);
        if !file_is_dir {
            return Err(RepoError::NotADirectory(file));
        }
        let pkg = Repository::package_dir(root);
        if !pkg_is_dir {
            return Err(RepoError::NotADirectory(pkg));
        }
        Ok(Repository { file, pkg })
    }

    /// Where the blob with the content hash `chash` is stored; none for a
    /// hash of less than two characters.
    pub fn blob_path(&self, chash: &str) -> (r: Option<String>)
        ensures
            match r {
                Some(p) => chash@.len() >= 2 && p@ == blob_location(self.file@, chash@),
                None => chash@.len() < 2,
            },
    {
        if chash.unicode_len() < 2 {
            return None;
        }
        let shard = join_path(self.file.as_str(), chash.substring_char(0, 2));
        Some(join_path(shard.as_str(), chash))
    }

    /// The content with the content name `cname`, from the bytes `stored`
    /// of the blob that is stored under the content hash `chash`. The
    /// digest of the stored bytes must be `chash`; they are then
    /// decompressed, and the digest of the result must be `cname`.
    pub fn file(&self, cname: &str, chash: &str, stored: &[u8]) -> (r: Result<Vec<u8>, RepoError>)
        ensures
            match r {
                Ok(raw) => {
                    &&& hex_lower(sha1_of(stored@)) == chash@
                    &&& gunzip_of(stored@) == Some(raw@)
                    &&& hex_lower(sha1_of(raw@)) == cname@
                },
                Err(RepoError::OuterHashMismatch { actual, expected }) => {
                    &&& actual@ == hex_lower(sha1_of(stored@))
                    &&& actual@ != chash@
                    &&& expected@ == chash@
                },
                Err(RepoError::Decompress(_)) => {
                    &&& hex_lower(sha1_of(stored@)) == chash@
                    &&& gunzip_of(stored@) is None
                },
                Err(RepoError::InnerHashMismatch { actual, expected }) => {
                    &&& hex_lower(sha1_of(stored@)) == chash@
                    &&& gunzip_of(stored@) is Some
                    &&& actual@ == hex_lower(sha1_of(gunzip_of(stored@)->0))
                    &&& actual@ != cname@
                    &&& expected@ == cname@
                },
                Err(_) => false,
            },
    {
        match check_outer(hash_buf(stored), chash) {
            Err(e) => {
                return Err(e);
            },
            Ok(_) => {},
        }
        match gunzip(stored) {
            Err(why) => Err(RepoError::Decompress(why)),
            Ok(raw) => {
                let inner = hash_buf(raw.as_slice());
                check_inner(raw, inner, cname)
            },
        }
    }

    /// The versions that the files `files` of the directory `dir` of the
    /// package tree stand for.
    fn versions_of(&self, dir: &str, files: &Vec<String>) -> (r: Result<Vec<Version>, RepoError>)
        ensures
            match r {
                Ok(vs) => {
                    &&& names_decode(files@, files@.len() as int)
                    &&& vs@.len() == files@.len()
                    &&& forall|j: int|
                        0 <= j < files@.len() ==> percent_decoded((#[trigger] files@[j])@) == Some(
                            vs@[j].version@,
                        ) && vs@[j].file@ == joined_path(joined_path(self.pkg@, dir@), files@[j]@)
                },
                Err(RepoError::BadName(bad)) => exists|j: int|
                    0 <= j < files@.len() && names_decode(files@, j) && (#[trigger] files@[j])@
                        == bad@ && percent_decoded(bad@) is None,
                Err(_) => false,
            },
    {
        let mut vs: Vec<Version> = Vec::new();
        let mut j: usize = 0;
        while j < files.len()
            invariant
                j <= files@.len(),
                names_decode(files@, j as int),
                vs@.len() == j,
                forall|k: int|
                    0 <= k < j ==> percent_decoded((#[trigger] files@[k])@) == Some(
                        vs@[k].version@,
                    ) && vs@[k].file@ == joined_path(joined_path(self.pkg@, dir@), files@[k]@),
            decreases files@.len() - j,
        {
            let decoded = percent_decode(files[j].as_str());
            match Version::of_file(self.pkg.as_str(), dir, files[j].as_str(), decoded) {
                Err(e) => {
                    return Err(e);
                },
                Ok(v) => {
                    vs.push(v);
                },
            }
            j += 1;
        }
        Ok(vs)
    }

    /// The packages of the repository, from a listing of its package tree:
    /// one for each directory, in the order of the listing. Names are
    /// percent-decoded; the first that does not decode to UTF-8 is an
    /// error.
    pub fn scan(&self, listing: &Vec<PackageDir>) -> (r: Result<Vec<Package>, RepoError>)
        ensures
            match r {
                Ok(pkgs) => {
                    &&& dirs_decode(listing@, listing@.len() as int)
                    &&& pkgs@.len() == listing@.len()
                    &&& forall|i: int|
                        0 <= i < listing@.len() ==> (#[trigger] listing@[i]).gives(
                            self.pkg@,
                            pkgs@[i],
                        )
                },
                Err(RepoError::BadName(bad)) => exists|i: int|
                    0 <= i < listing@.len() && dirs_decode(listing@, i) && (
                    #[trigger] listing@[i]).first_bad(bad@),
                Err(_) => false,
            },
    {
        let mut pkgs: Vec<Package> = Vec::new();
        let mut i: usize = 0;
        while i < listing.len()
            invariant
                i <= listing@.len(),
                dirs_decode(listing@, i as int),
                pkgs@.len() == i,
                forall|k: int|
                    0 <= k < i ==> (#[trigger] listing@[k]).gives(self.pkg@, pkgs@[k]),
            decreases listing@.len() - i,
        {
            let dir = &listing[i];
            match percent_decode(dir.name.as_str()) {
                None => {
                    return Err(RepoError::BadName(dir.name.clone()));
                },
                Some(name) => {
                    match self.versions_of(dir.name.as_str(), &dir.files) {
                        Err(e) => {
                            assert(e matches RepoError::BadName(bad) && listing@[i as int].first_bad(
                                bad@,
                            ));
                            return Err(e);
                        },
                        Ok(versions) => {
                            pkgs.push(Package { name, versions });
                        },
                    }
                },
            }
            i += 1;
        }
        Ok(pkgs)
    }
}

} // verus!
