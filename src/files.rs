//! File records and the catalogue that holds them.

use vstd::prelude::*;

use crate::text::string_of;

verus! {

/// The closed set of filesystem entry kinds.
#[derive(Clone, Copy, Debug, PartialEq, Eq, Structural)]
pub enum FileKind {
    Regular,
    Directory,
    Symlink,
    BlockDevice,
    CharDevice,
    Fifo,
    Socket,
}

/// The Unicode lower case of `s`.
pub uninterp spec fn lower_of(s: Seq<char>) -> Seq<char>;

/// `s` holds only lowercase ASCII letters and spaces.
pub open spec fn is_lower_ascii_text(s: Seq<char>) -> bool {
    forall|i: int| 0 <= i < s.len() ==> ('a' <= #[trigger] s[i] && s[i] <= 'z') || s[i] == ' '
}

/// Relies on std's `str::to_lowercase`: the lower case of each character,
/// by the Unicode tables; lowercase ASCII letters and spaces map to
/// themselves.
#[verifier::external_body]
fn lowercase(s: &str) -> (r: String)
    ensures
        r@ == lower_of(s@),
        is_lower_ascii_text(s@) ==> r@ == s@,
{
    s.to_lowercase()
}

/// The name of each kind in a catalogue snapshot.
pub open spec fn kind_name(k: FileKind) -> Seq<char> {
    match k {
        FileKind::Regular => seq!['r', 'e', 'g', 'u', 'l', 'a', 'r', ' ', 'f', 'i', 'l', 'e'],
        FileKind::Directory => seq!['d', 'i', 'r', 'e', 'c', 't', 'o', 'r', 'y'],
        FileKind::Symlink => seq!['s', 'y', 'm', 'l', 'i', 'n', 'k'],
        FileKind::BlockDevice => seq!['b', 'l', 'o', 'c', 'k', ' ', 'd', 'e', 'v', 'i', 'c', 'e'],
        FileKind::CharDevice => seq!['c', 'h', 'a', 'r', ' ', 'd', 'e', 'v', 'i', 'c', 'e'],
        FileKind::Fifo => seq!['f', 'i', 'f', 'o'],
        FileKind::Socket => seq!['s', 'o', 'c', 'k', 'e', 't'],
    }
}

/// The kind whose snapshot name is the lower case of `s`.
pub open spec fn kind_named(s: Seq<char>) -> Option<FileKind> {
    let l = lower_of(s);
    if l == kind_name(FileKind::Regular) {
        Some(FileKind::Regular)
    } else if l == kind_name(FileKind::Directory) {
        Some(FileKind::Directory)
    } else if l == kind_name(FileKind::Symlink) {
        Some(FileKind::Symlink)
    } else if l == kind_name(FileKind::BlockDevice) {
        Some(FileKind::BlockDevice)
    } else if l == kind_name(FileKind::CharDevice) {
        Some(FileKind::CharDevice)
    } else if l == kind_name(FileKind::Fifo) {
        Some(FileKind::Fifo)
    } else if l == kind_name(FileKind::Socket) {
        Some(FileKind::Socket)
    } else {
        None
    }
}

proof fn lemma_kind_names_distinct(a: FileKind, b: FileKind)
    requires
        a != b,
    ensures
        kind_name(a) != kind_name(b),
{
    if kind_name(a).len() == kind_name(b).len() {
        assert(kind_name(a)[0] != kind_name(b)[0]);
    }
}

fn kind_name_chars(k: FileKind) -> (r: Vec<char>)
    ensures
        r@ == kind_name(k),
{
    match k {
        FileKind::Regular => vec!['r', 'e', 'g', 'u', 'l', 'a', 'r', ' ', 'f', 'i', 'l', 'e'],
        FileKind::Directory => vec!['d', 'i', 'r', 'e', 'c', 't', 'o', 'r', 'y'],
        FileKind::Symlink => vec!['s', 'y', 'm', 'l', 'i', 'n', 'k'],
        FileKind::BlockDevice => vec!['b', 'l', 'o', 'c', 'k', ' ', 'd', 'e', 'v', 'i', 'c', 'e'],
        FileKind::CharDevice => vec!['c', 'h', 'a', 'r', ' ', 'd', 'e', 'v', 'i', 'c', 'e'],
        FileKind::Fifo => vec!['f', 'i', 'f', 'o'],
        FileKind::Socket => vec!['s', 'o', 'c', 'k', 'e', 't'],
    }
}

impl FileKind {
    /// The name under which a snapshot stores this kind.
    pub fn name(&self) -> (r: String)
        ensures
            r@ == kind_name(*self),
    {
        string_of(&kind_name_chars(*self))
    }

    /// The kind stored under `name` in a snapshot, compared in lower case.
    /// A name that `name()` wrote reads back as its kind.
    pub fn from_name(name: &str) -> (r: Option<FileKind>)
        ensures
            r == kind_named(name@),
            forall|k: FileKind| name@ == kind_name(k) ==> r == Some(k),
    {
        let lower = lowercase(name);
        proof {
            assert forall|k: FileKind| name@ == kind_name(k) implies kind_named(name@) == Some(k) by {
                assert(is_lower_ascii_text(kind_name(k)));
                assert(lower@ == name@);
                if k != FileKind::Regular {
                    lemma_kind_names_distinct(k, FileKind::Regular);
                }
                if k != FileKind::Directory {
                    lemma_kind_names_distinct(k, FileKind::Directory);
                }
                if k != FileKind::Symlink {
                    lemma_kind_names_distinct(k, FileKind::Symlink);
                }
                if k != FileKind::BlockDevice {
                    lemma_kind_names_distinct(k, FileKind::BlockDevice);
                }
                if k != FileKind::CharDevice {
                    lemma_kind_names_distinct(k, FileKind::CharDevice);
                }
                if k != FileKind::Fifo {
                    lemma_kind_names_distinct(k, FileKind::Fifo);
                }
            }
        }
        if lower == FileKind::Regular.name() {
            Some(FileKind::Regular)
        } else if lower == FileKind::Directory.name() {
            Some(FileKind::Directory)
        } else if lower == FileKind::Symlink.name() {
            Some(FileKind::Symlink)
        } else if lower == FileKind::BlockDevice.name() {
            Some(FileKind::BlockDevice)
        } else if lower == FileKind::CharDevice.name() {
            Some(FileKind::CharDevice)
        } else if lower == FileKind::Fifo.name() {
            Some(FileKind::Fifo)
        } else if lower == FileKind::Socket.name() {
            Some(FileKind::Socket)
        } else {
            None
        }
    }
}

/// A point in time: whole seconds since the Unix epoch, plus nanoseconds.
#[derive(Clone, Copy, Debug, PartialEq, Eq, Structural)]
pub struct Timestamp {
    pub secs: i64,
    pub nanos: u32,
}

/// Descriptive data about a catalogue.
#[derive(Debug, Clone)]
pub struct IndexMetadata {
    pub version: String,
    pub created: String,
    pub updated: String,
}

/// One catalogue entry: the metadata of a single filesystem path.
#[derive(Debug, Clone)]
pub struct IndexedFile {
    pub path: String,
    pub file_type: FileKind,
    /// The sniffed content type; `None` means unknown.
    pub data_type: Option<String>,
    pub tags: Vec<String>,
    pub last_modified: Timestamp,
    pub last_indexed: Timestamp,
}

/// One ranked result: a record and its score.
#[derive(Debug, Clone)]
pub struct QueryResult {
    pub file: IndexedFile,
    pub score: i64,
}

/// A file record as a value.
pub struct FileView {
    pub path: Seq<char>,
    pub file_type: FileKind,
    pub data_type: Option<Seq<char>>,
    pub tags: Seq<Seq<char>>,
    pub last_modified: Timestamp,
    pub last_indexed: Timestamp,
}

pub open spec fn opt_view(o: Option<String>) -> Option<Seq<char>> {
    match o {
        Some(s) => Some(s@),
        None => None,
    }
}

impl View for IndexedFile {
    type V = FileView;

    open spec fn view(&self) -> FileView {
        FileView {
            path: self.path@,
            file_type: self.file_type,
            data_type: opt_view(self.data_type),
            tags: crate::query::strings_view(self.tags@),
            last_modified: self.last_modified,
            last_indexed: self.last_indexed,
        }
    }
}

fn copy_strings(v: &Vec<String>) -> (r: Vec<String>)
    ensures
        r@ == v@,
{
    let mut r: Vec<String> = Vec::new();
    let mut i: usize = 0;
    while i < v.len()
        invariant
            i <= v.len(),
            r@ == v@.subrange(0, i as int),
        decreases v.len() - i,
    {
        r.push(v[i].clone());
        i = i + 1;
    }
    assert(r@ =~= v@);
    r
}

/// The content type recorded for an entry: for a regular file, the sniffed
/// type or `application/octet-stream` when sniffing found none; for any
/// other kind, none.
pub open spec fn recorded_data_type(kind: FileKind, sniffed: Option<Seq<char>>) -> Option<Seq<char>> {
    if kind == FileKind::Regular {
        match sniffed {
            Some(t) => Some(t),
            None => Some("application/octet-stream"@),
        }
    } else {
        None
    }
}

impl IndexedFile {
    /// Builds the record of one path from what was read about it.
    pub fn from_parts(
        path: String,
        file_type: FileKind,
        sniffed: Option<String>,
        tags: Vec<String>,
        last_modified: Timestamp,
        last_indexed: Timestamp,
    ) -> (r: IndexedFile)
        ensures
            r@.path == path@,
            r@.file_type == file_type,
            r@.data_type == recorded_data_type(file_type, opt_view(sniffed)),
            r@.tags == crate::query::strings_view(tags@),
            r@.last_modified == last_modified,
            r@.last_indexed == last_indexed,
    {
        let data_type = match file_type {
            FileKind::Regular => match sniffed {
                Some(t) => Some(t),
                None => Some(String::from_str("application/octet-stream")),
            },
            _ => None,
        };
        IndexedFile { path, file_type, data_type, tags, last_modified, last_indexed }
    }

    /// A copy of this record.
    pub fn duplicate(&self) -> (r: IndexedFile)
        ensures
            r@ == self@,
    {
        let data_type = match &self.data_type {
            Some(t) => Some(t.clone()),
            None => None,
        };
        IndexedFile {
            path: self.path.clone(),
            file_type: self.file_type,
            data_type,
            tags: copy_strings(&self.tags),
            last_modified: self.last_modified,
            last_indexed: self.last_indexed,
        }
    }
}

/// No two records share a path.
pub open spec fn unique_paths(files: Seq<FileView>) -> bool {
    forall|i: int, j: int|
        0 <= i < files.len() && 0 <= j < files.len() && i != j ==> #[trigger] files[i].path
            != #[trigger] files[j].path
}

pub open spec fn holds_path(files: Seq<FileView>, path: Seq<char>) -> bool {
    exists|i: int| 0 <= i < files.len() && #[trigger] files[i].path == path
}

/// `i` is the first position holding a record for `path`.
pub open spec fn first_with_path(files: Seq<FileView>, path: Seq<char>, i: int) -> bool {
    0 <= i < files.len() && files[i].path == path && forall|k: int|
        0 <= k < i ==> #[trigger] files[k].path != path
}

/// The catalogue after inserting `f`: the record with the same path is
/// replaced in place, or `f` is appended when there is none.
pub open spec fn upsert(files: Seq<FileView>, f: FileView) -> Seq<FileView> {
    if holds_path(files, f.path) {
        files.update(choose|i: int| first_with_path(files, f.path, i), f)
    } else {
        files.push(f)
    }
}

/// A catalogue that holds a path has a first position for it.
pub proof fn lemma_first_with_path(files: Seq<FileView>, path: Seq<char>)
    requires
        holds_path(files, path),
    ensures
        exists|i: int| first_with_path(files, path, i),
    decreases files.len(),
{
    if files[0].path == path {
        assert(first_with_path(files, path, 0));
    } else {
        let rest = files.drop_first();
        let w = choose|i: int| 0 <= i < files.len() && #[trigger] files[i].path == path;
        assert(rest[w - 1].path == path);
        lemma_first_with_path(rest, path);
        let j = choose|i: int| first_with_path(rest, path, i);
        assert forall|k: int| 0 <= k < j + 1 implies #[trigger] files[k].path != path by {
            if k > 0 {
                assert(files[k] == rest[k - 1]);
            }
        }
        assert(first_with_path(files, path, j + 1));
    }
}

/// The first position for a path is unique.
proof fn lemma_first_with_path_unique(files: Seq<FileView>, path: Seq<char>, i: int, j: int)
    requires
        first_with_path(files, path, i),
        first_with_path(files, path, j),
    ensures
        i == j,
{
    if i < j {
        assert(files[i].path != path);
    } else if j < i {
        assert(files[j].path != path);
    }
}

proof fn lemma_upsert_keeps_paths_unique(files: Seq<FileView>, f: FileView)
    ensures
        unique_paths(files) ==> unique_paths(upsert(files, f)),
{
    if unique_paths(files) && holds_path(files, f.path) {
        lemma_first_with_path(files, f.path);
        let c = choose|i: int| first_with_path(files, f.path, i);
        let r = upsert(files, f);
        assert forall|i: int, j: int|
            0 <= i < r.len() && 0 <= j < r.len() && i != j implies #[trigger] r[i].path
                != #[trigger] r[j].path by {
            if i != c && j != c {
                assert(r[i] == files[i] && r[j] == files[j]);
            } else if i == c {
                assert(r[j] == files[j]);
            } else {
                assert(r[i] == files[i]);
            }
        }
    } else if unique_paths(files) {
        let r = upsert(files, f);
        assert forall|i: int, j: int|
            0 <= i < r.len() && 0 <= j < r.len() && i != j implies #[trigger] r[i].path
                != #[trigger] r[j].path by {
            if i < files.len() && j < files.len() {
                assert(r[i] == files[i] && r[j] == files[j]);
            } else if i < files.len() {
                assert(r[i] == files[i]);
            } else {
                assert(r[j] == files[j]);
            }
        }
    }
}

/// Inserting a record for a path twice leaves exactly one record for that
/// path, and it is the second one.
pub proof fn lemma_upsert_twice(files: Seq<FileView>, first: FileView, second: FileView)
    requires
        unique_paths(files),
        first.path == second.path,
    ensures
        ({
            let r = upsert(upsert(files, first), second);
            &&& unique_paths(r)
            &&& exists|i: int| 0 <= i < r.len() && r[i] == second
            &&& forall|i: int| 0 <= i < r.len() && #[trigger] r[i].path == second.path ==> r[i] == second
        }),
{
    let once = upsert(files, first);
    lemma_upsert_keeps_paths_unique(files, first);
    lemma_upsert_keeps_paths_unique(once, second);
    if !holds_path(files, first.path) {
        assert(once[files.len() as int].path == first.path);
    } else {
        lemma_first_with_path(files, first.path);
        let c0 = choose|i: int| first_with_path(files, first.path, i);
        assert(once[c0].path == first.path);
    }
    assert(holds_path(once, second.path));
    lemma_first_with_path(once, second.path);
    let c = choose|i: int| first_with_path(once, second.path, i);
    let r = upsert(once, second);
    assert(r[c] == second);
    assert forall|i: int| 0 <= i < r.len() && #[trigger] r[i].path == second.path implies r[i] == second by {
        if i != c {
            assert(r[i] == once[i]);
        }
    }
}

/// The catalogue: an ordered collection of file records. Built only by
/// `new` and `add_file`, it holds at most one record per path.
#[derive(Debug, Clone)]
pub struct Index {
    files: Vec<IndexedFile>,
}

pub open spec fn files_view(files: Seq<IndexedFile>) -> Seq<FileView> {
    files.map_values(|f: IndexedFile| f@)
}

impl View for Index {
    type V = Seq<FileView>;

    closed spec fn view(&self) -> Seq<FileView> {
        files_view(self.files@)
    }
}

impl Index {
    /// Well formed: no two records share a path. `new` gives it and
    /// `add_file` keeps it.
    pub open spec fn wf(&self) -> bool {
        unique_paths(self@)
    }

    /// An empty catalogue.
    pub fn new() -> (r: Index)
        ensures
            r@ == Seq::<FileView>::empty(),
            r.wf(),
    {
        let r = Index { files: Vec::new() };
        assert(r@ =~= Seq::<FileView>::empty());
        r
    }

    /// The records, in catalogue order.
    pub fn files(&self) -> (r: &Vec<IndexedFile>)
        ensures
            files_view(r@) == self@,
    {
        &self.files
    }

    pub fn len(&self) -> (r: usize)
        ensures
            r == self@.len(),
    {
        self.files.len()
    }

    /// The record stored for `path`, if any.
    pub fn get_file(&self, path: &str) -> (r: Option<&IndexedFile>)
        ensures
            match r {
                Some(f) => exists|i: int| first_with_path(self@, path@, i) && f@ == self@[i],
                None => !holds_path(self@, path@),
            },
    {
        match self.position(path) {
            Some(i) => {
                assert(self@[i as int] == self.files@[i as int]@);
                Some(&self.files[i])
            },
            None => None,
        }
    }

    fn position(&self, path: &str) -> (r: Option<usize>)
        ensures
            match r {
                Some(i) => first_with_path(self@, path@, i as int),
                None => !holds_path(self@, path@),
            },
    {
        let p = String::from_str(path);
        let mut i: usize = 0;
        while i < self.files.len()
            invariant
                i <= self.files.len(),
                self@ == files_view(self.files@),
                p@ == path@,
                forall|k: int| 0 <= k < i ==> #[trigger] self@[k].path != path@,
            decreases self.files.len() - i,
        {
            assert(self@[i as int] == self.files@[i as int]@);
            if self.files[i].path == p {
                return Some(i);
            }
            i = i + 1;
        }
        None
    }

    /// Inserts a record, replacing the one stored for the same path.
    pub fn add_file(&mut self, file: IndexedFile)
        ensures
            final(self)@ == upsert(old(self)@, file@),
            old(self).wf() ==> final(self).wf(),
    {
        let ghost before = self@;
        match self.position(file.path.as_str()) {
            Some(i) => {
                proof {
                    let c = choose|j: int| first_with_path(before, file@.path, j);
                    lemma_first_with_path_unique(before, file@.path, c, i as int);
                }
                self.files.set(i, file);
                assert(self@ =~= before.update(i as int, file@));
            },
            None => {
                self.files.push(file);
                assert(self@ =~= before.push(file@));
            },
        }
        proof {
            lemma_upsert_keeps_paths_unique(before, file@);
        }
    }
}

} // verus!
