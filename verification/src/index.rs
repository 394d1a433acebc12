//! The index store: an in-memory mirror of governed files and of all
//! folders under the root, the queryable secondary cache.
//!
//! Files carry their typed attributes plus a denormalized, lower-cased
//! search text recomputed on every upsert.  Folders carry their display
//! name; schema-derived flags are computed at query time against the
//! schema store, never stored.

use vstd::prelude::*;

use crate::paths::RelPath;
use crate::records::{AttrMap, AttrValue, AttrValueV, RecordFromDb};

verus! {

/// The text the search column is computed from, before lower-casing: the
/// contributions of the attribute values, in entry order.
pub open spec fn spec_search_source(s: Seq<(Seq<char>, AttrValueV)>) -> Seq<char>
    decreases s.len(),
{
    if s.len() == 0 {
        Seq::empty()
    } else {
        spec_search_source(s.drop_last()) + spec_attr_contrib(s.last().1)
    }
}

/// What one attribute value contributes to the search text: string
/// fields their text, collections each element, date pairs both
/// endpoints, numbers their decimal text; each contribution ends in one
/// space.
pub open spec fn spec_attr_contrib(v: AttrValueV) -> Seq<char> {
    match v {
        AttrValueV::Str(o) => spec_opt_contrib(o),
        AttrValueV::Integer(o) => spec_opt_contrib(o),
        AttrValueV::Float(o) => spec_opt_contrib(o),
        AttrValueV::StrVec(o) => match o {
            Some(xs) => spec_texts_contrib(xs),
            None => Seq::empty(),
        },
        AttrValueV::DatePairVec(o) => match o {
            Some(ps) => spec_pairs_contrib(ps),
            None => Seq::empty(),
        },
    }
}

pub open spec fn spec_opt_contrib(o: Option<Seq<char>>) -> Seq<char> {
    match o {
        Some(t) => t + " "@,
        None => Seq::empty(),
    }
}

pub open spec fn spec_texts_contrib(xs: Seq<Seq<char>>) -> Seq<char>
    decreases xs.len(),
{
    if xs.len() == 0 {
        Seq::empty()
    } else {
        spec_texts_contrib(xs.drop_last()) + xs.last() + " "@
    }
}

pub open spec fn spec_pairs_contrib(ps: Seq<crate::records::DatePairV>) -> Seq<char>
    decreases ps.len(),
{
    if ps.len() == 0 {
        Seq::empty()
    } else {
        spec_pairs_contrib(ps.drop_last()) + spec_opt_contrib(ps.last().started)
            + spec_opt_contrib(ps.last().finished)
    }
}

/// The lower-cased form of a text.
pub uninterp spec fn lower_of(s: Seq<char>) -> Seq<char>;

/// Relies on str::to_lowercase: the result depends on the characters
/// alone, and an empty text stays empty.
#[verifier::external_body]
fn lowercase(s: &str) -> (r: String)
    ensures
        r@ == lower_of(s@),
        s@.len() == 0 ==> r@.len() == 0,
{
    s.to_lowercase()
}

/// What one stored file row holds besides its path key.
#[derive(Debug)]
pub struct StoredFile {
    pub modified: Option<i64>,
    pub attrs: AttrMap,
    pub search_index: String,
}

/// The abstract value of a [`StoredFile`].
pub struct StoredFileV {
    pub modified: Option<i64>,
    pub attrs: Map<Seq<char>, AttrValueV>,
    pub search_index: Seq<char>,
}

impl View for StoredFile {
    type V = StoredFileV;

    open spec fn view(&self) -> StoredFileV {
        StoredFileV {
            modified: self.modified,
            attrs: self.attrs@,
            search_index: self.search_index@,
        }
    }
}

/// One folder row as a query returns it, with its schema-derived flags
/// computed from the schema store at read time.
#[derive(Debug)]
pub struct FolderOnDisk {
    pub path: RelPath,
    pub name: String,
    pub has_schema: bool,
    pub own_schema: bool,
    pub schema_file_path: Option<RelPath>,
}

/// A folder listing.
#[derive(Debug)]
pub struct FolderListGetResult {
    pub folders: Vec<FolderOnDisk>,
}

/// The map a sequence of file rows stands for.
pub open spec fn files_map_of(s: Seq<(RelPath, StoredFile)>) -> Map<Seq<Seq<char>>, StoredFileV>
    decreases s.len(),
{
    if s.len() == 0 {
        Map::empty()
    } else {
        files_map_of(s.drop_last()).insert(s.last().0@, s.last().1@)
    }
}

/// The map a sequence of folder rows stands for (folder path to name).
pub open spec fn folders_map_of(s: Seq<(RelPath, String)>) -> Map<Seq<Seq<char>>, Seq<char>>
    decreases s.len(),
{
    if s.len() == 0 {
        Map::empty()
    } else {
        folders_map_of(s.drop_last()).insert(s.last().0@, s.last().1@)
    }
}

pub open spec fn file_keys_unique(s: Seq<(RelPath, StoredFile)>) -> bool {
    forall|i: int, j: int| 0 <= i < j < s.len() ==> s[i].0@ != s[j].0@
}

pub open spec fn folder_keys_unique(s: Seq<(RelPath, String)>) -> bool {
    forall|i: int, j: int| 0 <= i < j < s.len() ==> s[i].0@ != s[j].0@
}

/// The in-memory index store: the files and folders tables.
pub struct IndexStore {
    files: Vec<(RelPath, StoredFile)>,
    folders: Vec<(RelPath, String)>,
}

impl IndexStore {
    /// The files table: path to stored row.
    pub closed spec fn files(&self) -> Map<Seq<Seq<char>>, StoredFileV> {
        files_map_of(self.files@)
    }

    /// The folders table: path to display name.
    pub closed spec fn folders(&self) -> Map<Seq<Seq<char>>, Seq<char>> {
        folders_map_of(self.folders@)
    }

    pub closed spec fn wf(&self) -> bool {
        file_keys_unique(self.files@) && folder_keys_unique(self.folders@)
    }

    pub fn new() -> (r: IndexStore)
        ensures
            r.files() == Map::<Seq<Seq<char>>, StoredFileV>::empty(),
            r.folders() == Map::<Seq<Seq<char>>, Seq<char>>::empty(),
            r.wf(),
    {
        IndexStore { files: Vec::new(), folders: Vec::new() }
    }

    /// Empties both tables, as a root-path change demands.
    pub fn wipe(&mut self)
        ensures
            final(self).files() == Map::<Seq<Seq<char>>, StoredFileV>::empty(),
            final(self).folders() == Map::<Seq<Seq<char>>, Seq<char>>::empty(),
            final(self).wf(),
    {
        self.files = Vec::new();
        self.folders = Vec::new();
    }

    fn find_file_index(&self, path: &RelPath) -> (r: Option<usize>)
        ensures
            r matches Some(i) ==> i < self.files@.len() && self.files@[i as int].0@ == path@,
            r is None ==> forall|i: int| 0 <= i < self.files@.len() ==> self.files@[i].0@ != path@,
    {
        let mut i: usize = 0;
        while i < self.files.len()
            invariant
                i <= self.files@.len(),
                forall|j: int| 0 <= j < i ==> self.files@[j].0@ != path@,
            decreases self.files@.len() - i,
        {
            if crate::schema_store::rel_path_eq(&self.files[i].0, path) {
                return Some(i);
            }
            i = i + 1;
        }
        None
    }

    fn find_folder_index(&self, path: &RelPath) -> (r: Option<usize>)
        ensures
            r matches Some(i) ==> i < self.folders@.len() && self.folders@[i as int].0@ == path@,
            r is None ==> forall|i: int|
                0 <= i < self.folders@.len() ==> self.folders@[i].0@ != path@,
    {
        let mut i: usize = 0;
        while i < self.folders.len()
            invariant
                i <= self.folders@.len(),
                forall|j: int| 0 <= j < i ==> self.folders@[j].0@ != path@,
            decreases self.folders@.len() - i,
        {
            if crate::schema_store::rel_path_eq(&self.folders[i].0, path) {
                return Some(i);
            }
            i = i + 1;
        }
        None
    }

    /// The stored row a file record stands for: its modification time and
    /// attributes, with the search text recomputed from the attributes.
    pub open spec fn spec_row_of(r: RecordFromDb) -> StoredFileV {
        StoredFileV {
            modified: r.modified,
            attrs: r.attrs@,
            search_index: lower_of(spec_search_source(r.attrs.entries_view())),
        }
    }

    /// Inserts or updates a file row by its path.  A record with no path
    /// has no identity to index and is skipped.
    pub fn upsert_file(&mut self, record: &RecordFromDb)
        requires
            old(self).wf(),
            record.wf(),
        ensures
            final(self).wf(),
            final(self).folders() == old(self).folders(),
            record.path is None ==> final(self).files() == old(self).files(),
            record.path matches Some(p) ==> final(self).files() == old(self).files().insert(
                p@,
                Self::spec_row_of(*record),
            ),
    {
        let path = match &record.path {
            Some(p) => p.duplicate(),
            None => {
                return ;
            },
        };
        let source = search_source(&record.attrs);
        let row = StoredFile {
            modified: record.modified,
            attrs: record.attrs.duplicate(),
            search_index: lowercase(source.as_str()),
        };
        proof {
            assert(row@ == Self::spec_row_of(*record));
        }
        let found = self.find_file_index(&path);
        match found {
            Some(i) => {
                self.files.set(i, (path, row));
                proof {
                    lemma_file_set_entry_is_insert(old(self).files@, self.files@, i as int);
                }
            },
            None => {
                self.files.push((path, row));
                proof {
                    assert(self.files@.drop_last() =~= old(self).files@);
                }
            },
        }
    }

    /// Inserts or updates a folder row by its path.  A folder whose name
    /// begins with a dot is implementation-reserved, not user content,
    /// and is not indexed.
    pub fn upsert_folder(&mut self, path: &RelPath, name: &str)
        requires
            old(self).wf(),
        ensures
            final(self).wf(),
            final(self).files() == old(self).files(),
            name@.len() > 0 && name@[0] == '.' ==> final(self).folders() == old(self).folders(),
            !(name@.len() > 0 && name@[0] == '.') ==> final(self).folders() == old(
                self,
            ).folders().insert(path@, name@),
    {
        if name.unicode_len() > 0 && name.get_char(0) == '.' {
            return ;
        }
        let found = self.find_folder_index(path);
        match found {
            Some(i) => {
                self.folders.set(i, (path.duplicate(), name.to_owned()));
                proof {
                    lemma_folder_set_entry_is_insert(old(self).folders@, self.folders@, i as int);
                }
            },
            None => {
                self.folders.push((path.duplicate(), name.to_owned()));
                proof {
                    assert(self.folders@.drop_last() =~= old(self).folders@);
                }
            },
        }
    }

    /// Deletes the file row for `path`, if any.
    pub fn remove_file(&mut self, path: &RelPath)
        requires
            old(self).wf(),
        ensures
            final(self).wf(),
            final(self).files() == old(self).files().remove(path@),
            final(self).folders() == old(self).folders(),
    {
        let found = self.find_file_index(path);
        match found {
            Some(i) => {
                self.files.remove(i);
                proof {
                    lemma_file_remove_entry_is_remove(old(self).files@, i as int);
                    lemma_file_keys_unique_remove(old(self).files@, i as int);
                }
            },
            None => {
                proof {
                    lemma_files_map_contains(self.files@, path@);
                    assert(final(self).files() =~= old(self).files().remove(path@));
                }
            },
        }
    }

    /// Deletes every file row whose path is `path` or lies under it.
    pub fn remove_files_in_folder(&mut self, path: &RelPath)
        requires
            old(self).wf(),
        ensures
            final(self).wf(),
            final(self).folders() == old(self).folders(),
            forall|k: Seq<Seq<char>>| #[trigger]
                final(self).files().contains_key(k) <==> old(self).files().contains_key(k)
                    && !path@.is_prefix_of(k),
            forall|k: Seq<Seq<char>>| #[trigger]
                final(self).files().contains_key(k) ==> final(self).files()[k] == old(
                    self,
                ).files()[k],
    {
        let ghost orig_map = self.files();
        let mut i: usize = 0;
        while i < self.files.len()
            invariant
                i <= self.files@.len(),
                file_keys_unique(self.files@),
                self.folders@ == old(self).folders@,
                folder_keys_unique(self.folders@),
                forall|j: int| 0 <= j < i ==> !path@.is_prefix_of(#[trigger] self.files@[j].0@),
                forall|k: Seq<Seq<char>>| #[trigger]
                    files_map_of(self.files@).contains_key(k) ==> orig_map.contains_key(k)
                        && files_map_of(self.files@)[k] == orig_map[k],
                forall|k: Seq<Seq<char>>|
                    orig_map.contains_key(k) && !path@.is_prefix_of(k) ==> #[trigger] files_map_of(
                        self.files@,
                    ).contains_key(k),
            decreases self.files@.len() - i,
        {
            if self.files[i].0.starts_with(path) {
                let ghost pre = self.files@;
                self.files.remove(i);
                proof {
                    lemma_file_remove_entry_is_remove(pre, i as int);
                    lemma_file_keys_unique_remove(pre, i as int);
                }
            } else {
                i = i + 1;
            }
        }
        proof {
            assert forall|k: Seq<Seq<char>>| #[trigger]
                files_map_of(self.files@).contains_key(k) implies !path@.is_prefix_of(k) by {
                lemma_files_map_contains(self.files@, k);
                let j = choose|j: int| 0 <= j < self.files@.len() && self.files@[j].0@ == k;
            }
        }
    }

    /// Deletes every folder row whose path is `path` or lies under it.
    pub fn remove_folder_subtree(&mut self, path: &RelPath)
        requires
            old(self).wf(),
        ensures
            final(self).wf(),
            final(self).files() == old(self).files(),
            forall|k: Seq<Seq<char>>| #[trigger]
                final(self).folders().contains_key(k) <==> old(self).folders().contains_key(k)
                    && !path@.is_prefix_of(k),
            forall|k: Seq<Seq<char>>| #[trigger]
                final(self).folders().contains_key(k) ==> final(self).folders()[k] == old(
                    self,
                ).folders()[k],
    {
        let ghost orig_map = self.folders();
        let mut i: usize = 0;
        while i < self.folders.len()
            invariant
                i <= self.folders@.len(),
                folder_keys_unique(self.folders@),
                self.files@ == old(self).files@,
                file_keys_unique(self.files@),
                forall|j: int| 0 <= j < i ==> !path@.is_prefix_of(#[trigger] self.folders@[j].0@),
                forall|k: Seq<Seq<char>>| #[trigger]
                    folders_map_of(self.folders@).contains_key(k) ==> orig_map.contains_key(k)
                        && folders_map_of(self.folders@)[k] == orig_map[k],
                forall|k: Seq<Seq<char>>|
                    orig_map.contains_key(k) && !path@.is_prefix_of(k) ==> #[trigger] folders_map_of(
                        self.folders@,
                    ).contains_key(k),
            decreases self.folders@.len() - i,
        {
            if self.folders[i].0.starts_with(path) {
                let ghost pre = self.folders@;
                self.folders.remove(i);
                proof {
                    lemma_folder_remove_entry_is_remove(pre, i as int);
                    lemma_folder_keys_unique_remove(pre, i as int);
                }
            } else {
                i = i + 1;
            }
        }
        proof {
            assert forall|k: Seq<Seq<char>>| #[trigger]
                folders_map_of(self.folders@).contains_key(k) implies !path@.is_prefix_of(k) by {
                lemma_folders_map_contains(self.folders@, k);
                let j = choose|j: int| 0 <= j < self.folders@.len() && self.folders@[j].0@ == k;
            }
        }
    }
}

/// `needle` occurs in `hay` starting at position `i`.
pub open spec fn spec_contains_at(hay: Seq<char>, needle: Seq<char>, i: int) -> bool {
    0 <= i && i + needle.len() <= hay.len() && hay.subrange(i, i + needle.len()) == needle
}

/// `needle` occurs somewhere in `hay`.
pub open spec fn spec_contains(hay: Seq<char>, needle: Seq<char>) -> bool {
    exists|i: int| spec_contains_at(hay, needle, i)
}

/// Whether `needle` occurs in `hay` at exactly position `i`.
fn match_at(hay: &str, needle: &str, i: usize) -> (r: bool)
    requires
        i + needle@.len() <= hay@.len(),
        hay@.len() <= usize::MAX,
    ensures
        r == spec_contains_at(hay@, needle@, i as int),
{
    let nlen = needle.unicode_len();
    let mut j: usize = 0;
    while j < nlen
        invariant
            j <= nlen,
            nlen == needle@.len(),
            i + nlen <= hay@.len(),
            hay@.len() <= usize::MAX,
            forall|t: int| 0 <= t < j ==> hay@[i + t] == needle@[t],
        decreases nlen - j,
    {
        if hay.get_char(i + j) != needle.get_char(j) {
            proof {
                assert(hay@.subrange(i as int, i + nlen)[j as int] != needle@[j as int]);
            }
            return false;
        }
        j = j + 1;
    }
    proof {
        assert(hay@.subrange(i as int, i + nlen) =~= needle@);
    }
    true
}

/// Substring search, character for character.
pub fn contains_sub(hay: &str, needle: &str) -> (r: bool)
    ensures
        r == spec_contains(hay@, needle@),
{
    let hlen = hay.unicode_len();
    let nlen = needle.unicode_len();
    if nlen > hlen {
        proof {
            assert(forall|i: int| !spec_contains_at(hay@, needle@, i));
        }
        return false;
    }
    if nlen == 0 {
        proof {
            assert(hay@.subrange(0, 0) =~= needle@);
            assert(spec_contains_at(hay@, needle@, 0));
        }
        return true;
    }
    let mut i: usize = 0;
    while i <= hlen - nlen
        invariant
            1 <= nlen <= hlen,
            hlen == hay@.len(),
            nlen == needle@.len(),
            i <= hlen - nlen + 1,
            forall|t: int| 0 <= t < i ==> !spec_contains_at(hay@, needle@, t),
        decreases hlen - nlen + 1 - i,
    {
        if match_at(hay, needle, i) {
            return true;
        }
        i = i + 1;
    }
    proof {
        assert forall|t: int| !spec_contains_at(hay@, needle@, t) by {
            if 0 <= t <= hlen - nlen {
            }
        }
    }
    false
}

impl IndexStore {
    /// The records under `path_prefix` whose search text holds the
    /// lower-cased filter, as the consumer receives them: path and
    /// attributes, no markdown body.
    #[verifier::rlimit(100)]
    pub fn query_files(&self, path_prefix: &RelPath, filter: Option<&str>) -> (r: Vec<
        RecordFromDb,
    >)
        requires
            self.wf(),
        ensures
            forall|j: int|
                0 <= j < r@.len() ==> ({
                    let v = #[trigger] r@[j]@;
                    &&& v.path matches Some(p)
                    &&& self.files().contains_key(v.path->Some_0)
                    &&& path_prefix@.is_prefix_of(v.path->Some_0)
                    &&& v.modified == self.files()[v.path->Some_0].modified
                    &&& v.attrs == self.files()[v.path->Some_0].attrs
                    &&& v.markdown is None
                    &&& (filter matches Some(f) ==> spec_contains(
                        self.files()[v.path->Some_0].search_index,
                        lower_of(f@),
                    ))
                }),
            forall|k: Seq<Seq<char>>|
                #![trigger self.files().dom().contains(k)]
                self.files().contains_key(k) && path_prefix@.is_prefix_of(k) && (filter matches Some(
                    f,
                ) ==> spec_contains(self.files()[k].search_index, lower_of(f@))) ==> exists|j: int|
                    0 <= j < r@.len() && #[trigger] r@[j]@.path == Some(k),
            forall|a: int, b: int| 0 <= a < b < r@.len() ==> r@[a]@.path != r@[b]@.path,
    {
        let needle: Option<String> = match filter {
            Some(f) => Some(lowercase(f)),
            None => None,
        };
        let mut out: Vec<RecordFromDb> = Vec::new();
        let mut i: usize = 0;
        while i < self.files.len()
            invariant
                self.wf(),
                i <= self.files@.len(),
                needle matches Some(n) <==> filter matches Some(f),
                needle matches Some(n) ==> filter matches Some(f) && n@ == lower_of(f@),
                forall|j: int|
                    0 <= j < out@.len() ==> ({
                        let v = #[trigger] out@[j]@;
                        &&& v.path matches Some(p)
                        &&& self.files().contains_key(v.path->Some_0)
                        &&& path_prefix@.is_prefix_of(v.path->Some_0)
                        &&& v.modified == self.files()[v.path->Some_0].modified
                        &&& v.attrs == self.files()[v.path->Some_0].attrs
                        &&& v.markdown is None
                        &&& (filter matches Some(f) ==> spec_contains(
                            self.files()[v.path->Some_0].search_index,
                            lower_of(f@),
                        ))
                    }),
                forall|j: int|
                    0 <= j < out@.len() ==> exists|t: int|
                        0 <= t < i && #[trigger] out@[j]@.path == Some(self.files@[t].0@),
                forall|t: int|
                    #![trigger self.files@[t]]
                    0 <= t < i && path_prefix@.is_prefix_of(self.files@[t].0@) && (filter matches Some(
                        f,
                    ) ==> spec_contains(self.files@[t].1@.search_index, lower_of(f@)))
                        ==> exists|j: int|
                        0 <= j < out@.len() && out@[j]@.path == Some(self.files@[t].0@),
                forall|a: int, b: int| 0 <= a < b < out@.len() ==> out@[a]@.path != out@[b]@.path,
            decreases self.files@.len() - i,
        {
            let under = self.files[i].0.starts_with(path_prefix);
            let hit = match &needle {
                Some(n) => contains_sub(self.files[i].1.search_index.as_str(), n.as_str()),
                None => true,
            };
            if under && hit {
                proof {
                    lemma_file_index(self.files@, i as int);
                }
                let ghost prev = out@;
                out.push(
                    RecordFromDb {
                        path: Some(self.files[i].0.duplicate()),
                        modified: self.files[i].1.modified,
                        markdown: None,
                        attrs: self.files[i].1.attrs.duplicate(),
                    },
                );
                proof {
                    let last = prev.len() as int;
                    assert(out@[last]@.path == Some(self.files@[i as int].0@));
                    assert forall|j: int| 0 <= j < out@.len() implies exists|t: int|
                        0 <= t < i + 1 && #[trigger] out@[j]@.path == Some(
                            self.files@[t].0@,
                        ) by {
                        if j < last {
                            assert(out@[j] == prev[j]);
                            let t = choose|t: int|
                                0 <= t < i && prev[j]@.path == Some(self.files@[t].0@);
                            assert(out@[j]@.path == Some(self.files@[t].0@));
                        } else {
                            assert(out@[j]@.path == Some(self.files@[i as int].0@));
                        }
                    }
                    assert forall|a: int, b: int| 0 <= a < b < out@.len() implies out@[a]@.path
                        != out@[b]@.path by {
                        if b < last {
                            assert(out@[a] == prev[a] && out@[b] == prev[b]);
                        } else {
                            assert(out@[a] == prev[a]);
                            let t = choose|t: int|
                                0 <= t < i && prev[a]@.path == Some(self.files@[t].0@);
                            assert(self.files@[t].0@ != self.files@[i as int].0@);
                        }
                    }
                    assert forall|t: int|
                        #![trigger self.files@[t]]
                        0 <= t < i + 1 && path_prefix@.is_prefix_of(self.files@[t].0@) && (
                        filter matches Some(f) ==> spec_contains(
                            self.files@[t].1@.search_index,
                            lower_of(f@),
                        )) implies exists|j: int|
                        0 <= j < out@.len() && out@[j]@.path == Some(self.files@[t].0@) by {
                        if t < i {
                            let j = choose|j: int|
                                0 <= j < prev.len() && prev[j]@.path == Some(self.files@[t].0@);
                            assert(out@[j] == prev[j]);
                        } else {
                            assert(out@[last]@.path == Some(self.files@[t].0@));
                        }
                    }
                }
            } else {
                proof {
                    assert(!(path_prefix@.is_prefix_of(self.files@[i as int].0@) && (
                    filter matches Some(f) ==> spec_contains(
                        self.files@[i as int].1@.search_index,
                        lower_of(f@),
                    ))));
                }
            }
            i = i + 1;
        }
        proof {
            assert forall|k: Seq<Seq<char>>|
                self.files().contains_key(k) && path_prefix@.is_prefix_of(k) && (
                filter matches Some(f) ==> spec_contains(
                    self.files()[k].search_index,
                    lower_of(f@),
                )) implies exists|j: int|
                0 <= j < out@.len() && #[trigger] out@[j]@.path == Some(k) by {
                lemma_files_map_contains(self.files@, k);
                let t = choose|t: int| 0 <= t < self.files@.len() && self.files@[t].0@ == k;
                lemma_file_index(self.files@, t);
            }
        }
        out
    }

    /// All folder rows, each with its schema flags computed against the
    /// schema store: whether some schema governs it, whether it owns that
    /// schema itself, and where the schema file lives.
    #[verifier::rlimit(100)]
    pub fn get_all_folders(
        &self,
        schemas: &crate::schema_store::SchemasInMemoryCache,
    ) -> (r: FolderListGetResult)
        requires
            self.wf(),
            schemas.wf(),
        ensures
            forall|j: int|
                0 <= j < r.folders@.len() ==> ({
                    let f = #[trigger] r.folders@[j];
                    &&& self.folders().contains_key(f.path@)
                    &&& f.name@ == self.folders()[f.path@]
                    &&& spec_folder_flags(schemas@, f)
                }),
            forall|k: Seq<Seq<char>>|
                #![trigger self.folders().dom().contains(k)]
                self.folders().contains_key(k) ==> exists|j: int|
                    0 <= j < r.folders@.len() && #[trigger] r.folders@[j].path@ == k,
            forall|a: int, b: int|
                0 <= a < b < r.folders@.len() ==> r.folders@[a].path@ != r.folders@[b].path@,
    {
        let mut out: Vec<FolderOnDisk> = Vec::new();
        let mut i: usize = 0;
        while i < self.folders.len()
            invariant
                self.wf(),
                schemas.wf(),
                i <= self.folders@.len(),
                forall|j: int|
                    0 <= j < out@.len() ==> ({
                        let f = #[trigger] out@[j];
                        &&& self.folders().contains_key(f.path@)
                        &&& f.name@ == self.folders()[f.path@]
                        &&& spec_folder_flags(schemas@, f)
                    }),
                forall|j: int|
                    0 <= j < out@.len() ==> exists|t: int|
                        0 <= t < i && #[trigger] out@[j].path@ == self.folders@[t].0@,
                forall|t: int|
                    0 <= t < i ==> exists|j: int|
                        0 <= j < out@.len() && out@[j].path@ == #[trigger] self.folders@[t].0@,
                forall|a: int, b: int| 0 <= a < b < out@.len() ==> out@[a].path@ != out@[b].path@,
            decreases self.folders@.len() - i,
        {
            proof {
                lemma_folder_index(self.folders@, i as int);
            }
            let row = self.folder_with_flags(i, schemas);
            let ghost prev = out@;
            out.push(row);
            proof {
                let last = prev.len() as int;
                assert(out@[last].path@ == self.folders@[i as int].0@);
                assert forall|j: int| 0 <= j < out@.len() implies exists|t: int|
                    0 <= t < i + 1 && #[trigger] out@[j].path@ == self.folders@[t].0@ by {
                    if j < last {
                        assert(out@[j] == prev[j]);
                        let t = choose|t: int|
                            0 <= t < i && prev[j].path@ == self.folders@[t].0@;
                        assert(out@[j].path@ == self.folders@[t].0@);
                    } else {
                        assert(out@[j].path@ == self.folders@[i as int].0@);
                    }
                }
                assert forall|a: int, b: int| 0 <= a < b < out@.len() implies out@[a].path@
                    != out@[b].path@ by {
                    if b < last {
                        assert(out@[a] == prev[a] && out@[b] == prev[b]);
                    } else {
                        assert(out@[a] == prev[a]);
                        let t = choose|t: int|
                            0 <= t < i && prev[a].path@ == self.folders@[t].0@;
                        assert(self.folders@[t].0@ != self.folders@[i as int].0@);
                    }
                }
                assert forall|t: int| 0 <= t < i + 1 implies exists|j: int|
                    0 <= j < out@.len() && out@[j].path@ == #[trigger] self.folders@[t].0@ by {
                    if t < i {
                        let j = choose|j: int|
                            0 <= j < prev.len() && prev[j].path@ == self.folders@[t].0@;
                        assert(out@[j] == prev[j]);
                    } else {
                        assert(out@[last].path@ == self.folders@[t].0@);
                    }
                }
            }
            i = i + 1;
        }
        proof {
            assert forall|k: Seq<Seq<char>>| self.folders().contains_key(k) implies exists|j: int|
                0 <= j < out@.len() && #[trigger] out@[j].path@ == k by {
                lemma_folders_map_contains(self.folders@, k);
                let t = choose|t: int| 0 <= t < self.folders@.len() && self.folders@[t].0@ == k;
            }
        }
        FolderListGetResult { folders: out }
    }

    /// Only the folders whose resolved schema is owned by exactly
    /// `schema_folder`: the subtree a schema being inspected governs.
    #[verifier::rlimit(100)]
    pub fn get_all_folders_by_schema(
        &self,
        schema_folder: &RelPath,
        schemas: &crate::schema_store::SchemasInMemoryCache,
    ) -> (r: FolderListGetResult)
        requires
            self.wf(),
            schemas.wf(),
        ensures
            forall|j: int|
                0 <= j < r.folders@.len() ==> ({
                    let f = #[trigger] r.folders@[j];
                    &&& self.folders().contains_key(f.path@)
                    &&& f.name@ == self.folders()[f.path@]
                    &&& spec_folder_flags(schemas@, f)
                    &&& schema_folder@.is_prefix_of(f.path@)
                    &&& crate::schema_store::spec_resolve_owner(schemas@, f.path@) == Some(
                        schema_folder@,
                    )
                }),
            forall|k: Seq<Seq<char>>|
                #![trigger self.folders().dom().contains(k)]
                self.folders().contains_key(k) && schema_folder@.is_prefix_of(k)
                    && crate::schema_store::spec_resolve_owner(schemas@, k) == Some(schema_folder@)
                    ==> exists|j: int|
                    0 <= j < r.folders@.len() && #[trigger] r.folders@[j].path@ == k,
            forall|a: int, b: int|
                0 <= a < b < r.folders@.len() ==> r.folders@[a].path@ != r.folders@[b].path@,
    {
        let mut out: Vec<FolderOnDisk> = Vec::new();
        let mut i: usize = 0;
        while i < self.folders.len()
            invariant
                self.wf(),
                schemas.wf(),
                i <= self.folders@.len(),
                forall|j: int|
                    0 <= j < out@.len() ==> ({
                        let f = #[trigger] out@[j];
                        &&& self.folders().contains_key(f.path@)
                        &&& f.name@ == self.folders()[f.path@]
                        &&& spec_folder_flags(schemas@, f)
                        &&& schema_folder@.is_prefix_of(f.path@)
                        &&& crate::schema_store::spec_resolve_owner(schemas@, f.path@) == Some(
                            schema_folder@,
                        )
                    }),
                forall|j: int|
                    0 <= j < out@.len() ==> exists|t: int|
                        0 <= t < i && #[trigger] out@[j].path@ == self.folders@[t].0@,
                forall|t: int|
                    #![trigger self.folders@[t]]
                    0 <= t < i && schema_folder@.is_prefix_of(self.folders@[t].0@)
                        && crate::schema_store::spec_resolve_owner(schemas@, self.folders@[t].0@)
                        == Some(schema_folder@) ==> exists|j: int|
                        0 <= j < out@.len() && out@[j].path@ == self.folders@[t].0@,
                forall|a: int, b: int| 0 <= a < b < out@.len() ==> out@[a].path@ != out@[b].path@,
            decreases self.folders@.len() - i,
        {
            let under = self.folders[i].0.starts_with(schema_folder);
            let owner = schemas.get_schema_owner(&self.folders[i].0);
            let owned_here = match &owner {
                Some(o) => crate::schema_store::rel_path_eq(o, schema_folder),
                None => false,
            };
            if under && owned_here {
                proof {
                    lemma_folder_index(self.folders@, i as int);
                }
                let row = self.folder_with_flags(i, schemas);
                let ghost prev = out@;
                out.push(row);
                proof {
                    let last = prev.len() as int;
                    assert(out@[last].path@ == self.folders@[i as int].0@);
                    assert forall|j: int| 0 <= j < out@.len() implies exists|t: int|
                        0 <= t < i + 1 && #[trigger] out@[j].path@ == self.folders@[t].0@ by {
                        if j < last {
                            assert(out@[j] == prev[j]);
                            let t = choose|t: int|
                                0 <= t < i && prev[j].path@ == self.folders@[t].0@;
                            assert(out@[j].path@ == self.folders@[t].0@);
                        } else {
                            assert(out@[j].path@ == self.folders@[i as int].0@);
                        }
                    }
                    assert forall|a: int, b: int| 0 <= a < b < out@.len() implies out@[a].path@
                        != out@[b].path@ by {
                        if b < last {
                            assert(out@[a] == prev[a] && out@[b] == prev[b]);
                        } else {
                            assert(out@[a] == prev[a]);
                            let t = choose|t: int|
                                0 <= t < i && prev[a].path@ == self.folders@[t].0@;
                            assert(self.folders@[t].0@ != self.folders@[i as int].0@);
                        }
                    }
                    assert forall|t: int|
                        #![trigger self.folders@[t]]
                        0 <= t < i + 1 && schema_folder@.is_prefix_of(self.folders@[t].0@)
                            && crate::schema_store::spec_resolve_owner(
                            schemas@,
                            self.folders@[t].0@,
                        ) == Some(schema_folder@) implies exists|j: int|
                        0 <= j < out@.len() && out@[j].path@ == self.folders@[t].0@ by {
                        if t < i {
                            let j = choose|j: int|
                                0 <= j < prev.len() && prev[j].path@ == self.folders@[t].0@;
                            assert(out@[j] == prev[j]);
                        } else {
                            assert(out@[last].path@ == self.folders@[t].0@);
                        }
                    }
                }
            } else {
                proof {
                    assert(!(schema_folder@.is_prefix_of(self.folders@[i as int].0@)
                        && crate::schema_store::spec_resolve_owner(
                        schemas@,
                        self.folders@[i as int].0@,
                    ) == Some(schema_folder@)));
                }
            }
            i = i + 1;
        }
        proof {
            assert forall|k: Seq<Seq<char>>|
                self.folders().contains_key(k) && schema_folder@.is_prefix_of(k)
                    && crate::schema_store::spec_resolve_owner(schemas@, k) == Some(
                    schema_folder@,
                ) implies exists|j: int|
                0 <= j < out@.len() && #[trigger] out@[j].path@ == k by {
                lemma_folders_map_contains(self.folders@, k);
                let t = choose|t: int| 0 <= t < self.folders@.len() && self.folders@[t].0@ == k;
            }
        }
        FolderListGetResult { folders: out }
    }

    /// One folder row with its schema flags freshly computed.
    fn folder_with_flags(
        &self,
        i: usize,
        schemas: &crate::schema_store::SchemasInMemoryCache,
    ) -> (f: FolderOnDisk)
        requires
            self.wf(),
            schemas.wf(),
            i < self.folders@.len(),
        ensures
            f.path@ == self.folders@[i as int].0@,
            f.name@ == self.folders()[f.path@],
            spec_folder_flags(schemas@, f),
    {
        proof {
            lemma_folder_index(self.folders@, i as int);
        }
        let path = self.folders[i].0.duplicate();
        let name = self.folders[i].1.clone();
        let owner = schemas.get_schema_owner(&self.folders[i].0);
        match owner {
            Some(o) => {
                let own = crate::schema_store::rel_path_eq(&o, &self.folders[i].0);
                let file = o.child(crate::schema_store::internal_folder_name().as_str()).child(
                    crate::schema_store::schema_file_name().as_str(),
                );
                FolderOnDisk {
                    path,
                    name,
                    has_schema: true,
                    own_schema: own,
                    schema_file_path: Some(file),
                }
            },
            None => FolderOnDisk {
                path,
                name,
                has_schema: false,
                own_schema: false,
                schema_file_path: None,
            },
        }
    }
}

/// The schema flags of a folder row are exactly what resolution against
/// the schema store says of its path.
pub open spec fn spec_folder_flags(
    schemas: Map<Seq<Seq<char>>, crate::schema::SchemaV>,
    f: FolderOnDisk,
) -> bool {
    match crate::schema_store::spec_resolve_owner(schemas, f.path@) {
        Some(o) => f.has_schema && f.own_schema == (o == f.path@) && (
        f.schema_file_path matches Some(sp) && sp@ == crate::schema_store::spec_schema_file_of(o)),
        None => !f.has_schema && !f.own_schema && f.schema_file_path is None,
    }
}

proof fn lemma_file_index(s: Seq<(RelPath, StoredFile)>, i: int)
    requires
        file_keys_unique(s),
        0 <= i < s.len(),
    ensures
        files_map_of(s).contains_key(s[i].0@),
        files_map_of(s)[s[i].0@] == s[i].1@,
    decreases s.len(),
{
    lemma_files_map_contains(s, s[i].0@);
    if i == s.len() - 1 {
    } else {
        assert(s.drop_last()[i] == s[i]);
        lemma_file_index(s.drop_last(), i);
        assert(s[s.len() - 1].0@ != s[i].0@);
    }
}

proof fn lemma_folder_index(s: Seq<(RelPath, String)>, i: int)
    requires
        folder_keys_unique(s),
        0 <= i < s.len(),
    ensures
        folders_map_of(s).contains_key(s[i].0@),
        folders_map_of(s)[s[i].0@] == s[i].1@,
    decreases s.len(),
{
    lemma_folders_map_contains(s, s[i].0@);
    if i == s.len() - 1 {
    } else {
        assert(s.drop_last()[i] == s[i]);
        lemma_folder_index(s.drop_last(), i);
        assert(s[s.len() - 1].0@ != s[i].0@);
    }
}

/// How the persistent mirror of the store is opened: in memory for
/// tests, or in a folder on disk.
#[derive(Debug)]
pub enum InitMode {
    InMemory,
    InFolder(String),
}

/// A record listing together with the schema that governs the queried
/// folder.
#[derive(Debug)]
pub struct RecordListGetResult {
    pub schema: crate::schema_store::SchemaResult,
    pub records: Vec<RecordFromDb>,
}

/// The records under `path`: exactly the files rows whose path lies
/// under the prefix and whose search text holds the lower-cased filter,
/// no other, each once, in ascending path order, together with the
/// schema governing the queried folder.  A folder no schema governs
/// cannot be listed and reports the resolution failure.
pub fn get_files_by_path(
    store: &IndexStore,
    schemas: &crate::schema_store::SchemasInMemoryCache,
    path: &RelPath,
    search: Option<&str>,
) -> (r: Result<RecordListGetResult, crate::errors::ErrFR>)
    requires
        store.wf(),
        schemas.wf(),
    ensures
        r matches Ok(lst) ==> crate::schema_store::spec_resolve_owner(schemas@, path@) == Some(
            lst.schema.location.schema_owner_folder@,
        ) && lst.schema.schema@ == schemas@[lst.schema.location.schema_owner_folder@]
            && lst.schema.location.schema_path@ == crate::schema_store::spec_schema_file_of(
            lst.schema.location.schema_owner_folder@,
        ),
        r matches Ok(lst) ==> forall|j: int|
            0 <= j < lst.records@.len() ==> ({
                let v = #[trigger] lst.records@[j]@;
                &&& v.path matches Some(q)
                &&& store.files().contains_key(v.path->Some_0)
                &&& path@.is_prefix_of(v.path->Some_0)
                &&& v.modified == store.files()[v.path->Some_0].modified
                &&& v.attrs == store.files()[v.path->Some_0].attrs
                &&& v.markdown is None
                &&& (search matches Some(f) ==> spec_contains(
                    store.files()[v.path->Some_0].search_index,
                    lower_of(f@),
                ))
            }),
        r matches Ok(lst) ==> forall|k: Seq<Seq<char>>|
            #![trigger store.files().dom().contains(k)]
            store.files().contains_key(k) && path@.is_prefix_of(k) && (search matches Some(f)
                ==> spec_contains(store.files()[k].search_index, lower_of(f@))) ==> exists|j: int|
                0 <= j < lst.records@.len() && #[trigger] lst.records@[j]@.path == Some(k),
        r matches Ok(lst) ==> forall|a: int, b: int|
            0 <= a < b < lst.records@.len() ==> lst.records@[a]@.path != lst.records@[b]@.path,
        r matches Ok(lst) ==> spec_records_sorted(lst.records@),
        r matches Err(e) ==> crate::schema_store::spec_resolve_owner(schemas@, path@) is None
            && e.title@ == "Unable to retrieve schema"@,
{
    let schema = match schemas.get_schema_safe(path) {
        Ok(s) => s,
        Err(e) => {
            return Err(e);
        },
    };
    let unsorted = store.query_files(path, search);
    let ghost uns = unsorted@;
    let records = sort_records_by_path(unsorted);
    proof {
        broadcast use vstd::seq_lib::group_to_multiset_ensures;
        broadcast use vstd::multiset::group_multiset_axioms;

        lemma_same_values(records@, uns);
        lemma_same_values(uns, records@);
        assert forall|j: int|
            0 <= j < records@.len() implies ({
            let v = #[trigger] records@[j]@;
            &&& v.path matches Some(q)
            &&& store.files().contains_key(v.path->Some_0)
            &&& path@.is_prefix_of(v.path->Some_0)
            &&& v.modified == store.files()[v.path->Some_0].modified
            &&& v.attrs == store.files()[v.path->Some_0].attrs
            &&& v.markdown is None
            &&& (search matches Some(f) ==> spec_contains(
                store.files()[v.path->Some_0].search_index,
                lower_of(f@),
            ))
        }) by {
            assert(records@.contains(records@[j]));
            let t = choose|t: int| 0 <= t < uns.len() && uns[t] == records@[j];
            assert(uns[t]@ == records@[j]@);
        }
        assert forall|k: Seq<Seq<char>>|
            store.files().contains_key(k) && path@.is_prefix_of(k) && (search matches Some(f)
                ==> spec_contains(
                store.files()[k].search_index,
                lower_of(f@),
            )) implies exists|j: int|
            0 <= j < records@.len() && #[trigger] records@[j]@.path == Some(k) by {
            assert(store.files().dom().contains(k));
            let t = choose|t: int| 0 <= t < uns.len() && #[trigger] uns[t]@.path == Some(k);
            assert(uns.contains(uns[t]));
            let j = choose|j: int| 0 <= j < records@.len() && records@[j] == uns[t];
            assert(records@[j]@.path == Some(k));
        }
        assert forall|a: int, b: int|
            0 <= a < b < records@.len() implies records@[a]@.path != records@[b]@.path by {
            if records@[a]@.path == records@[b]@.path {
                lemma_two_indices_two_sources(records@, uns, a, b);
            }
        }
    }
    Ok(RecordListGetResult { schema, records })
}

/// Every element of `a` occurs in `b`, when the two hold the same
/// multiset of records.
proof fn lemma_same_values(a: Seq<RecordFromDb>, b: Seq<RecordFromDb>)
    requires
        a.to_multiset() == b.to_multiset(),
    ensures
        forall|j: int| 0 <= j < a.len() ==> b.contains(#[trigger] a[j]),
{
    broadcast use vstd::seq_lib::group_to_multiset_ensures;
    broadcast use vstd::multiset::group_multiset_axioms;

    assert forall|j: int| 0 <= j < a.len() implies b.contains(#[trigger] a[j]) by {
        assert(a.contains(a[j]));
        assert(a.to_multiset().count(a[j]) > 0);
        assert(b.to_multiset().count(a[j]) > 0);
    }
}

/// Two positions of `a` holding records with one path find two distinct
/// positions of `b` holding records with that path, when the two hold
/// the same multiset: a listing with pairwise-distinct paths therefore
/// stays pairwise-distinct under any permutation.
proof fn lemma_two_indices_two_sources(a: Seq<RecordFromDb>, b: Seq<RecordFromDb>, i: int, j: int)
    requires
        a.to_multiset() == b.to_multiset(),
        0 <= i < j < a.len(),
        a[i]@.path == a[j]@.path,
    ensures
        exists|s: int, t: int|
            0 <= s < b.len() && 0 <= t < b.len() && s != t && #[trigger] b[s]@.path == a[i]@.path
                && #[trigger] b[t]@.path == a[i]@.path,
{
    broadcast use vstd::seq_lib::group_to_multiset_ensures;
    broadcast use vstd::multiset::group_multiset_axioms;

    if a[i] == a[j] {
        let v = a[i];
        assert(a.remove(i).to_multiset() =~= a.to_multiset().remove(v));
        assert(a.remove(i)[j - 1] == a[j]);
        assert(a.remove(i).contains(v));
        assert(a.to_multiset().remove(v).count(v) >= 1);
        assert(b.to_multiset().count(v) >= 2);
        assert(b.to_multiset().count(v) > 0);
        assert(b.contains(v));
        let s = choose|s: int| 0 <= s < b.len() && b[s] == v;
        assert(b.remove(s).to_multiset() =~= b.to_multiset().remove(v));
        assert(b.remove(s).to_multiset().count(v) >= 1);
        assert(b.remove(s).contains(v));
        let u = choose|u: int| 0 <= u < b.remove(s).len() && b.remove(s)[u] == v;
        let t = if u < s {
            u
        } else {
            u + 1
        };
        assert(b[t] == v) by {
            assert(b.remove(s)[u] == b[t]);
        }
        assert(b[s]@.path == a[i]@.path && b[t]@.path == a[i]@.path && s != t);
    } else {
        assert(a.contains(a[i]) && a.contains(a[j]));
        assert(a.to_multiset().count(a[i]) > 0 && a.to_multiset().count(a[j]) > 0);
        assert(b.to_multiset().count(a[i]) > 0 && b.to_multiset().count(a[j]) > 0);
        assert(b.contains(a[i]) && b.contains(a[j]));
        let s = choose|s: int| 0 <= s < b.len() && b[s] == a[i];
        let t = choose|t: int| 0 <= t < b.len() && b[t] == a[j];
        assert(s != t);
        assert(b[s]@.path == a[i]@.path && b[t]@.path == a[i]@.path);
    }
}

/// The key one record sorts by under a path ordering: its display path.
pub open spec fn spec_record_sort_key(r: RecordFromDb) -> Seq<char> {
    match r.path {
        Some(p) => crate::paths::spec_join_path(p@),
        None => Seq::empty(),
    }
}

/// Whether a record listing is in path order.
pub open spec fn spec_records_sorted(s: Seq<RecordFromDb>) -> bool {
    forall|i: int, j: int|
        0 <= i < j < s.len() ==> crate::paths::spec_lex_le(
            spec_record_sort_key(#[trigger] s[i]),
            spec_record_sort_key(#[trigger] s[j]),
        )
}

fn record_sort_key(r: &RecordFromDb) -> (k: String)
    ensures
        k@ == spec_record_sort_key(*r),
{
    match &r.path {
        Some(p) => p.to_display(),
        None => String::new(),
    }
}

/// Whether the record at `j` sorts at or before `key`.
fn key_le_at(out: &Vec<RecordFromDb>, j: usize, key: &str) -> (r: bool)
    requires
        j < out@.len(),
    ensures
        r == crate::paths::spec_lex_le(spec_record_sort_key(out@[j as int]), key@),
{
    let k = record_sort_key(&out[j]);
    crate::paths::str_le(k.as_str(), key)
}

/// The same records, in path order: a query composes with this to give
/// the lexical ordering a listing is served in.
pub fn sort_records_by_path(records: Vec<RecordFromDb>) -> (r: Vec<RecordFromDb>)
    ensures
        r@.to_multiset() == records@.to_multiset(),
        spec_records_sorted(r@),
{
    broadcast use vstd::seq_lib::group_to_multiset_ensures;

    let mut input = records;
    let mut out: Vec<RecordFromDb> = Vec::new();
    proof {
        assert(out@.to_multiset().add(input@.to_multiset()) =~= records@.to_multiset());
    }
    while input.len() > 0
        invariant
            spec_records_sorted(out@),
            out@.to_multiset().add(input@.to_multiset()) == records@.to_multiset(),
        decreases input@.len(),
    {
        let ghost input0 = input@;
        let rec = input.remove(0);
        proof {
            broadcast use vstd::seq_lib::group_to_multiset_ensures;
            broadcast use vstd::multiset::group_multiset_axioms;

            assert(input@ =~= input0.remove(0));
            assert(input0.remove(0).to_multiset() =~= input0.to_multiset().remove(input0[0]));
            assert(input0[0] == rec);
            assert(input@.to_multiset() =~= input0.to_multiset().remove(rec));
            assert(input0.contains(rec)) by {
                assert(input0[0] == rec);
            }
        }
        let key = record_sort_key(&rec);
        let mut j: usize = 0;
        while j < out.len() && key_le_at(&out, j, key.as_str())
            invariant
                j <= out@.len(),
                key@ == spec_record_sort_key(rec),
                forall|t: int|
                    0 <= t < j ==> crate::paths::spec_lex_le(
                        spec_record_sort_key(#[trigger] out@[t]),
                        spec_record_sort_key(rec),
                    ),
            decreases out@.len() - j,
        {
            j = j + 1;
        }
        let ghost out0 = out@;
        out.insert(j, rec);
        proof {
            broadcast use vstd::seq_lib::group_to_multiset_ensures;
            broadcast use vstd::multiset::group_multiset_axioms;

            assert(out@ =~= out0.insert(j as int, rec));
            assert(out0.insert(j as int, rec).to_multiset() == out0.to_multiset().insert(rec));
            assert(out@.to_multiset() =~= out0.to_multiset().insert(rec));
            assert(input0.to_multiset().count(rec) >= 1) by {
                assert(input0.contains(rec));
            }
            assert(out@.to_multiset().add(input@.to_multiset()) =~= records@.to_multiset());
            assert forall|a: int, b: int|
                0 <= a < b < out@.len() implies crate::paths::spec_lex_le(
                spec_record_sort_key(#[trigger] out@[a]),
                spec_record_sort_key(#[trigger] out@[b]),
            ) by {
                let ja = j as int;
                if b < ja {
                    assert(out@[a] == out0[a] && out@[b] == out0[b]);
                } else if a > ja {
                    assert(out@[a] == out0[a - 1] && out@[b] == out0[b - 1]);
                } else if a < ja && b == ja {
                    assert(out@[a] == out0[a]);
                } else if a == ja && b > ja {
                    assert(out@[b] == out0[b - 1]);
                    crate::paths::lemma_lex_total(
                        spec_record_sort_key(out0[ja]),
                        spec_record_sort_key(rec),
                    );
                    assert(crate::paths::spec_lex_le(
                        spec_record_sort_key(rec),
                        spec_record_sort_key(out0[ja]),
                    ));
                    if b - 1 > ja {
                        crate::paths::lemma_lex_trans(
                            spec_record_sort_key(rec),
                            spec_record_sort_key(out0[ja]),
                            spec_record_sort_key(out0[b - 1]),
                        );
                    }
                } else if a < ja && b > ja {
                    assert(out@[a] == out0[a] && out@[b] == out0[b - 1]);
                }
            }
        }
    }
    proof {
        broadcast use vstd::seq_lib::group_to_multiset_ensures;
        broadcast use vstd::multiset::group_multiset_axioms;

        assert(input@.to_multiset() =~= vstd::multiset::Multiset::<RecordFromDb>::empty());
        assert(out@.to_multiset().add(input@.to_multiset()) =~= out@.to_multiset());
    }
    out
}

/// The text a record sorts by under one schema field, per the field's
/// kind: a date-pair field sorts by its last pair's end date, a plain
/// date collection by its first element, everything else by the raw
/// value's text; an absent or empty value sorts first.
pub open spec fn spec_field_sort_key(v: Option<AttrValueV>, t: crate::schema::SchemaAttrTypeV) -> Seq<
    char,
> {
    match (v, t) {
        (
            Some(AttrValueV::DatePairVec(Some(ps))),
            crate::schema::SchemaAttrTypeV::DatesPairCollection(_),
        ) => if ps.len() > 0 {
            match ps.last().finished {
                Some(f) => f,
                None => Seq::empty(),
            }
        } else {
            Seq::empty()
        },
        (Some(AttrValueV::StrVec(Some(xs))), crate::schema::SchemaAttrTypeV::DateCollection(_)) => if xs.len()
            > 0 {
            xs.first()
        } else {
            Seq::empty()
        },
        (Some(AttrValueV::Str(Some(s))), _) => s,
        (Some(AttrValueV::Integer(Some(n))), _) => n,
        (Some(AttrValueV::Float(Some(n))), _) => n,
        (Some(AttrValueV::StrVec(Some(xs))), _) => if xs.len() > 0 {
            xs.first()
        } else {
            Seq::empty()
        },
        _ => Seq::empty(),
    }
}

/// The text a record sorts by under the schema field named `field`.
pub fn field_sort_key(
    record: &RecordFromDb,
    field: &str,
    field_type: &crate::schema::SchemaAttrType,
) -> (k: String)
    requires
        record.wf(),
    ensures
        record@.attrs.contains_key(field@) ==> k@ == spec_field_sort_key(
            Some(record@.attrs[field@]),
            field_type@,
        ),
        !record@.attrs.contains_key(field@) ==> k@ == spec_field_sort_key(None, field_type@),
{
    let found = record.attrs.get(field);
    match (found, field_type) {
        (
            Some(AttrValue::DatePairVec(Some(ps))),
            crate::schema::SchemaAttrType::DatesPairCollection(_),
        ) => {
            if ps.len() > 0 {
                match &ps[ps.len() - 1].finished {
                    Some(f) => f.clone(),
                    None => String::new(),
                }
            } else {
                String::new()
            }
        },
        (Some(AttrValue::StrVec(Some(xs))), crate::schema::SchemaAttrType::DateCollection(_)) => {
            if xs.len() > 0 {
                xs[0].clone()
            } else {
                String::new()
            }
        },
        (Some(AttrValue::Str(Some(s))), _) => s.clone(),
        (Some(AttrValue::Integer(Some(n))), _) => n.clone(),
        (Some(AttrValue::Float(Some(n))), _) => n.clone(),
        (Some(AttrValue::StrVec(Some(xs))), _) => {
            if xs.len() > 0 {
                xs[0].clone()
            } else {
                String::new()
            }
        },
        _ => String::new(),
    }
}

/// Idempotent upsert: writing the same row twice leaves the table exactly
/// as one write leaves it, for files and folders alike.
pub proof fn lemma_upsert_idempotent<K, V>(m: Map<K, V>, k: K, v: V)
    ensures
        m.insert(k, v).insert(k, v) == m.insert(k, v),
{
    assert(m.insert(k, v).insert(k, v) =~= m.insert(k, v));
}

/// The search text an attribute map contributes, before lower-casing.
fn search_source(attrs: &AttrMap) -> (r: String)
    ensures
        r@ == spec_search_source(attrs.entries_view()),
{
    let entries = attrs.entries();
    let ghost ev = attrs.entries_view();
    let mut out = String::new();
    let mut i: usize = 0;
    proof {
        assert(ev.subrange(0, 0) =~= Seq::<(Seq<char>, AttrValueV)>::empty());
        assert(out@ =~= spec_search_source(ev.subrange(0, 0)));
    }
    while i < entries.len()
        invariant
            i <= entries@.len(),
            entries@.len() == ev.len(),
            forall|j: int|
                0 <= j < ev.len() ==> (#[trigger] entries@[j].0@) == ev[j].0 && entries@[j].1@
                    == ev[j].1,
            out@ == spec_search_source(ev.subrange(0, i as int)),
        decreases entries@.len() - i,
    {
        proof {
            assert(entries@[i as int].0@ == ev[i as int].0);
            assert(entries@[i as int].1@ == ev[i as int].1);
        }
        append_attr_contrib(&mut out, &entries[i].1);
        proof {
            assert(ev.subrange(0, i + 1).drop_last() =~= ev.subrange(0, i as int));
            assert(ev.subrange(0, i + 1).last() == ev[i as int]);
        }
        i = i + 1;
    }
    proof {
        assert(ev.subrange(0, ev.len() as int) =~= ev);
    }
    out
}

/// Appends one attribute value's search contribution.
fn append_attr_contrib(out: &mut String, v: &AttrValue)
    ensures
        final(out)@ == old(out)@ + spec_attr_contrib(v@),
{
    match v {
        AttrValue::Str(o) => append_opt_contrib(out, o),
        AttrValue::Integer(o) => append_opt_contrib(out, o),
        AttrValue::Float(o) => append_opt_contrib(out, o),
        AttrValue::StrVec(o) => {
            match o {
                None => {
                    proof {
                        assert(final(out)@ =~= old(out)@ + spec_attr_contrib(v@));
                    }
                },
                Some(xs) => {
                    let mut i: usize = 0;
                    while i < xs.len()
                        invariant
                            i <= xs@.len(),
                            out@ == old(out)@ + spec_texts_contrib(xs.deep_view().subrange(0, i as int)),
                        decreases xs@.len() - i,
                    {
                        out.append(xs[i].as_str());
                        out.append(" ");
                        proof {
                            reveal_strlit(" ");
                            assert(xs.deep_view().subrange(0, i + 1).drop_last()
                                =~= xs.deep_view().subrange(0, i as int));
                            assert(xs.deep_view().subrange(0, i + 1).last() == xs@[i as int]@);
                            assert(out@ =~= old(out)@ + spec_texts_contrib(
                                xs.deep_view().subrange(0, i + 1),
                            ));
                        }
                        i = i + 1;
                    }
                    proof {
                        assert(xs.deep_view().subrange(0, xs@.len() as int) =~= xs.deep_view());
                    }
                },
            }
        },
        AttrValue::DatePairVec(o) => {
            match o {
                None => {
                    proof {
                        assert(final(out)@ =~= old(out)@ + spec_attr_contrib(v@));
                    }
                },
                Some(ps) => {
                    let mut i: usize = 0;
                    while i < ps.len()
                        invariant
                            i <= ps@.len(),
                            out@ == old(out)@ + spec_pairs_contrib(ps.deep_view().subrange(0, i as int)),
                        decreases ps@.len() - i,
                    {
                        append_opt_contrib(out, &ps[i].started);
                        append_opt_contrib(out, &ps[i].finished);
                        proof {
                            assert(ps.deep_view().subrange(0, i + 1).drop_last()
                                =~= ps.deep_view().subrange(0, i as int));
                            assert(ps.deep_view().subrange(0, i + 1).last() == ps@[i as int]@);
                            assert(out@ =~= old(out)@ + spec_pairs_contrib(
                                ps.deep_view().subrange(0, i + 1),
                            ));
                        }
                        i = i + 1;
                    }
                    proof {
                        assert(ps.deep_view().subrange(0, ps@.len() as int) =~= ps.deep_view());
                    }
                },
            }
        },
    }
}

/// Appends an optional text followed by one space, or nothing.
fn append_opt_contrib(out: &mut String, o: &Option<String>)
    ensures
        final(out)@ == old(out)@ + spec_opt_contrib(o.deep_view()),
{
    match o {
        Some(t) => {
            out.append(t.as_str());
            out.append(" ");
            proof {
                reveal_strlit(" ");
                assert(final(out)@ =~= old(out)@ + spec_opt_contrib(o.deep_view()));
            }
        },
        None => {
            proof {
                assert(final(out)@ =~= old(out)@ + spec_opt_contrib(o.deep_view()));
            }
        },
    }
}

proof fn lemma_file_keys_unique_remove(s: Seq<(RelPath, StoredFile)>, i: int)
    requires
        file_keys_unique(s),
        0 <= i < s.len(),
    ensures
        file_keys_unique(s.remove(i)),
{
    assert forall|a: int, b: int| 0 <= a < b < s.remove(i).len() implies s.remove(i)[a].0@
        != s.remove(i)[b].0@ by {
        let ai: int = if a < i {
            a
        } else {
            a + 1
        };
        let bi: int = if b < i {
            b
        } else {
            b + 1
        };
        assert(s.remove(i)[a] == s[ai]);
        assert(s.remove(i)[b] == s[bi]);
    }
}

proof fn lemma_folder_keys_unique_remove(s: Seq<(RelPath, String)>, i: int)
    requires
        folder_keys_unique(s),
        0 <= i < s.len(),
    ensures
        folder_keys_unique(s.remove(i)),
{
    assert forall|a: int, b: int| 0 <= a < b < s.remove(i).len() implies s.remove(i)[a].0@
        != s.remove(i)[b].0@ by {
        let ai: int = if a < i {
            a
        } else {
            a + 1
        };
        let bi: int = if b < i {
            b
        } else {
            b + 1
        };
        assert(s.remove(i)[a] == s[ai]);
        assert(s.remove(i)[b] == s[bi]);
    }
}

proof fn lemma_files_map_contains(s: Seq<(RelPath, StoredFile)>, k: Seq<Seq<char>>)
    ensures
        files_map_of(s).contains_key(k) <==> exists|i: int| 0 <= i < s.len() && s[i].0@ == k,
    decreases s.len(),
{
    if s.len() > 0 {
        lemma_files_map_contains(s.drop_last(), k);
        if s.last().0@ == k {
            assert(s[s.len() - 1].0@ == k);
        } else if files_map_of(s).contains_key(k) {
            let i = choose|i: int| 0 <= i < s.drop_last().len() && s.drop_last()[i].0@ == k;
            assert(s[i].0@ == k);
        } else {
            assert forall|i: int| 0 <= i < s.len() implies s[i].0@ != k by {
                if i < s.len() - 1 {
                    assert(s.drop_last()[i].0@ == s[i].0@);
                }
            }
        }
    }
}

proof fn lemma_folders_map_contains(s: Seq<(RelPath, String)>, k: Seq<Seq<char>>)
    ensures
        folders_map_of(s).contains_key(k) <==> exists|i: int| 0 <= i < s.len() && s[i].0@ == k,
    decreases s.len(),
{
    if s.len() > 0 {
        lemma_folders_map_contains(s.drop_last(), k);
        if s.last().0@ == k {
            assert(s[s.len() - 1].0@ == k);
        } else if folders_map_of(s).contains_key(k) {
            let i = choose|i: int| 0 <= i < s.drop_last().len() && s.drop_last()[i].0@ == k;
            assert(s[i].0@ == k);
        } else {
            assert forall|i: int| 0 <= i < s.len() implies s[i].0@ != k by {
                if i < s.len() - 1 {
                    assert(s.drop_last()[i].0@ == s[i].0@);
                }
            }
        }
    }
}

proof fn lemma_file_set_entry_is_insert(
    s1: Seq<(RelPath, StoredFile)>,
    s2: Seq<(RelPath, StoredFile)>,
    i: int,
)
    requires
        file_keys_unique(s1),
        0 <= i < s1.len(),
        s2.len() == s1.len(),
        s2[i].0@ == s1[i].0@,
        forall|j: int| 0 <= j < s1.len() && j != i ==> s2[j] == s1[j],
    ensures
        files_map_of(s2) == files_map_of(s1).insert(s2[i].0@, s2[i].1@),
        file_keys_unique(s2),
    decreases s1.len(),
{
    assert forall|a: int, b: int| 0 <= a < b < s2.len() implies s2[a].0@ != s2[b].0@ by {
        assert(s2[a].0@ == s1[a].0@ && s2[b].0@ == s1[b].0@);
    }
    if i == s1.len() - 1 {
        assert(s2.drop_last() =~= s1.drop_last());
        assert(files_map_of(s2) =~= files_map_of(s1).insert(s2[i].0@, s2[i].1@));
    } else {
        lemma_file_set_entry_is_insert(s1.drop_last(), s2.drop_last(), i);
        assert(s2.last() == s1.last());
        assert(files_map_of(s1.drop_last()).insert(s2[i].0@, s2[i].1@).insert(
            s1.last().0@,
            s1.last().1@,
        ) =~= files_map_of(s1.drop_last()).insert(s1.last().0@, s1.last().1@).insert(
            s2[i].0@,
            s2[i].1@,
        )) by {
            assert(s2[i].0@ != s1.last().0@);
        }
    }
}

proof fn lemma_folder_set_entry_is_insert(
    s1: Seq<(RelPath, String)>,
    s2: Seq<(RelPath, String)>,
    i: int,
)
    requires
        folder_keys_unique(s1),
        0 <= i < s1.len(),
        s2.len() == s1.len(),
        s2[i].0@ == s1[i].0@,
        forall|j: int| 0 <= j < s1.len() && j != i ==> s2[j] == s1[j],
    ensures
        folders_map_of(s2) == folders_map_of(s1).insert(s2[i].0@, s2[i].1@),
        folder_keys_unique(s2),
    decreases s1.len(),
{
    assert forall|a: int, b: int| 0 <= a < b < s2.len() implies s2[a].0@ != s2[b].0@ by {
        assert(s2[a].0@ == s1[a].0@ && s2[b].0@ == s1[b].0@);
    }
    if i == s1.len() - 1 {
        assert(s2.drop_last() =~= s1.drop_last());
        assert(folders_map_of(s2) =~= folders_map_of(s1).insert(s2[i].0@, s2[i].1@));
    } else {
        lemma_folder_set_entry_is_insert(s1.drop_last(), s2.drop_last(), i);
        assert(s2.last() == s1.last());
        assert(folders_map_of(s1.drop_last()).insert(s2[i].0@, s2[i].1@).insert(
            s1.last().0@,
            s1.last().1@,
        ) =~= folders_map_of(s1.drop_last()).insert(s1.last().0@, s1.last().1@).insert(
            s2[i].0@,
            s2[i].1@,
        )) by {
            assert(s2[i].0@ != s1.last().0@);
        }
    }
}

proof fn lemma_file_remove_entry_is_remove(s: Seq<(RelPath, StoredFile)>, i: int)
    requires
        file_keys_unique(s),
        0 <= i < s.len(),
    ensures
        files_map_of(s.remove(i)) == files_map_of(s).remove(s[i].0@),
    decreases s.len(),
{
    if i == s.len() - 1 {
        assert(s.remove(i) =~= s.drop_last());
        lemma_files_map_contains(s.drop_last(), s[i].0@);
        assert forall|j: int| 0 <= j < s.drop_last().len() implies s.drop_last()[j].0@
            != s[i].0@ by {
            assert(s[j].0@ != s[i].0@);
        }
        assert(!files_map_of(s.drop_last()).contains_key(s[i].0@));
        assert(files_map_of(s.remove(i)) =~= files_map_of(s).remove(s[i].0@));
    } else {
        lemma_file_remove_entry_is_remove(s.drop_last(), i);
        assert(s.remove(i).drop_last() =~= s.drop_last().remove(i));
        assert(s.remove(i).last() == s.last());
        assert(s[i].0@ != s.last().0@);
        assert(files_map_of(s.drop_last()).remove(s[i].0@).insert(s.last().0@, s.last().1@)
            =~= files_map_of(s.drop_last()).insert(s.last().0@, s.last().1@).remove(s[i].0@));
    }
}

proof fn lemma_folder_remove_entry_is_remove(s: Seq<(RelPath, String)>, i: int)
    requires
        folder_keys_unique(s),
        0 <= i < s.len(),
    ensures
        folders_map_of(s.remove(i)) == folders_map_of(s).remove(s[i].0@),
    decreases s.len(),
{
    if i == s.len() - 1 {
        assert(s.remove(i) =~= s.drop_last());
        lemma_folders_map_contains(s.drop_last(), s[i].0@);
        assert forall|j: int| 0 <= j < s.drop_last().len() implies s.drop_last()[j].0@
            != s[i].0@ by {
            assert(s[j].0@ != s[i].0@);
        }
        assert(!folders_map_of(s.drop_last()).contains_key(s[i].0@));
        assert(folders_map_of(s.remove(i)) =~= folders_map_of(s).remove(s[i].0@));
    } else {
        lemma_folder_remove_entry_is_remove(s.drop_last(), i);
        assert(s.remove(i).drop_last() =~= s.drop_last().remove(i));
        assert(s.remove(i).last() == s.last());
        assert(s[i].0@ != s.last().0@);
        assert(folders_map_of(s.drop_last()).remove(s[i].0@).insert(s.last().0@, s.last().1@)
            =~= folders_map_of(s.drop_last()).insert(s.last().0@, s.last().1@).remove(s[i].0@));
    }
}

} // verus!
