//! The path-hierarchy schema store: an in-memory map from owner folder to
//! schema, resolved by nearest-ancestor lookup.
//!
//! A path with no entry of its own inherits the schema of its closest
//! ancestor that has one; a path outside every schema's subtree has none.
//! Removing a subtree removes every owner folder at or under the given
//! folder, as folder deletion and rename demand.

use vstd::prelude::*;

use crate::errors::ErrFR;
use crate::paths::RelPath;
use crate::schema::{Schema, SchemaV};

verus! {

/// The name of the reserved configuration folder that holds a schema file.
pub fn internal_folder_name() -> (r: String)
    ensures
        r@ == spec_internal_folder_name(),
{
    ".asom".to_owned()
}

pub open spec fn spec_internal_folder_name() -> Seq<char> {
    ".asom"@
}

/// The fixed file name of a schema document.
pub fn schema_file_name() -> (r: String)
    ensures
        r@ == spec_schema_file_name(),
{
    "schema.yaml".to_owned()
}

pub open spec fn spec_schema_file_name() -> Seq<char> {
    "schema.yaml"@
}

/// The schema file that belongs to an owner folder:
/// `<owner>/<internal folder>/<schema file>`.
pub open spec fn spec_schema_file_of(owner: Seq<Seq<char>>) -> Seq<Seq<char>> {
    owner.push(spec_internal_folder_name()).push(spec_schema_file_name())
}

/// Where a schema lives: its file, and the folder whose subtree it governs.
#[derive(Debug)]
pub struct SchemaLocation {
    pub schema_path: RelPath,
    pub schema_owner_folder: RelPath,
}

/// A resolved schema together with where it came from.
#[derive(Debug)]
pub struct SchemaResult {
    pub schema: Schema,
    pub location: SchemaLocation,
}

/// Equality of two relative paths, segment for segment.
pub fn rel_path_eq(a: &RelPath, b: &RelPath) -> (r: bool)
    ensures
        r == (a@ == b@),
{
    if a.segments.len() != b.segments.len() {
        proof {
            assert(a@.len() != b@.len());
        }
        return false;
    }
    let r = a.starts_with(b);
    proof {
        if r {
            assert(b@ =~= a@);
        } else {
            assert(a@ != b@);
        }
    }
    r
}

/// The in-memory schema store, keyed by owner folder.
pub struct SchemasInMemoryCache {
    entries: Vec<(RelPath, Schema)>,
}

/// The map a sequence of store entries stands for; a later entry with the
/// same key overwrites an earlier one.
pub open spec fn store_map(s: Seq<(RelPath, Schema)>) -> Map<Seq<Seq<char>>, SchemaV>
    decreases s.len(),
{
    if s.len() == 0 {
        Map::empty()
    } else {
        store_map(s.drop_last()).insert(s.last().0@, s.last().1@)
    }
}

impl View for SchemasInMemoryCache {
    type V = Map<Seq<Seq<char>>, SchemaV>;

    closed spec fn view(&self) -> Map<Seq<Seq<char>>, SchemaV> {
        store_map(self.entries@)
    }
}

pub open spec fn keys_unique(s: Seq<(RelPath, Schema)>) -> bool {
    forall|i: int, j: int| 0 <= i < j < s.len() ==> s[i].0@ != s[j].0@
}

proof fn lemma_keys_unique_remove(s: Seq<(RelPath, Schema)>, i: int)
    requires
        keys_unique(s),
        0 <= i < s.len(),
    ensures
        keys_unique(s.remove(i)),
{
    assert forall|a: int, b: int| 0 <= a < b < s.remove(i).len() implies s.remove(i)[a].0@
        != s.remove(i)[b].0@ by {
        let ai: int = if a < i {
            a
        } else {
            a + 1
        };
        let bi: int = if b < i {
            b
        } else {
            b + 1
        };
        assert(s.remove(i)[a] == s[ai]);
        assert(s.remove(i)[b] == s[bi]);
    }
}

proof fn lemma_store_map_contains(s: Seq<(RelPath, Schema)>, k: Seq<Seq<char>>)
    ensures
        store_map(s).contains_key(k) <==> exists|i: int| 0 <= i < s.len() && s[i].0@ == k,
    decreases s.len(),
{
    if s.len() > 0 {
        lemma_store_map_contains(s.drop_last(), k);
        if s.last().0@ == k {
            assert(s[s.len() - 1].0@ == k);
        } else if store_map(s).contains_key(k) {
            let i = choose|i: int| 0 <= i < s.drop_last().len() && s.drop_last()[i].0@ == k;
            assert(s[i].0@ == k);
        } else {
            assert forall|i: int| 0 <= i < s.len() implies s[i].0@ != k by {
                if i < s.len() - 1 {
                    assert(s.drop_last()[i].0@ == s[i].0@);
                }
            }
        }
    }
}

proof fn lemma_store_map_index(s: Seq<(RelPath, Schema)>, i: int)
    requires
        keys_unique(s),
        0 <= i < s.len(),
    ensures
        store_map(s).contains_key(s[i].0@),
        store_map(s)[s[i].0@] == s[i].1@,
    decreases s.len(),
{
    lemma_store_map_contains(s, s[i].0@);
    if i == s.len() - 1 {
    } else {
        assert(s.drop_last()[i] == s[i]);
        lemma_store_map_index(s.drop_last(), i);
        assert(s[s.len() - 1].0@ != s[i].0@);
    }
}

/// The owner folder whose schema governs `p`: `p` itself if it has an
/// entry, else the nearest ancestor with one.
pub open spec fn spec_resolve_owner(
    m: Map<Seq<Seq<char>>, SchemaV>,
    p: Seq<Seq<char>>,
) -> Option<Seq<Seq<char>>>
    decreases p.len(),
{
    if m.contains_key(p) {
        Some(p)
    } else if p.len() == 0 {
        None
    } else {
        spec_resolve_owner(m, p.drop_last())
    }
}

impl SchemasInMemoryCache {
    pub closed spec fn wf(&self) -> bool {
        keys_unique(self.entries@)
    }

    pub fn new() -> (r: SchemasInMemoryCache)
        ensures
            r@ == Map::<Seq<Seq<char>>, SchemaV>::empty(),
            r.wf(),
    {
        SchemasInMemoryCache { entries: Vec::new() }
    }

    pub fn clear_cache(&mut self)
        ensures
            final(self)@ == Map::<Seq<Seq<char>>, SchemaV>::empty(),
            final(self).wf(),
    {
        self.entries = Vec::new();
    }

    /// The index of the entry for `folder`, if one is stored.
    fn find_index(&self, folder: &RelPath) -> (r: Option<usize>)
        ensures
            r matches Some(i) ==> i < self.entries@.len() && self.entries@[i as int].0@ == folder@,
            r is None ==> forall|i: int|
                0 <= i < self.entries@.len() ==> self.entries@[i].0@ != folder@,
    {
        let mut i: usize = 0;
        while i < self.entries.len()
            invariant
                i <= self.entries@.len(),
                forall|j: int| 0 <= j < i ==> self.entries@[j].0@ != folder@,
            decreases self.entries@.len() - i,
        {
            if rel_path_eq(&self.entries[i].0, folder) {
                return Some(i);
            }
            i = i + 1;
        }
        None
    }

    /// Whether `folder` itself owns a stored schema.
    pub fn contains_owner(&self, folder: &RelPath) -> (r: bool)
        ensures
            r == self@.contains_key(folder@),
    {
        let r = self.find_index(folder);
        proof {
            lemma_store_map_contains(self.entries@, folder@);
        }
        r.is_some()
    }

    /// Stores `schema` for `folder`, overwriting any entry already there.
    pub fn insert(&mut self, folder: RelPath, schema: Schema)
        requires
            old(self).wf(),
        ensures
            final(self)@ == old(self)@.insert(folder@, schema@),
            final(self).wf(),
    {
        let found = self.find_index(&folder);
        match found {
            Some(i) => {
                proof {
                    lemma_store_map_contains(self.entries@, folder@);
                }
                self.entries.set(i, (folder, schema));
                proof {
                    lemma_set_entry_is_insert(old(self).entries@, self.entries@, i as int);
                }
            },
            None => {
                self.entries.push((folder, schema));
                proof {
                    assert(self.entries@.drop_last() =~= old(self).entries@);
                }
            },
        }
    }

    /// Resolves the schema governing `path`: the entry for `path` itself,
    /// or for the nearest ancestor that has one.  The result is a copy;
    /// the store keeps sole ownership of its records.
    pub fn get_schema(&self, path: &RelPath) -> (r: Option<SchemaResult>)
        requires
            self.wf(),
        ensures
            r matches Some(res) ==> ({
                &&& spec_resolve_owner(self@, path@) == Some(res.location.schema_owner_folder@)
                &&& res.schema@ == self@[res.location.schema_owner_folder@]
                &&& res.location.schema_path@ == spec_schema_file_of(
                    res.location.schema_owner_folder@,
                )
            }),
            r is None ==> spec_resolve_owner(self@, path@) is None,
    {
        let mut n: usize = path.depth();
        proof {
            assert(path@.subrange(0, n as int) =~= path@);
        }
        loop
            invariant
                n <= path@.len(),
                self.wf(),
                spec_resolve_owner(self@, path@) == spec_resolve_owner(
                    self@,
                    path@.subrange(0, n as int),
                ),
            decreases n,
        {
            let prefix = path.prefix_of_len(n);
            let found = self.find_index(&prefix);
            match found {
                Some(i) => {
                    proof {
                        lemma_store_map_index(self.entries@, i as int);
                    }
                    let owner = prefix;
                    let schema = self.entries[i].1.duplicate();
                    let file = owner.child(internal_folder_name().as_str()).child(
                        schema_file_name().as_str(),
                    );
                    return Some(
                        SchemaResult {
                            schema,
                            location: SchemaLocation {
                                schema_path: file,
                                schema_owner_folder: owner,
                            },
                        },
                    );
                },
                None => {
                    proof {
                        lemma_store_map_contains(self.entries@, prefix@);
                    }
                    if n == 0 {
                        return None;
                    }
                    proof {
                        assert(path@.subrange(0, n as int).drop_last() =~= path@.subrange(
                            0,
                            n - 1,
                        ));
                    }
                    n = n - 1;
                },
            }
        }
    }

    /// The owner folder whose schema governs `path`, if any.
    pub fn get_schema_owner(&self, path: &RelPath) -> (r: Option<RelPath>)
        requires
            self.wf(),
        ensures
            r matches Some(o) ==> spec_resolve_owner(self@, path@) == Some(o@),
            r is None ==> spec_resolve_owner(self@, path@) is None,
    {
        match self.get_schema(path) {
            Some(res) => Some(res.location.schema_owner_folder),
            None => None,
        }
    }

    /// Resolves the schema governing `path`, treating absence as an error:
    /// used where a caller knows the path must be governed.
    pub fn get_schema_safe(&self, path: &RelPath) -> (r: Result<SchemaResult, ErrFR>)
        requires
            self.wf(),
        ensures
            r matches Ok(res) ==> ({
                &&& spec_resolve_owner(self@, path@) == Some(res.location.schema_owner_folder@)
                &&& res.schema@ == self@[res.location.schema_owner_folder@]
                &&& res.location.schema_path@ == spec_schema_file_of(
                    res.location.schema_owner_folder@,
                )
            }),
            r matches Err(e) ==> spec_resolve_owner(self@, path@) is None && e.title@
                == "Unable to retrieve schema"@,
    {
        match self.get_schema(path) {
            Some(s) => Ok(s),
            None => Err(
                ErrFR::new("Unable to retrieve schema").info(
                    "Unless you changed files manually this should not happen. Try restarting the app",
                ),
            ),
        }
    }

    /// Removes every stored schema whose owner folder is `path` or lies
    /// under it.  Afterwards no key at or under `path` remains, and every
    /// other entry is untouched.
    pub fn remove_schemas_with_children(&mut self, path: &RelPath)
        requires
            old(self).wf(),
        ensures
            final(self).wf(),
            forall|k: Seq<Seq<char>>| #[trigger]
                final(self)@.contains_key(k) <==> old(self)@.contains_key(k) && !path@.is_prefix_of(
                    k,
                ),
            forall|k: Seq<Seq<char>>| #[trigger]
                final(self)@.contains_key(k) ==> final(self)@[k] == old(self)@[k],
    {
        let ghost orig_map = self@;
        let mut i: usize = 0;
        while i < self.entries.len()
            invariant
                i <= self.entries@.len(),
                keys_unique(self.entries@),
                forall|j: int| 0 <= j < i ==> !path@.is_prefix_of(#[trigger] self.entries@[j].0@),
                forall|k: Seq<Seq<char>>| #[trigger]
                    store_map(self.entries@).contains_key(k) ==> orig_map.contains_key(k)
                        && store_map(self.entries@)[k] == orig_map[k],
                forall|k: Seq<Seq<char>>|
                    orig_map.contains_key(k) && !path@.is_prefix_of(k) ==> #[trigger] store_map(
                        self.entries@,
                    ).contains_key(k),
            decreases self.entries@.len() - i,
        {
            if self.entries[i].0.starts_with(path) {
                let ghost pre = self.entries@;
                self.entries.remove(i);
                proof {
                    lemma_remove_entry_is_remove(pre, i as int);
                    lemma_keys_unique_remove(pre, i as int);
                }
            } else {
                i = i + 1;
            }
        }
        proof {
            assert forall|k: Seq<Seq<char>>| #[trigger]
                store_map(self.entries@).contains_key(k) implies !path@.is_prefix_of(k) by {
                lemma_store_map_contains(self.entries@, k);
                let j = choose|j: int|
                    0 <= j < self.entries@.len() && self.entries@[j].0@ == k;
            }
        }
    }

    /// Removes the entry for `folder`, if any.
    pub fn remove(&mut self, folder: &RelPath)
        requires
            old(self).wf(),
        ensures
            final(self)@ == old(self)@.remove(folder@),
            final(self).wf(),
    {
        let found = self.find_index(folder);
        match found {
            Some(i) => {
                self.entries.remove(i);
                proof {
                    lemma_remove_entry_is_remove(old(self).entries@, i as int);
                    lemma_keys_unique_remove(old(self).entries@, i as int);
                    assert(self.entries@ =~= old(self).entries@.remove(i as int));
                }
            },
            None => {
                proof {
                    lemma_store_map_contains(self.entries@, folder@);
                    assert(final(self)@ =~= old(self)@.remove(folder@));
                }
            },
        }
    }

    /// Copies of the stored schemas that declare at least one field,
    /// keyed by owner folder.  Empty schemas are filtering noise, not
    /// real governance, and are left out.
    pub fn get_schemas_list(&self) -> (r: Vec<(RelPath, Schema)>)
        requires
            self.wf(),
        ensures
            spec_schema_listing(self@, r@),
    {
        self.list_entries(true)
    }

    /// Copies of all stored schemas, empty ones included, keyed by owner
    /// folder.
    pub fn get_schemas_list_with_empty(&self) -> (r: Vec<(RelPath, Schema)>)
        requires
            self.wf(),
        ensures
            forall|j: int|
                0 <= j < r@.len() ==> self@.contains_key(#[trigger] r@[j].0@) && r@[j].1@
                    == self@[r@[j].0@],
            forall|k: Seq<Seq<char>>|
                #![trigger self@.dom().contains(k)]
                self@.contains_key(k) ==> exists|j: int|
                    0 <= j < r@.len() && #[trigger] r@[j].0@ == k,
            forall|a: int, b: int| 0 <= a < b < r@.len() ==> r@[a].0@ != r@[b].0@,
    {
        let r = self.list_entries(false);
        proof {
            assert forall|k: Seq<Seq<char>>| self@.contains_key(k) implies exists|j: int|
                0 <= j < r@.len() && #[trigger] r@[j].0@ == k by {
                assert(self@[k] == self@[k]);
            }
        }
        r
    }

    #[verifier::rlimit(100)]
    fn list_entries(&self, skip_empty: bool) -> (r: Vec<(RelPath, Schema)>)
        requires
            self.wf(),
        ensures
            forall|j: int|
                0 <= j < r@.len() ==> self@.contains_key(#[trigger] r@[j].0@) && r@[j].1@
                    == self@[r@[j].0@] && (skip_empty ==> r@[j].1@.items.len() > 0),
            forall|k: Seq<Seq<char>>|
                #![trigger self@.dom().contains(k)]
                self@.contains_key(k) && (!skip_empty || self@[k].items.len() > 0) ==> exists|
                    j: int,
                |
                    0 <= j < r@.len() && #[trigger] r@[j].0@ == k,
            forall|a: int, b: int| 0 <= a < b < r@.len() ==> r@[a].0@ != r@[b].0@,
    {
        let mut out: Vec<(RelPath, Schema)> = Vec::new();
        let mut i: usize = 0;
        while i < self.entries.len()
            invariant
                self.wf(),
                i <= self.entries@.len(),
                forall|j: int|
                    0 <= j < out@.len() ==> self@.contains_key(#[trigger] out@[j].0@) && out@[j].1@
                        == self@[out@[j].0@] && (skip_empty ==> out@[j].1@.items.len() > 0),
                forall|j: int|
                    0 <= j < out@.len() ==> exists|t: int|
                        0 <= t < i && #[trigger] out@[j].0@ == self.entries@[t].0@,
                forall|t: int|
                    0 <= t < i && (!skip_empty || self.entries@[t].1@.items.len() > 0)
                        ==> exists|j: int|
                        0 <= j < out@.len() && out@[j].0@ == #[trigger] self.entries@[t].0@,
                forall|a: int, b: int| 0 <= a < b < out@.len() ==> out@[a].0@ != out@[b].0@,
            decreases self.entries@.len() - i,
        {
            let wanted = if skip_empty {
                !self.entries[i].1.is_empty()
            } else {
                true
            };
            if wanted {
                proof {
                    lemma_store_map_index(self.entries@, i as int);
                }
                let ghost prev = out@;
                out.push((self.entries[i].0.duplicate(), self.entries[i].1.duplicate()));
                proof {
                    let last = prev.len() as int;
                    assert(out@[last].0@ == self.entries@[i as int].0@);
                    assert(out@[last].1@ == self.entries@[i as int].1@);
                    assert(self@.contains_key(out@[last].0@));
                    assert(out@[last].1@ == self@[out@[last].0@]);
                    assert forall|j: int| 0 <= j < out@.len() implies exists|t: int|
                        0 <= t < i + 1 && #[trigger] out@[j].0@ == self.entries@[t].0@ by {
                        if j < last {
                            assert(out@[j] == prev[j]);
                            let t = choose|t: int|
                                0 <= t < i && prev[j].0@ == self.entries@[t].0@;
                            assert(out@[j].0@ == self.entries@[t].0@);
                        } else {
                            assert(out@[j].0@ == self.entries@[i as int].0@);
                        }
                    }
                    assert forall|t: int|
                        0 <= t < i + 1 && (!skip_empty || self.entries@[t].1@.items.len()
                            > 0) implies exists|j: int|
                        0 <= j < out@.len() && out@[j].0@ == #[trigger] self.entries@[t].0@ by {
                        if t < i {
                            let j = choose|j: int|
                                0 <= j < prev.len() && prev[j].0@ == self.entries@[t].0@;
                            assert(out@[j] == prev[j]);
                            assert(out@[j].0@ == self.entries@[t].0@);
                        } else {
                            assert(out@[last].0@ == self.entries@[t].0@);
                        }
                    }
                    assert forall|a: int, b: int| 0 <= a < b < out@.len() implies out@[a].0@
                        != out@[b].0@ by {
                        if b < last {
                            assert(out@[a] == prev[a] && out@[b] == prev[b]);
                        } else {
                            assert(out@[a] == prev[a]);
                            let t = choose|t: int|
                                0 <= t < i && prev[a].0@ == self.entries@[t].0@;
                            assert(self.entries@[t].0@ != self.entries@[i as int].0@);
                        }
                    }
                }
            }
            i = i + 1;
        }
        proof {
            assert forall|k: Seq<Seq<char>>|
                self@.contains_key(k) && (!skip_empty || self@[k].items.len() > 0) implies exists|
                j: int,
            |
                0 <= j < out@.len() && #[trigger] out@[j].0@ == k by {
                lemma_store_map_contains(self.entries@, k);
                let t = choose|t: int|
                    0 <= t < self.entries@.len() && self.entries@[t].0@ == k;
                lemma_store_map_index(self.entries@, t);
            }
        }
        out
    }
}

/// Whether `l` is the listing of the non-empty schemas of `m`: every
/// entry carries a stored schema with at least one field, every such
/// schema appears, and no owner folder appears twice.
pub open spec fn spec_schema_listing(
    m: Map<Seq<Seq<char>>, SchemaV>,
    l: Seq<(RelPath, Schema)>,
) -> bool {
    &&& forall|j: int|
        0 <= j < l.len() ==> m.contains_key(#[trigger] l[j].0@) && l[j].1@ == m[l[j].0@]
            && l[j].1@.items.len() > 0
    &&& forall|k: Seq<Seq<char>>|
        #![trigger m.dom().contains(k)]
        m.contains_key(k) && m[k].items.len() > 0 ==> exists|j: int|
            0 <= j < l.len() && #[trigger] l[j].0@ == k
    &&& forall|a: int, b: int| 0 <= a < b < l.len() ==> l[a].0@ != l[b].0@
}

/// Whether a path names, on disk, something to treat as a folder: an
/// existing directory, or a vanished name without an extension.
pub open spec fn spec_dirish(p: Seq<Seq<char>>, exists_on_disk: bool, is_dir: bool) -> bool {
    if exists_on_disk {
        is_dir
    } else {
        p.len() == 0 || crate::paths::spec_extension(p.last()) is None
    }
}

/// The canonical schema file and owner folder reached from `p`, or `None`
/// where the canonicalization rule rejects the path.
pub open spec fn spec_locate(p: Seq<Seq<char>>, exists_on_disk: bool, is_dir: bool) -> Option<
    (Seq<Seq<char>>, Seq<Seq<char>>),
> {
    let dirish = spec_dirish(p, exists_on_disk, is_dir);
    if dirish && p.len() > 0 && p.last() == spec_internal_folder_name() {
        Some((p.push(spec_schema_file_name()), p.drop_last()))
    } else if !dirish && p.len() > 0 && p.last() == spec_schema_file_name() {
        if p.len() >= 2 {
            Some((p, p.subrange(0, p.len() - 2)))
        } else {
            None
        }
    } else if dirish {
        Some((spec_schema_file_of(p), p))
    } else {
        None
    }
}

/// Canonicalizes a user-supplied path into `(schema file, owner folder)`.
///
/// The path may be an owner folder, its reserved internal configuration
/// folder, or the schema file itself.  `exists_on_disk` and `is_dir`
/// report what the caller found on disk: for a vanished path the
/// extension decides whether it was a folder.  Any other file name under
/// the reserved folder is a hard error, as is a path with no usable
/// base name or parent.
pub fn locate_schema_and_folder(path: &RelPath, exists_on_disk: bool, is_dir: bool) -> (r: Result<
    (RelPath, RelPath),
    ErrFR,
>)
    ensures
        r matches Ok(fo) ==> spec_locate(path@, exists_on_disk, is_dir) == Some((fo.0@, fo.1@)),
        r is Err ==> spec_locate(path@, exists_on_disk, is_dir) is None,
{
    let dirish = if exists_on_disk {
        is_dir
    } else {
        let e = path.extension();
        e.is_none()
    };
    let name = path.file_name();
    proof {
        reveal_strlit(".asom");
        reveal_strlit("schema.yaml");
    }
    match name {
        Some(n) => {
            if dirish && crate::paths::str_eq(n.as_str(), ".asom") {
                let file = path.child("schema.yaml");
                let owner = match path.parent() {
                    Some(p) => p,
                    None => {
                        proof {
                            assert(false);
                        }
                        RelPath::root()
                    },
                };
                Ok((file, owner))
            } else if !dirish && crate::paths::str_eq(n.as_str(), "schema.yaml") {
                if path.depth() >= 2 {
                    let owner = path.prefix_of_len(path.depth() - 2);
                    Ok((path.duplicate(), owner))
                } else {
                    Err(
                        ErrFR::new(
                            "Unable to get parent from schema path. This is unexpected, please report bug.",
                        ),
                    )
                }
            } else if dirish {
                let file = path.child(".asom").child("schema.yaml");
                let owner = path.duplicate();
                Ok((file, owner))
            } else {
                Err(ErrFR::new("Schema file must be named schema.yaml"))
            }
        },
        None => {
            if dirish {
                let file = path.child(".asom").child("schema.yaml");
                let owner = path.duplicate();
                Ok((file, owner))
            } else {
                Err(
                    ErrFR::new("Unable to get basename from schema path").info(
                        "This is super unexpected, maybe you are using symlinks? Please report bug.",
                    ),
                )
            }
        },
    }
}

/// The write path's preparation: stamps the current version marker and
/// drops empty and duplicate field entries.  The caller serializes and
/// writes the document, and only a successful write commits the schema
/// to the store, so cache and disk never diverge on this path.
pub fn prepare_schema_for_save(schema: Schema) -> (r: Schema)
    ensures
        r@.version == crate::schema::spec_schema_version(),
        r@.items == crate::schema::spec_normalize_items(schema.items.deep_view()),
        r@.name == schema@.name,
        r@.fill_from_filename == schema@.fill_from_filename,
        r@.fill_api_search_from == schema@.fill_api_search_from,
{
    let mut s = schema;
    s.version = crate::schema::schema_version();
    s.remove_empty_and_duplicates()
}

/// Resolution correctness, one half: a folder `f` with a stored schema
/// governs every path under it that no longer-prefixed owner shadows.
pub proof fn lemma_resolution_under_owner(
    m: Map<Seq<Seq<char>>, SchemaV>,
    f: Seq<Seq<char>>,
    p: Seq<Seq<char>>,
)
    requires
        m.contains_key(f),
        f.is_prefix_of(p),
        forall|g: Seq<Seq<char>>|
            g.is_prefix_of(p) && g.len() > f.len() ==> !(#[trigger] m.contains_key(g)),
    ensures
        spec_resolve_owner(m, p) == Some(f),
    decreases p.len(),
{
    if p.len() == f.len() {
        assert(p =~= f);
    } else {
        assert(p.is_prefix_of(p));
        assert(!m.contains_key(p));
        assert(f.is_prefix_of(p.drop_last()));
        assert forall|g: Seq<Seq<char>>|
            g.is_prefix_of(p.drop_last()) && g.len() > f.len() implies !(#[trigger] m.contains_key(
            g,
        )) by {
            assert(g.is_prefix_of(p)) by {
                assert(g =~= p.subrange(0, g.len() as int));
            }
        }
        lemma_resolution_under_owner(m, f, p.drop_last());
    }
}

/// Resolution correctness, other half: a path strictly outside every
/// stored owner's subtree resolves to nothing.
pub proof fn lemma_resolution_outside(m: Map<Seq<Seq<char>>, SchemaV>, p: Seq<Seq<char>>)
    requires
        forall|g: Seq<Seq<char>>| g.is_prefix_of(p) ==> !(#[trigger] m.contains_key(g)),
    ensures
        spec_resolve_owner(m, p) is None,
    decreases p.len(),
{
    assert(p.is_prefix_of(p));
    if p.len() > 0 {
        assert forall|g: Seq<Seq<char>>|
            g.is_prefix_of(p.drop_last()) implies !(#[trigger] m.contains_key(g)) by {
            assert(g =~= p.subrange(0, g.len() as int));
        }
        lemma_resolution_outside(m, p.drop_last());
    }
}

/// Replacing the entry at `i` with one that carries the same key acts on
/// the map as an insert of that key.
proof fn lemma_set_entry_is_insert(s1: Seq<(RelPath, Schema)>, s2: Seq<(RelPath, Schema)>, i: int)
    requires
        keys_unique(s1),
        0 <= i < s1.len(),
        s2.len() == s1.len(),
        s2[i].0@ == s1[i].0@,
        forall|j: int| 0 <= j < s1.len() && j != i ==> s2[j] == s1[j],
    ensures
        store_map(s2) == store_map(s1).insert(s2[i].0@, s2[i].1@),
        keys_unique(s2),
    decreases s1.len(),
{
    assert forall|a: int, b: int| 0 <= a < b < s2.len() implies s2[a].0@ != s2[b].0@ by {
        assert(s2[a].0@ == s1[a].0@ && s2[b].0@ == s1[b].0@);
    }
    if i == s1.len() - 1 {
        assert(s2.drop_last() =~= s1.drop_last());
        assert(store_map(s2) =~= store_map(s1).insert(s2[i].0@, s2[i].1@));
    } else {
        lemma_set_entry_is_insert(s1.drop_last(), s2.drop_last(), i);
        assert(s2.last() == s1.last());
        assert(store_map(s2) == store_map(s2.drop_last()).insert(s1.last().0@, s1.last().1@));
        assert(store_map(s2.drop_last()) == store_map(s1.drop_last()).insert(s2[i].0@, s2[i].1@));
        assert(store_map(s1.drop_last()).insert(s2[i].0@, s2[i].1@).insert(
            s1.last().0@,
            s1.last().1@,
        ) =~= store_map(s1.drop_last()).insert(s1.last().0@, s1.last().1@).insert(
            s2[i].0@,
            s2[i].1@,
        )) by {
            assert(s2[i].0@ != s1.last().0@);
        }
    }
}

/// Removing the entry at `i` acts on the map as a remove of its key.
proof fn lemma_remove_entry_is_remove(s: Seq<(RelPath, Schema)>, i: int)
    requires
        keys_unique(s),
        0 <= i < s.len(),
    ensures
        store_map(s.remove(i)) == store_map(s).remove(s[i].0@),
    decreases s.len(),
{
    if i == s.len() - 1 {
        assert(s.remove(i) =~= s.drop_last());
        lemma_store_map_contains(s.drop_last(), s[i].0@);
        assert forall|j: int| 0 <= j < s.drop_last().len() implies s.drop_last()[j].0@
            != s[i].0@ by {
            assert(s[j].0@ != s[i].0@);
        }
        assert(!store_map(s.drop_last()).contains_key(s[i].0@));
        assert(store_map(s.remove(i)) =~= store_map(s).remove(s[i].0@));
    } else {
        lemma_remove_entry_is_remove(s.drop_last(), i);
        assert(s.remove(i).drop_last() =~= s.drop_last().remove(i));
        assert(s.remove(i).last() == s.last());
        assert(store_map(s.remove(i)) == store_map(s.drop_last().remove(i)).insert(
            s.last().0@,
            s.last().1@,
        ));
        assert(s[i].0@ != s.last().0@);
        assert(store_map(s.drop_last()).remove(s[i].0@).insert(s.last().0@, s.last().1@)
            =~= store_map(s.drop_last()).insert(s.last().0@, s.last().1@).remove(s[i].0@));
    }
}

} // verus!
