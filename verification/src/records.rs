//! Records mirrored from disk: typed front-matter attribute values and the
//! indexed file record built from them.
//!
//! Numbers live as their decimal text; the engine never computes with
//! them, it only stores, displays and searches them.

use vstd::prelude::*;

use crate::paths::RelPath;

verus! {

/// A started/finished pair of dates, each optional, as date text.
#[derive(Debug, PartialEq)]
pub struct DatePair {
    pub started: Option<String>,
    pub finished: Option<String>,
}

/// The abstract value of a [`DatePair`].
pub struct DatePairV {
    pub started: Option<Seq<char>>,
    pub finished: Option<Seq<char>>,
}

impl View for DatePair {
    type V = DatePairV;

    open spec fn view(&self) -> DatePairV {
        DatePairV { started: self.started.deep_view(), finished: self.finished.deep_view() }
    }
}

impl DeepView for DatePair {
    type V = DatePairV;

    open spec fn deep_view(&self) -> DatePairV {
        self@
    }
}

impl DatePair {
    pub fn duplicate(&self) -> (r: DatePair)
        ensures
            r@ == self@,
    {
        DatePair {
            started: crate::schema::clone_opt_string(&self.started),
            finished: crate::schema::clone_opt_string(&self.finished),
        }
    }
}

/// One front-matter attribute value, in the shape its schema field gives
/// it.  `Integer` and `Float` carry decimal text.
#[derive(Debug, PartialEq)]
pub enum AttrValue {
    Str(Option<String>),
    StrVec(Option<Vec<String>>),
    DatePairVec(Option<Vec<DatePair>>),
    Integer(Option<String>),
    Float(Option<String>),
}

/// The abstract value of an [`AttrValue`].
pub enum AttrValueV {
    Str(Option<Seq<char>>),
    StrVec(Option<Seq<Seq<char>>>),
    DatePairVec(Option<Seq<DatePairV>>),
    Integer(Option<Seq<char>>),
    Float(Option<Seq<char>>),
}

impl View for AttrValue {
    type V = AttrValueV;

    open spec fn view(&self) -> AttrValueV {
        match self {
            AttrValue::Str(v) => AttrValueV::Str(v.deep_view()),
            AttrValue::StrVec(v) => AttrValueV::StrVec(v.deep_view()),
            AttrValue::DatePairVec(v) => AttrValueV::DatePairVec(v.deep_view()),
            AttrValue::Integer(v) => AttrValueV::Integer(v.deep_view()),
            AttrValue::Float(v) => AttrValueV::Float(v.deep_view()),
        }
    }
}

impl AttrValue {
    pub fn duplicate(&self) -> (r: AttrValue)
        ensures
            r@ == self@,
    {
        match self {
            AttrValue::Str(v) => AttrValue::Str(crate::schema::clone_opt_string(v)),
            AttrValue::Integer(v) => AttrValue::Integer(crate::schema::clone_opt_string(v)),
            AttrValue::Float(v) => AttrValue::Float(crate::schema::clone_opt_string(v)),
            AttrValue::StrVec(v) => {
                match v {
                    None => AttrValue::StrVec(None),
                    Some(xs) => {
                        let mut out: Vec<String> = Vec::new();
                        let mut i: usize = 0;
                        while i < xs.len()
                            invariant
                                i <= xs@.len(),
                                out@.len() == i,
                                forall|j: int| 0 <= j < i ==> #[trigger] out@[j]@ == xs@[j]@,
                            decreases xs@.len() - i,
                        {
                            out.push(xs[i].clone());
                            i = i + 1;
                        }
                        let r = AttrValue::StrVec(Some(out));
                        proof {
                            assert(out.deep_view() =~= xs.deep_view());
                        }
                        r
                    },
                }
            },
            AttrValue::DatePairVec(v) => {
                match v {
                    None => AttrValue::DatePairVec(None),
                    Some(xs) => {
                        let mut out: Vec<DatePair> = Vec::new();
                        let mut i: usize = 0;
                        while i < xs.len()
                            invariant
                                i <= xs@.len(),
                                out@.len() == i,
                                forall|j: int| 0 <= j < i ==> #[trigger] out@[j]@ == xs@[j]@,
                            decreases xs@.len() - i,
                        {
                            out.push(xs[i].duplicate());
                            i = i + 1;
                        }
                        let r = AttrValue::DatePairVec(Some(out));
                        proof {
                            assert(out.deep_view() =~= xs.deep_view());
                        }
                        r
                    },
                }
            },
        }
    }
}

/// The attribute map of one record: attribute name to typed value, one
/// entry per name.
#[derive(Debug, PartialEq)]
pub struct AttrMap {
    entries: Vec<(String, AttrValue)>,
}

/// The map a sequence of attribute entries stands for; a later entry with
/// the same name overwrites an earlier one.
pub open spec fn attr_map_of(s: Seq<(String, AttrValue)>) -> Map<Seq<char>, AttrValueV>
    decreases s.len(),
{
    if s.len() == 0 {
        Map::empty()
    } else {
        attr_map_of(s.drop_last()).insert(s.last().0@, s.last().1@)
    }
}

impl View for AttrMap {
    type V = Map<Seq<char>, AttrValueV>;

    closed spec fn view(&self) -> Map<Seq<char>, AttrValueV> {
        attr_map_of(self.entries@)
    }
}

pub open spec fn attr_keys_unique(s: Seq<(String, AttrValue)>) -> bool {
    forall|i: int, j: int| 0 <= i < j < s.len() ==> s[i].0@ != s[j].0@
}

/// The entry sequence as abstract values, order kept.
pub open spec fn attr_entries_view(s: Seq<(String, AttrValue)>) -> Seq<(Seq<char>, AttrValueV)> {
    Seq::new(s.len(), |i: int| (s[i].0@, s[i].1@))
}

/// Where an insert leaves an entry sequence: the first entry under the
/// same name replaced in place, or the new entry appended.
pub open spec fn spec_entries_insert(
    s: Seq<(Seq<char>, AttrValueV)>,
    k: Seq<char>,
    v: AttrValueV,
) -> Seq<(Seq<char>, AttrValueV)>
    decreases s.len(),
{
    if s.len() == 0 {
        seq![(k, v)]
    } else if s.first().0 == k {
        seq![(k, v)] + s.drop_first()
    } else {
        seq![s.first()] + spec_entries_insert(s.drop_first(), k, v)
    }
}

proof fn lemma_entries_insert_at(s: Seq<(Seq<char>, AttrValueV)>, k: Seq<char>, v: AttrValueV, i: int)
    requires
        0 <= i < s.len(),
        s[i].0 == k,
        forall|j: int| 0 <= j < i ==> s[j].0 != k,
    ensures
        spec_entries_insert(s, k, v) == s.update(i, (k, v)),
    decreases i,
{
    if i == 0 {
        assert(seq![(k, v)] + s.drop_first() =~= s.update(0, (k, v)));
    } else {
        assert forall|j: int| 0 <= j < i - 1 implies s.drop_first()[j].0 != k by {
            assert(s[j + 1].0 != k);
        }
        assert(s.drop_first()[i - 1].0 == k);
        lemma_entries_insert_at(s.drop_first(), k, v, i - 1);
        assert(seq![s.first()] + s.drop_first().update(i - 1, (k, v)) =~= s.update(i, (k, v)));
    }
}

proof fn lemma_entries_insert_append(s: Seq<(Seq<char>, AttrValueV)>, k: Seq<char>, v: AttrValueV)
    requires
        forall|j: int| 0 <= j < s.len() ==> s[j].0 != k,
    ensures
        spec_entries_insert(s, k, v) == s.push((k, v)),
    decreases s.len(),
{
    if s.len() == 0 {
        assert(seq![(k, v)] =~= s.push((k, v)));
    } else {
        assert forall|j: int| 0 <= j < s.drop_first().len() implies s.drop_first()[j].0 != k by {
            assert(s[j + 1].0 != k);
        }
        lemma_entries_insert_append(s.drop_first(), k, v);
        assert(seq![s.first()] + s.drop_first().push((k, v)) =~= s.push((k, v)));
    }
}

proof fn lemma_attr_map_contains(s: Seq<(String, AttrValue)>, k: Seq<char>)
    ensures
        attr_map_of(s).contains_key(k) <==> exists|i: int| 0 <= i < s.len() && s[i].0@ == k,
    decreases s.len(),
{
    if s.len() > 0 {
        lemma_attr_map_contains(s.drop_last(), k);
        if s.last().0@ == k {
            assert(s[s.len() - 1].0@ == k);
        } else if attr_map_of(s).contains_key(k) {
            let i = choose|i: int| 0 <= i < s.drop_last().len() && s.drop_last()[i].0@ == k;
            assert(s[i].0@ == k);
        } else {
            assert forall|i: int| 0 <= i < s.len() implies s[i].0@ != k by {
                if i < s.len() - 1 {
                    assert(s.drop_last()[i].0@ == s[i].0@);
                }
            }
        }
    }
}

proof fn lemma_attr_map_index(s: Seq<(String, AttrValue)>, i: int)
    requires
        attr_keys_unique(s),
        0 <= i < s.len(),
    ensures
        attr_map_of(s).contains_key(s[i].0@),
        attr_map_of(s)[s[i].0@] == s[i].1@,
    decreases s.len(),
{
    lemma_attr_map_contains(s, s[i].0@);
    if i == s.len() - 1 {
    } else {
        assert(s.drop_last()[i] == s[i]);
        lemma_attr_map_index(s.drop_last(), i);
        assert(s[s.len() - 1].0@ != s[i].0@);
    }
}

proof fn lemma_attr_set_entry_is_insert(
    s1: Seq<(String, AttrValue)>,
    s2: Seq<(String, AttrValue)>,
    i: int,
)
    requires
        attr_keys_unique(s1),
        0 <= i < s1.len(),
        s2.len() == s1.len(),
        s2[i].0@ == s1[i].0@,
        forall|j: int| 0 <= j < s1.len() && j != i ==> s2[j] == s1[j],
    ensures
        attr_map_of(s2) == attr_map_of(s1).insert(s2[i].0@, s2[i].1@),
        attr_keys_unique(s2),
    decreases s1.len(),
{
    assert forall|a: int, b: int| 0 <= a < b < s2.len() implies s2[a].0@ != s2[b].0@ by {
        assert(s2[a].0@ == s1[a].0@ && s2[b].0@ == s1[b].0@);
    }
    if i == s1.len() - 1 {
        assert(s2.drop_last() =~= s1.drop_last());
        assert(attr_map_of(s2) =~= attr_map_of(s1).insert(s2[i].0@, s2[i].1@));
    } else {
        lemma_attr_set_entry_is_insert(s1.drop_last(), s2.drop_last(), i);
        assert(s2.last() == s1.last());
        assert(attr_map_of(s2) == attr_map_of(s2.drop_last()).insert(s1.last().0@, s1.last().1@));
        assert(attr_map_of(s1.drop_last()).insert(s2[i].0@, s2[i].1@).insert(
            s1.last().0@,
            s1.last().1@,
        ) =~= attr_map_of(s1.drop_last()).insert(s1.last().0@, s1.last().1@).insert(
            s2[i].0@,
            s2[i].1@,
        )) by {
            assert(s2[i].0@ != s1.last().0@);
        }
    }
}

impl AttrMap {
    pub closed spec fn wf(&self) -> bool {
        attr_keys_unique(self.entries@)
    }

    pub fn new() -> (r: AttrMap)
        ensures
            r@ == Map::<Seq<char>, AttrValueV>::empty(),
            r.entries_view() == Seq::<(Seq<char>, AttrValueV)>::empty(),
            r.wf(),
    {
        let r = AttrMap { entries: Vec::new() };
        proof {
            assert(r.entries_view() =~= Seq::<(Seq<char>, AttrValueV)>::empty());
        }
        r
    }

    fn find_index(&self, name: &str) -> (r: Option<usize>)
        ensures
            r matches Some(i) ==> i < self.entries@.len() && self.entries@[i as int].0@ == name@
                && forall|j: int| 0 <= j < i ==> self.entries@[j].0@ != name@,
            r is None ==> forall|i: int|
                0 <= i < self.entries@.len() ==> self.entries@[i].0@ != name@,
    {
        let mut i: usize = 0;
        while i < self.entries.len()
            invariant
                i <= self.entries@.len(),
                forall|j: int| 0 <= j < i ==> self.entries@[j].0@ != name@,
            decreases self.entries@.len() - i,
        {
            if crate::paths::str_eq(self.entries[i].0.as_str(), name) {
                return Some(i);
            }
            i = i + 1;
        }
        None
    }

    /// Sets `name` to `value`, overwriting any earlier value in place.
    pub fn insert(&mut self, name: String, value: AttrValue)
        requires
            old(self).wf(),
        ensures
            final(self)@ == old(self)@.insert(name@, value@),
            final(self).entries_view() == spec_entries_insert(
                old(self).entries_view(),
                name@,
                value@,
            ),
            final(self).wf(),
    {
        let ghost k = name@;
        let ghost v = value@;
        let found = self.find_index(name.as_str());
        match found {
            Some(i) => {
                self.entries.set(i, (name, value));
                proof {
                    lemma_attr_set_entry_is_insert(old(self).entries@, self.entries@, i as int);
                    lemma_entries_insert_at(attr_entries_view(old(self).entries@), k, v, i as int);
                    assert(attr_entries_view(self.entries@) =~= attr_entries_view(
                        old(self).entries@,
                    ).update(i as int, (k, v)));
                }
            },
            None => {
                self.entries.push((name, value));
                proof {
                    assert(self.entries@.drop_last() =~= old(self).entries@);
                    lemma_entries_insert_append(attr_entries_view(old(self).entries@), k, v);
                    assert(attr_entries_view(self.entries@) =~= attr_entries_view(
                        old(self).entries@,
                    ).push((k, v)));
                }
            },
        }
    }

    /// The value stored under `name`, if any.
    pub fn get(&self, name: &str) -> (r: Option<&AttrValue>)
        requires
            self.wf(),
        ensures
            r matches Some(v) ==> self@.contains_key(name@) && v@ == self@[name@],
            r is None ==> !self@.contains_key(name@),
    {
        let found = self.find_index(name);
        proof {
            lemma_attr_map_contains(self.entries@, name@);
        }
        match found {
            Some(i) => {
                proof {
                    lemma_attr_map_index(self.entries@, i as int);
                }
                Some(&self.entries[i].1)
            },
            None => None,
        }
    }

    /// How many attributes are stored.
    pub fn len(&self) -> (r: usize)
        requires
            self.wf(),
        ensures
            r == self@.dom().len(),
    {
        proof {
            lemma_attr_map_len(self.entries@);
        }
        self.entries.len()
    }

    /// The stored entries, in insertion order.
    pub fn entries(&self) -> (r: &Vec<(String, AttrValue)>)
        ensures
            r@.len() == self.entries_view().len(),
            forall|i: int|
                0 <= i < r@.len() ==> (#[trigger] r@[i].0@) == self.entries_view()[i].0
                    && r@[i].1@ == self.entries_view()[i].1,
    {
        &self.entries
    }

    /// The stored entries as abstract values, in insertion order: the
    /// order the denormalized search text is built in.
    pub closed spec fn entries_view(&self) -> Seq<(Seq<char>, AttrValueV)> {
        attr_entries_view(self.entries@)
    }

    pub fn duplicate(&self) -> (r: AttrMap)
        ensures
            r@ == self@,
            self.wf() ==> r.wf(),
            r.entries_view() == self.entries_view(),
    {
        let mut out: Vec<(String, AttrValue)> = Vec::new();
        let mut i: usize = 0;
        while i < self.entries.len()
            invariant
                i <= self.entries@.len(),
                out@.len() == i,
                forall|j: int|
                    0 <= j < i ==> #[trigger] out@[j].0@ == self.entries@[j].0@ && out@[j].1@
                        == self.entries@[j].1@,
            decreases self.entries@.len() - i,
        {
            out.push((self.entries[i].0.clone(), self.entries[i].1.duplicate()));
            i = i + 1;
        }
        let r = AttrMap { entries: out };
        proof {
            lemma_attr_map_congruent(self.entries@, r.entries@);
            assert(attr_entries_view(r.entries@) =~= attr_entries_view(self.entries@));
            if attr_keys_unique(self.entries@) {
                assert forall|a: int, b: int| 0 <= a < b < r.entries@.len() implies r.entries@[a].0@
                    != r.entries@[b].0@ by {
                    assert(r.entries@[a].0@ == self.entries@[a].0@);
                    assert(r.entries@[b].0@ == self.entries@[b].0@);
                }
            }
        }
        r
    }
}

/// With unique keys, the number of entries is the size of the map's
/// domain.
proof fn lemma_attr_map_len(s: Seq<(String, AttrValue)>)
    requires
        attr_keys_unique(s),
    ensures
        attr_map_of(s).dom().finite(),
        attr_map_of(s).dom().len() == s.len(),
    decreases s.len(),
{
    if s.len() > 0 {
        lemma_attr_map_len(s.drop_last());
        lemma_attr_map_contains(s.drop_last(), s.last().0@);
        assert(!attr_map_of(s.drop_last()).contains_key(s.last().0@)) by {
            assert forall|i: int| 0 <= i < s.drop_last().len() implies s.drop_last()[i].0@
                != s.last().0@ by {
                assert(s[i].0@ != s[s.len() - 1].0@);
            }
        }
        vstd::set::axiom_set_insert_len(attr_map_of(s.drop_last()).dom(), s.last().0@);
        assert(attr_map_of(s).dom() =~= attr_map_of(s.drop_last()).dom().insert(s.last().0@));
    }
}

/// Two entry sequences equal name-for-name and value-for-value stand for
/// the same map.
proof fn lemma_attr_map_congruent(s1: Seq<(String, AttrValue)>, s2: Seq<(String, AttrValue)>)
    requires
        s1.len() == s2.len(),
        forall|i: int|
            0 <= i < s1.len() ==> #[trigger] s2[i].0@ == s1[i].0@ && s2[i].1@ == s1[i].1@,
    ensures
        attr_map_of(s1) == attr_map_of(s2),
    decreases s1.len(),
{
    if s1.len() > 0 {
        lemma_attr_map_congruent(s1.drop_last(), s2.drop_last());
        assert(attr_map_of(s1) =~= attr_map_of(s2));
    }
}

/// How a record's content was read: only its front matter, or the whole
/// document.
#[derive(Debug)]
pub enum FileReadMode {
    OnlyMeta,
    FullFile,
}

/// One indexed file record: its path relative to the root, its on-disk
/// modification time in unix milliseconds, its markdown body when a full
/// read asked for it, and its typed attributes.
#[derive(Debug)]
pub struct RecordFromDb {
    pub path: Option<RelPath>,
    pub modified: Option<i64>,
    pub markdown: Option<String>,
    pub attrs: AttrMap,
}

/// The abstract value of a [`RecordFromDb`].
pub struct RecordV {
    pub path: Option<Seq<Seq<char>>>,
    pub modified: Option<i64>,
    pub markdown: Option<Seq<char>>,
    pub attrs: Map<Seq<char>, AttrValueV>,
}

impl View for RecordFromDb {
    type V = RecordV;

    open spec fn view(&self) -> RecordV {
        RecordV {
            path: self.path.deep_view(),
            modified: self.modified,
            markdown: self.markdown.deep_view(),
            attrs: self.attrs@,
        }
    }
}

impl RecordFromDb {
    pub open spec fn wf(&self) -> bool {
        self.attrs.wf()
    }

    pub fn duplicate(&self) -> (r: RecordFromDb)
        ensures
            r@ == self@,
            self.wf() ==> r.wf(),
    {
        RecordFromDb {
            path: match &self.path {
                Some(p) => Some(p.duplicate()),
                None => None,
            },
            modified: self.modified,
            markdown: crate::schema::clone_opt_string(&self.markdown),
            attrs: self.attrs.duplicate(),
        }
    }
}

/// The result of saving a record back to disk: where it went and the
/// modification time the disk then reported.
#[derive(Debug)]
pub struct RecordSaveResult {
    pub path: String,
    pub modified: i64,
}

} // verus!
