//! Relative paths, modelled as a vector of name segments.
//!
//! Every path the engine stores or resolves is relative to the single indexed
//! root; the empty segment list is the root itself.  Modelling a path as its
//! segments makes the ancestor walk and the subtree-prefix tests exact.

use vstd::prelude::*;

verus! {

/// A path relative to the indexed root, as its list of name segments.
/// The root itself is the empty list.
#[derive(Clone, Debug, PartialEq)]
pub struct RelPath {
    pub segments: Vec<String>,
}

impl View for RelPath {
    type V = Seq<Seq<char>>;

    open spec fn view(&self) -> Seq<Seq<char>> {
        self.segments.deep_view()
    }
}

impl DeepView for RelPath {
    type V = Seq<Seq<char>>;

    open spec fn deep_view(&self) -> Seq<Seq<char>> {
        self@
    }
}

impl RelPath {
    /// The root path: no segments.
    pub fn root() -> (r: RelPath)
        ensures
            r@ == Seq::<Seq<char>>::empty(),
    {
        let r = RelPath { segments: Vec::new() };
        proof {
            assert(r@ =~= Seq::<Seq<char>>::empty());
        }
        r
    }

    pub fn from_segments(segments: Vec<String>) -> (r: RelPath)
        ensures
            r@ == segments.deep_view(),
    {
        RelPath { segments }
    }

    pub fn depth(&self) -> (n: usize)
        ensures
            n == self@.len(),
    {
        self.segments.len()
    }

    pub fn is_root(&self) -> (r: bool)
        ensures
            r == (self@.len() == 0),
    {
        self.segments.len() == 0
    }

    /// The enclosing path: the path with the last segment dropped,
    /// or `None` for the root.
    pub fn parent(&self) -> (r: Option<RelPath>)
        ensures
            self@.len() == 0 ==> r is None,
            self@.len() > 0 ==> (r matches Some(p) && p@ == self@.drop_last()),
    {
        if self.segments.len() == 0 {
            None
        } else {
            let mut segs = self.segments.clone();
            proof {
                assert forall|j: int| 0 <= j < self@.len() implies segs@[j].deep_view()
                    == self@[j] by {
                    assert(cloned::<String>(self.segments[j], segs@[j]));
                }
            }
            segs.pop();
            let p = RelPath { segments: segs };
            proof {
                assert(p@ =~~= self@.drop_last());
            }
            Some(p)
        }
    }

    /// The final segment, or `None` for the root.
    pub fn file_name(&self) -> (r: Option<String>)
        ensures
            self@.len() == 0 ==> r is None,
            self@.len() > 0 ==> (r matches Some(n) && n@ == self@.last()),
    {
        if self.segments.len() == 0 {
            None
        } else {
            Some(self.segments[self.segments.len() - 1].clone())
        }
    }

    /// The path extended by one further segment.
    pub fn child(&self, name: &str) -> (r: RelPath)
        ensures
            r@ == self@.push(name@),
    {
        let mut segs = self.segments.clone();
        proof {
            assert forall|j: int| 0 <= j < self@.len() implies segs@[j].deep_view() == self@[j] by {
                assert(cloned::<String>(self.segments[j], segs@[j]));
            }
        }
        segs.push(name.to_owned());
        let r = RelPath { segments: segs };
        proof {
            assert(r@ =~~= self@.push(name@));
        }
        r
    }

    /// Whether `prefix` is this path or an ancestor of it.
    pub fn starts_with(&self, prefix: &RelPath) -> (r: bool)
        ensures
            r == prefix@.is_prefix_of(self@),
    {
        if prefix.segments.len() > self.segments.len() {
            proof {
                assert(!prefix@.is_prefix_of(self@));
            }
            return false;
        }
        let mut i: usize = 0;
        while i < prefix.segments.len()
            invariant
                i <= prefix.segments.len() <= self.segments.len(),
                forall|j: int| 0 <= j < i ==> self@[j] == prefix@[j],
            decreases prefix.segments.len() - i,
        {
            if !str_eq(self.segments[i].as_str(), prefix.segments[i].as_str()) {
                proof {
                    assert(self@[i as int] != prefix@[i as int]);
                    assert(!prefix@.is_prefix_of(self@)) by {
                        if prefix@.is_prefix_of(self@) {
                            assert(prefix@[i as int] == self@.subrange(
                                0,
                                prefix@.len() as int,
                            )[i as int]);
                        }
                    }
                }
                return false;
            }
            i = i + 1;
        }
        proof {
            assert(prefix@ =~~= self@.subrange(0, prefix@.len() as int));
        }
        true
    }

    /// The segment at position `i`.
    pub fn file_name_at(&self, i: usize) -> (r: Option<String>)
        ensures
            i < self@.len() ==> (r matches Some(n) && n@ == self@[i as int]),
            i >= self@.len() ==> r is None,
    {
        if i < self.segments.len() {
            Some(self.segments[i].clone())
        } else {
            None
        }
    }

    /// A copy of this path with the same abstract value.
    pub fn duplicate(&self) -> (r: RelPath)
        ensures
            r@ == self@,
    {
        self.prefix_of_len(self.segments.len())
    }

    /// The ancestor made of the first `n` segments.
    pub fn prefix_of_len(&self, n: usize) -> (r: RelPath)
        requires
            n <= self@.len(),
        ensures
            r@ == self@.subrange(0, n as int),
    {
        let mut segs: Vec<String> = Vec::new();
        let mut i: usize = 0;
        while i < n
            invariant
                i <= n <= self@.len(),
                self@.len() == self.segments@.len(),
                segs@.len() == i,
                forall|j: int| 0 <= j < i ==> #[trigger] segs@[j]@ == self@[j],
            decreases n - i,
        {
            segs.push(self.segments[i].clone());
            i = i + 1;
        }
        let r = RelPath { segments: segs };
        proof {
            assert(r@ =~~= self@.subrange(0, n as int));
        }
        r
    }

    /// The file-name extension of the final segment, under the usual rule:
    /// the text after the last dot, unless that dot starts the name.
    pub fn extension(&self) -> (r: Option<String>)
        ensures
            r matches Some(e) ==> self@.len() > 0 && spec_extension(self@.last()) == Some(e@),
            r is None ==> self@.len() == 0 || spec_extension(self@.last()) is None,
    {
        if self.segments.len() == 0 {
            None
        } else {
            str_extension(self.segments[self.segments.len() - 1].as_str())
        }
    }
}

/// The display text of a path: its segments joined by slashes; the
/// root is the empty text.
pub open spec fn spec_join_path(p: Seq<Seq<char>>) -> Seq<char>
    decreases p.len(),
{
    if p.len() == 0 {
        Seq::empty()
    } else if p.len() == 1 {
        p[0]
    } else {
        spec_join_path(p.drop_last()) + seq!['/'] + p.last()
    }
}

impl RelPath {
    /// The display text of the path.
    pub fn to_display(&self) -> (r: String)
        ensures
            r@ == spec_join_path(self@),
    {
        let mut out = String::new();
        let mut i: usize = 0;
        proof {
            assert(self@.subrange(0, 0) =~= Seq::<Seq<char>>::empty());
        }
        while i < self.segments.len()
            invariant
                i <= self.segments@.len(),
                self.segments@.len() == self@.len(),
                forall|j: int| 0 <= j < self@.len() ==> #[trigger] self.segments@[j]@ == self@[j],
                out@ == spec_join_path(self@.subrange(0, i as int)),
            decreases self.segments@.len() - i,
        {
            if i > 0 {
                out.append("/");
                proof {
                    reveal_strlit("/");
                    assert("/"@ =~= seq!['/']);
                }
            }
            out.append(self.segments[i].as_str());
            proof {
                assert(self@.subrange(0, i + 1).drop_last() =~= self@.subrange(0, i as int));
                assert(self@.subrange(0, i + 1).last() == self@[i as int]);
                if i == 0 {
                    assert(out@ =~= spec_join_path(self@.subrange(0, 1)));
                }
            }
            i = i + 1;
        }
        proof {
            assert(self@.subrange(0, self@.len() as int) =~= self@);
        }
        out
    }
}

/// The decimal digits of a number.
pub open spec fn spec_digits(n: nat) -> Seq<char>
    decreases n,
{
    if n < 10 {
        seq![spec_digit_char(n)]
    } else {
        spec_digits(n / 10).push(spec_digit_char(n % 10))
    }
}

pub open spec fn spec_digit_char(d: nat) -> char {
    if d == 0 {
        '0'
    } else if d == 1 {
        '1'
    } else if d == 2 {
        '2'
    } else if d == 3 {
        '3'
    } else if d == 4 {
        '4'
    } else if d == 5 {
        '5'
    } else if d == 6 {
        '6'
    } else if d == 7 {
        '7'
    } else if d == 8 {
        '8'
    } else {
        '9'
    }
}

fn digit_str(d: u64) -> (r: &'static str)
    requires
        d < 10,
    ensures
        r@ == seq![spec_digit_char(d as nat)],
{
    proof {
        reveal_strlit("0");
        reveal_strlit("1");
        reveal_strlit("2");
        reveal_strlit("3");
        reveal_strlit("4");
        reveal_strlit("5");
        reveal_strlit("6");
        reveal_strlit("7");
        reveal_strlit("8");
        reveal_strlit("9");
    }
    if d == 0 {
        "0"
    } else if d == 1 {
        "1"
    } else if d == 2 {
        "2"
    } else if d == 3 {
        "3"
    } else if d == 4 {
        "4"
    } else if d == 5 {
        "5"
    } else if d == 6 {
        "6"
    } else if d == 7 {
        "7"
    } else if d == 8 {
        "8"
    } else {
        "9"
    }
}

/// The decimal text of a number.
pub fn u64_to_string(n: u64) -> (r: String)
    ensures
        r@ == spec_digits(n as nat),
    decreases n,
{
    if n < 10 {
        digit_str(n).to_owned()
    } else {
        let mut s = u64_to_string(n / 10);
        s.append(digit_str(n % 10));
        proof {
            assert(s@ =~= spec_digits(n as nat));
        }
        s
    }
}

/// Lexicographic order on texts, by scalar value, shorter prefix first.
pub open spec fn spec_lex_le(a: Seq<char>, b: Seq<char>) -> bool
    decreases a.len(),
{
    if a.len() == 0 {
        true
    } else if b.len() == 0 {
        false
    } else if (a.first() as u32) < (b.first() as u32) {
        true
    } else if (a.first() as u32) > (b.first() as u32) {
        false
    } else {
        spec_lex_le(a.drop_first(), b.drop_first())
    }
}

/// The lexicographic order is total.
pub proof fn lemma_lex_total(a: Seq<char>, b: Seq<char>)
    ensures
        spec_lex_le(a, b) || spec_lex_le(b, a),
    decreases a.len(),
{
    if a.len() > 0 && b.len() > 0 && (a.first() as u32) == (b.first() as u32) {
        lemma_lex_total(a.drop_first(), b.drop_first());
    }
}

/// The lexicographic order is transitive.
pub proof fn lemma_lex_trans(a: Seq<char>, b: Seq<char>, c: Seq<char>)
    requires
        spec_lex_le(a, b),
        spec_lex_le(b, c),
    ensures
        spec_lex_le(a, c),
    decreases a.len(),
{
    if a.len() > 0 && b.len() > 0 && c.len() > 0 && (a.first() as u32) == (b.first() as u32) && (
    b.first() as u32) == (c.first() as u32) {
        lemma_lex_trans(a.drop_first(), b.drop_first(), c.drop_first());
    }
}

/// Lexicographic comparison, by scalar value.
pub fn str_le(a: &str, b: &str) -> (r: bool)
    ensures
        r == spec_lex_le(a@, b@),
{
    let alen = a.unicode_len();
    let blen = b.unicode_len();
    let mut i: usize = 0;
    proof {
        assert(a@.skip(0) =~= a@);
        assert(b@.skip(0) =~= b@);
    }
    while i < alen && i < blen
        invariant
            i <= alen,
            i <= blen,
            alen == a@.len(),
            blen == b@.len(),
            spec_lex_le(a@, b@) == spec_lex_le(a@.skip(i as int), b@.skip(i as int)),
            spec_lex_le(b@, a@) == spec_lex_le(b@.skip(i as int), a@.skip(i as int)),
        decreases alen - i,
    {
        proof {
            assert(a@.skip(i as int).first() == a@[i as int]);
            assert(b@.skip(i as int).first() == b@[i as int]);
            assert(a@.skip(i as int).drop_first() =~= a@.skip(i + 1));
            assert(b@.skip(i as int).drop_first() =~= b@.skip(i + 1));
        }
        let ca = a.get_char(i) as u32;
        let cb = b.get_char(i) as u32;
        if ca < cb {
            return true;
        }
        if ca > cb {
            return false;
        }
        i = i + 1;
    }
    proof {
        if i >= alen {
            assert(a@.skip(i as int).len() == 0);
        } else {
            assert(b@.skip(i as int).len() == 0);
            assert(a@.skip(i as int).len() > 0);
        }
    }
    i >= alen
}

/// Character-for-character string equality.
pub fn str_eq(a: &str, b: &str) -> (r: bool)
    ensures
        r == (a@ == b@),
{
    let alen = a.unicode_len();
    let blen = b.unicode_len();
    if alen != blen {
        return false;
    }
    let mut i: usize = 0;
    while i < alen
        invariant
            alen == a@.len(),
            alen == b@.len(),
            i <= alen,
            forall|j: int| 0 <= j < i ==> a@[j] == b@[j],
        decreases alen - i,
    {
        if a.get_char(i) != b.get_char(i) {
            return false;
        }
        i = i + 1;
    }
    proof {
        assert(a@ =~= b@);
    }
    true
}

/// A file name split into its stem and its extension.
pub open spec fn spec_stem_ext(name: Seq<char>) -> (Seq<char>, Option<Seq<char>>) {
    match spec_extension(name) {
        Some(e) => (name.subrange(0, name.len() - e.len() - 1), Some(e)),
        None => (name, None),
    }
}

/// The i-th renaming candidate for an occupied path: `stem(i).ext`, or
/// `stem(i)` for a name without an extension, in the same folder.
pub open spec fn spec_candidate(p: Seq<Seq<char>>, i: nat) -> Seq<Seq<char>> {
    let se = spec_stem_ext(p.last());
    let tail = match se.1 {
        Some(e) => seq!['.'] + e,
        None => Seq::<char>::empty(),
    };
    p.drop_last().push(se.0 + seq!['('] + spec_digits(i) + seq![')'] + tail)
}

/// Whether a path is already occupied.
pub open spec fn spec_taken(taken: Seq<Seq<Seq<char>>>, q: Seq<Seq<char>>) -> bool {
    exists|t: int| 0 <= t < taken.len() && taken[t] == q
}

/// Whether `p` is among the occupied paths.
fn path_taken(taken: &Vec<RelPath>, p: &RelPath) -> (r: bool)
    ensures
        r == spec_taken(taken.deep_view(), p@),
{
    let mut t: usize = 0;
    while t < taken.len()
        invariant
            t <= taken@.len(),
            forall|j: int| 0 <= j < t ==> taken.deep_view()[j] != p@,
        decreases taken@.len() - t,
    {
        if crate::schema_store::rel_path_eq(&taken[t], p) {
            proof {
                assert(taken.deep_view()[t as int] == p@);
            }
            return true;
        }
        t = t + 1;
    }
    false
}

/// The i-th renaming candidate beside `path`.
fn make_candidate(path: &RelPath, i: u64) -> (r: RelPath)
    requires
        path@.len() > 0,
    ensures
        r@ == spec_candidate(path@, i as nat),
{
    let name = match path.file_name() {
        Some(n) => n,
        None => {
            proof {
                assert(false);
            }
            String::new()
        },
    };
    let len = name.unicode_len();
    let ext = str_extension(name.as_str());
    let mut cand: String;
    match &ext {
        Some(e) => {
            let elen = e.unicode_len();
            proof {
                assert(spec_extension(name@) == Some(e@));
                lemma_last_dot_range(name@, name@.len() as int);
                assert(len - elen - 1 >= 1);
            }
            cand = name.substring_char(0, len - elen - 1).to_owned();
        },
        None => {
            cand = name.clone();
        },
    }
    cand.append("(");
    let digits = u64_to_string(i);
    cand.append(digits.as_str());
    cand.append(")");
    match &ext {
        Some(e) => {
            cand.append(".");
            cand.append(e.as_str());
        },
        None => {},
    }
    proof {
        reveal_strlit("(");
        reveal_strlit(")");
        reveal_strlit(".");
        assert("("@ =~= seq!['(']);
        assert(")"@ =~= seq![')']);
        assert("."@ =~= seq!['.']);
        let se = spec_stem_ext(path@.last());
        assert(cand@ =~= se.0 + seq!['('] + spec_digits(i as nat) + seq![')'] + (match se.1 {
            Some(e) => seq!['.'] + e,
            None => Seq::<char>::empty(),
        }));
    }
    let parent = match path.parent() {
        Some(p) => p,
        None => {
            proof {
                assert(false);
            }
            RelPath::root()
        },
    };
    parent.child(cand.as_str())
}

/// A free path at or beside `path`: `path` itself when nothing occupies
/// it, else the first `stem(i).ext` candidate that nothing occupies.
/// With every candidate up to one past the number of occupied paths
/// taken, there is nothing sensible left to try and `None` comes back.
pub fn get_unique_path(path: &RelPath, taken: &Vec<RelPath>) -> (r: Option<RelPath>)
    requires
        path@.len() > 0,
        taken@.len() + 2 <= usize::MAX,
    ensures
        !spec_taken(taken.deep_view(), path@) ==> (r matches Some(p) && p@ == path@),
        spec_taken(taken.deep_view(), path@) ==> (match r {
            Some(p) => exists|i: int|
                1 <= i <= taken@.len() + 1 && p@ == #[trigger] spec_candidate(path@, i as nat)
                    && !spec_taken(taken.deep_view(), p@) && (forall|j: int|
                    1 <= j < i ==> spec_taken(
                        taken.deep_view(),
                        #[trigger] spec_candidate(path@, j as nat),
                    )),
            None => forall|i: int|
                1 <= i <= taken@.len() + 1 ==> spec_taken(
                    taken.deep_view(),
                    #[trigger] spec_candidate(path@, i as nat),
                ),
        }),
{
    if !path_taken(taken, path) {
        return Some(path.duplicate());
    }
    let mut i: usize = 1;
    while i <= taken.len() + 1
        invariant
            1 <= i <= taken@.len() + 2,
            taken@.len() + 2 <= usize::MAX,
            path@.len() > 0,
            spec_taken(taken.deep_view(), path@),
            forall|j: int|
                1 <= j < i ==> spec_taken(
                    taken.deep_view(),
                    #[trigger] spec_candidate(path@, j as nat),
                ),
        decreases taken@.len() + 2 - i,
    {
        let cand = make_candidate(path, i as u64);
        if !path_taken(taken, &cand) {
            proof {
                let wi = i as int;
                assert(1 <= wi <= taken@.len() + 1);
                assert(cand@ == spec_candidate(path@, wi as nat));
                assert(exists|t: int|
                    1 <= t <= taken@.len() + 1 && cand@ == #[trigger] spec_candidate(
                        path@,
                        t as nat,
                    ) && !spec_taken(taken.deep_view(), cand@) && (forall|j: int|
                        1 <= j < t ==> spec_taken(
                            taken.deep_view(),
                            #[trigger] spec_candidate(path@, j as nat),
                        )));
            }
            return Some(cand);
        }
        i = i + 1;
    }
    None
}

/// One breadcrumb: a path segment and the display text of the path up
/// to it.
#[derive(Debug, PartialEq)]
pub struct BreadcrumbItem {
    pub label: String,
    pub path: String,
}

/// A record's breadcrumb trail, folded for display: a long trail keeps
/// its first crumb and its last two apart, with the rest in between.
#[derive(Debug, PartialEq)]
pub struct FileBreadCrumbs {
    pub start: Vec<BreadcrumbItem>,
    pub middle: Vec<BreadcrumbItem>,
    pub end: Vec<BreadcrumbItem>,
}

pub open spec fn spec_crumb_label(p: Seq<Seq<char>>, i: int) -> Seq<char> {
    p[i]
}

pub open spec fn spec_crumb_path(p: Seq<Seq<char>>, i: int) -> Seq<char> {
    spec_join_path(p.subrange(0, i + 1))
}

pub open spec fn spec_crumbs_match(p: Seq<Seq<char>>, items: Seq<BreadcrumbItem>, off: int) -> bool {
    forall|j: int|
        0 <= j < items.len() ==> (#[trigger] items[j].label@) == spec_crumb_label(p, off + j)
            && items[j].path@ == spec_crumb_path(p, off + j)
}

/// The breadcrumb trail of a record's path.  A trail longer than four
/// crumbs is folded: the first crumb starts it, the last two end it,
/// everything between goes to the middle; a short trail stands whole in
/// `start`.
pub fn get_breadcrumb_items(record: &crate::records::RecordFromDb) -> (r: FileBreadCrumbs)
    ensures
        ({
            let p = match record.path {
                Some(q) => q@,
                None => Seq::<Seq<char>>::empty(),
            };
            if p.len() > 4 {
                &&& r.start@.len() == 1 && spec_crumbs_match(p, r.start@, 0)
                &&& r.middle@.len() == p.len() - 3 && spec_crumbs_match(p, r.middle@, 1)
                &&& r.end@.len() == 2 && spec_crumbs_match(p, r.end@, p.len() - 2)
            } else {
                &&& r.start@.len() == p.len() && spec_crumbs_match(p, r.start@, 0)
                &&& r.middle@.len() == 0
                &&& r.end@.len() == 0
            }
        }),
{
    let empty_path = RelPath::root();
    let path: &RelPath = match &record.path {
        Some(q) => q,
        None => &empty_path,
    };
    let n = path.depth();
    let mut crumbs: Vec<BreadcrumbItem> = Vec::new();
    let mut i: usize = 0;
    while i < n
        invariant
            i <= n,
            n == path@.len(),
            crumbs@.len() == i,
            spec_crumbs_match(path@, crumbs@, 0),
        decreases n - i,
    {
        let label = match path.file_name_at(i) {
            Some(l) => l,
            None => String::new(),
        };
        let prefix = path.prefix_of_len(i + 1);
        crumbs.push(BreadcrumbItem { label, path: prefix.to_display() });
        i = i + 1;
    }
    if n > 4 {
        let mut start: Vec<BreadcrumbItem> = Vec::new();
        let mut middle: Vec<BreadcrumbItem> = Vec::new();
        let mut end: Vec<BreadcrumbItem> = Vec::new();
        start.push(take_crumb(&crumbs, 0));
        let mut j: usize = 1;
        while j < n - 2
            invariant
                1 <= j <= n - 2,
                n == path@.len(),
                n <= crumbs@.len(),
                spec_crumbs_match(path@, crumbs@, 0),
                middle@.len() == j - 1,
                spec_crumbs_match(path@, middle@, 1),
            decreases n - 2 - j,
        {
            middle.push(take_crumb(&crumbs, j));
            j = j + 1;
        }
        end.push(take_crumb(&crumbs, n - 2));
        end.push(take_crumb(&crumbs, n - 1));
        FileBreadCrumbs { start, middle, end }
    } else {
        FileBreadCrumbs { start: crumbs, middle: Vec::new(), end: Vec::new() }
    }
}

/// A copy of one crumb.
fn take_crumb(crumbs: &Vec<BreadcrumbItem>, i: usize) -> (r: BreadcrumbItem)
    requires
        i < crumbs@.len(),
    ensures
        r.label@ == crumbs@[i as int].label@,
        r.path@ == crumbs@[i as int].path@,
{
    BreadcrumbItem { label: crumbs[i].label.clone(), path: crumbs[i].path.clone() }
}

/// The index of the last dot in `s` at a position in `[1, hi)`, or -1.
pub open spec fn spec_last_dot(s: Seq<char>, hi: int) -> int
    decreases hi,
{
    if hi <= 1 {
        -1
    } else if s[hi - 1] == '.' {
        hi - 1
    } else {
        spec_last_dot(s, hi - 1)
    }
}

/// The extension of a file name: the text after the last dot, unless that
/// dot is the first character (a hidden-name marker, not an extension).
pub open spec fn spec_extension(s: Seq<char>) -> Option<Seq<char>> {
    let d = spec_last_dot(s, s.len() as int);
    if d >= 1 {
        Some(s.subrange(d + 1, s.len() as int))
    } else {
        None
    }
}

proof fn lemma_last_dot_range(s: Seq<char>, hi: int)
    requires
        hi <= s.len(),
    ensures
        spec_last_dot(s, hi) == -1 || (1 <= spec_last_dot(s, hi) < hi && s[spec_last_dot(s, hi)]
            == '.'),
        forall|j: int| spec_last_dot(s, hi) < j < hi && j >= 1 ==> s[j] != '.',
    decreases hi,
{
    if hi > 1 {
        if s[hi - 1] != '.' {
            lemma_last_dot_range(s, hi - 1);
        }
    }
}

/// The extension of a single name, per `spec_extension`.
pub fn str_extension(name: &str) -> (r: Option<String>)
    ensures
        r matches Some(e) ==> spec_extension(name@) == Some(e@),
        r is None ==> spec_extension(name@) is None,
{
    let len = name.unicode_len();
    let mut hi: usize = len;
    while hi > 1 && name.get_char(hi - 1) != '.'
        invariant
            hi <= len,
            len == name@.len(),
            spec_last_dot(name@, len as int) == spec_last_dot(name@, hi as int),
        decreases hi,
    {
        hi = hi - 1;
    }
    if hi > 1 {
        let e = name.substring_char(hi, len);
        Some(e.to_owned())
    } else {
        None
    }
}

} // verus!
