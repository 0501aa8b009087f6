use vstd::prelude::*;
use crate::order::{
    lemma_seq_lt_asymmetric, lemma_seq_lt_irreflexive, lemma_seq_lt_total, lemma_seq_lt_transitive,
    seq_lt, str_less,
};

verus! {

/// Front-matter of a post. `publish_date` is the publication instant as
/// nanoseconds since the Unix epoch (UTC).
pub struct PostMetadata {
    pub title: String,
    pub author: String,
    pub publish_date: i128,
}

/// Information about the blog as a whole, handed to every template.
pub struct BlogInfo {
    pub name: String,
}

/// One rendered post. `filename` is the source file's base name and the
/// entry's key; `creation_date` is the file's creation time in seconds since
/// the Unix epoch.
pub struct BlogEntry {
    pub description: PostMetadata,
    pub html: String,
    pub creation_date: i64,
    pub filename: String,
}

impl PostMetadata {
    pub fn duplicate(&self) -> (r: PostMetadata)
        ensures
            r == *self,
    {
        PostMetadata {
            title: self.title.clone(),
            author: self.author.clone(),
            publish_date: self.publish_date,
        }
    }
}

impl BlogEntry {
    pub fn duplicate(&self) -> (r: BlogEntry)
        ensures
            r == *self,
    {
        BlogEntry {
            description: self.description.duplicate(),
            html: self.html.clone(),
            creation_date: self.creation_date,
            filename: self.filename.clone(),
        }
    }
}

/// The order of the recent view: newer publication date first, equal dates
/// by file name ascending.
pub open spec fn before(a: BlogEntry, b: BlogEntry) -> bool {
    a.description.publish_date > b.description.publish_date || (a.description.publish_date
        == b.description.publish_date && seq_lt(a.filename@, b.filename@))
}

pub proof fn lemma_before_irreflexive(a: BlogEntry)
    ensures
        !before(a, a),
{
    lemma_seq_lt_irreflexive(a.filename@);
}

pub proof fn lemma_before_asymmetric(a: BlogEntry, b: BlogEntry)
    ensures
        !(before(a, b) && before(b, a)),
{
    lemma_seq_lt_asymmetric(a.filename@, b.filename@);
}

pub proof fn lemma_before_transitive(a: BlogEntry, b: BlogEntry, c: BlogEntry)
    requires
        before(a, b),
        before(b, c),
    ensures
        before(a, c),
{
    if a.description.publish_date == b.description.publish_date
        && b.description.publish_date == c.description.publish_date {
        lemma_seq_lt_transitive(a.filename@, b.filename@, c.filename@);
    }
}

pub proof fn lemma_before_total(a: BlogEntry, b: BlogEntry)
    requires
        a.filename@ != b.filename@,
    ensures
        before(a, b) || before(b, a),
{
    lemma_seq_lt_total(a.filename@, b.filename@);
}

fn entry_before(a: &BlogEntry, b: &BlogEntry) -> (r: bool)
    ensures
        r == before(*a, *b),
{
    if a.description.publish_date != b.description.publish_date {
        a.description.publish_date > b.description.publish_date
    } else {
        str_less(a.filename.as_str(), b.filename.as_str())
    }
}

/// A sequence strictly ordered by `before`, hence without repeated names.
pub open spec fn sorted_strictly(s: Seq<BlogEntry>) -> bool {
    forall|i: int, j: int| 0 <= i < j < s.len() ==> before(#[trigger] s[i], #[trigger] s[j])
}

pub open spec fn min_nat(a: nat, b: nat) -> nat {
    if a <= b {
        a
    } else {
        b
    }
}


/// Two sequences strictly ordered by `before` that hold the same
/// elements are the same sequence.
proof fn lemma_sorted_unique(s1: Seq<BlogEntry>, s2: Seq<BlogEntry>)
    requires
        sorted_strictly(s1),
        sorted_strictly(s2),
        forall|x: BlogEntry| s1.contains(x) <==> s2.contains(x),
    ensures
        s1 == s2,
    decreases s1.len(),
{
    if s1.len() == 0 {
        if s2.len() > 0 {
            assert(s2.contains(s2[0]));
        }
        assert(s1 =~= s2);
    } else {
        assert(s1.contains(s1[0]));
        assert(s2.len() > 0);
        assert(s2.contains(s2[0]));
        let a = s1[0];
        let b = s2[0];
        if a != b {
            let j = choose|j: int| 0 <= j < s1.len() && s1[j] == b;
            let k = choose|k: int| 0 <= k < s2.len() && s2[k] == a;
            assert(j != 0);
            assert(k != 0);
            assert(before(s1[0], s1[j]));
            assert(before(s2[0], s2[k]));
            lemma_before_asymmetric(a, b);
        }
        let t1 = s1.drop_first();
        let t2 = s2.drop_first();
        assert forall|x: BlogEntry| t1.contains(x) <==> t2.contains(x) by {
            if t1.contains(x) {
                let i = choose|i: int| 0 <= i < t1.len() && t1[i] == x;
                assert(before(s1[0], s1[i + 1]));
                lemma_before_irreflexive(x);
                assert(s1.contains(x));
                assert(s2.contains(x));
                let i2 = choose|i2: int| 0 <= i2 < s2.len() && s2[i2] == x;
                assert(i2 != 0);
                assert(t2[i2 - 1] == x);
            }
            if t2.contains(x) {
                let i = choose|i: int| 0 <= i < t2.len() && t2[i] == x;
                assert(before(s2[0], s2[i + 1]));
                lemma_before_irreflexive(x);
                assert(s2.contains(x));
                assert(s1.contains(x));
                let i1 = choose|i1: int| 0 <= i1 < s1.len() && s1[i1] == x;
                assert(i1 != 0);
                assert(t1[i1 - 1] == x);
            }
        }
        lemma_sorted_unique(t1, t2);
        assert(s1 =~= seq![a] + t1);
        assert(s2 =~= seq![b] + t2);
    }
}

/// The entry cache: every cached entry by name, and the bounded view of the
/// most recent ones.
///
/// All entries are held in one vector, strictly ordered by `before`; the
/// recent view is its first `max_most_recent_entries` elements, so the two
/// indices can never disagree. The name index is the ghost map `index`,
/// with lookups done by a scan: vstd specifies `HashMap` lookups only for
/// keys whose hashing it models, which excludes `String`, so a `HashMap`
/// keyed by name would give the contracts nothing to build on.
pub struct BlogStorage {
    base_path: String,
    entries: Vec<BlogEntry>,
    index: Ghost<Map<Seq<char>, BlogEntry>>,
    max_most_recent_entries: usize,
}

/// `new` is `old` after an upsert of `e`.
pub open spec fn upserted(old: BlogStorage, new: BlogStorage, e: BlogEntry) -> bool {
    &&& new.well_formed()
    &&& new.by_name() == old.by_name().insert(e.filename@, e)
    &&& new.max_recent() == old.max_recent()
    &&& new.base() == old.base()
}

/// `new` is `old` after the removal of the entry named `name`.
pub open spec fn removed(old: BlogStorage, new: BlogStorage, name: Seq<char>) -> bool {
    &&& new.well_formed()
    &&& new.by_name() == old.by_name().remove(name)
    &&& new.max_recent() == old.max_recent()
    &&& new.base() == old.base()
}

/// The recent view is no longer than its bound.
pub open spec fn recent_bounded(s: BlogStorage) -> bool {
    s.recent().len() <= s.max_recent()
}

/// Every entry of the recent view is the cached entry of its name.
pub open spec fn recent_in_index(s: BlogStorage) -> bool {
    forall|i: int|
        0 <= i < s.recent().len() ==> s.by_name().contains_key(#[trigger] s.recent()[i].filename@)
            && s.by_name()[s.recent()[i].filename@] == s.recent()[i]
}

/// Every cached entry left out of the recent view comes after all of it, and
/// is left out only because the view is full.
pub open spec fn recent_is_top(s: BlogStorage) -> bool {
    forall|k: Seq<char>|
        #[trigger] s.by_name().contains_key(k) && !s.recent().contains(s.by_name()[k]) ==> {
            &&& s.recent().len() == s.max_recent()
            &&& forall|i: int| 0 <= i < s.recent().len() ==> before(#[trigger] s.recent()[i], s.by_name()[k])
        }
}

impl BlogStorage {
    /// What is cached, by file name.
    pub closed spec fn by_name(&self) -> Map<Seq<char>, BlogEntry> {
        self.index@
    }

    /// The most recent entries, newest first.
    pub closed spec fn recent(&self) -> Seq<BlogEntry> {
        self.entries@.take(min_nat(self.max_most_recent_entries as nat, self.entries@.len()) as int)
    }

    pub closed spec fn max_recent(&self) -> nat {
        self.max_most_recent_entries as nat
    }

    pub closed spec fn base(&self) -> Seq<char> {
        self.base_path@
    }

    pub closed spec fn well_formed(&self) -> bool {
        &&& sorted_strictly(self.entries@)
        &&& forall|i: int|
            0 <= i < self.entries@.len() ==> self.index@.contains_key(
                (#[trigger] self.entries@[i]).filename@,
            ) && self.index@[self.entries@[i].filename@] == self.entries@[i]
        &&& forall|k: Seq<char>| #[trigger]
            self.index@.contains_key(k) ==> exists|i: int|
                0 <= i < self.entries@.len() && self.entries@[i].filename@ == k
    }

    proof fn lemma_names_distinct(&self, i: int, j: int)
        requires
            self.well_formed(),
            0 <= i < self.entries@.len(),
            0 <= j < self.entries@.len(),
            i != j,
        ensures
            self.entries@[i].filename@ != self.entries@[j].filename@,
    {
        if self.entries@[i].filename@ == self.entries@[j].filename@ {
            let e = self.entries@[i];
            assert(self.entries@[j] == e);
            lemma_before_irreflexive(e);
            if i < j {
                assert(before(self.entries@[i], self.entries@[j]));
            } else {
                assert(before(self.entries@[j], self.entries@[i]));
            }
        }
    }

    proof fn lemma_contains_iff_indexed(&self, x: BlogEntry)
        requires
            self.well_formed(),
        ensures
            self.entries@.contains(x) <==> (self.index@.contains_key(x.filename@)
                && self.index@[x.filename@] == x),
    {
        if self.index@.contains_key(x.filename@) && self.index@[x.filename@] == x {
            let i = choose|i: int|
                0 <= i < self.entries@.len() && self.entries@[i].filename@ == x.filename@;
            assert(self.entries@[i] == x);
        }
    }

    proof fn lemma_index_determines_entries(a: BlogStorage, b: BlogStorage)
        requires
            a.well_formed(),
            b.well_formed(),
            a.index@ == b.index@,
        ensures
            a.entries@ == b.entries@,
    {
        assert forall|x: BlogEntry| a.entries@.contains(x) <==> b.entries@.contains(x) by {
            a.lemma_contains_iff_indexed(x);
            b.lemma_contains_iff_indexed(x);
        }
        lemma_sorted_unique(a.entries@, b.entries@);
    }

    /// An empty cache for the posts under `base`, keeping the ten most recent.
    pub fn new(base: &str) -> (r: BlogStorage)
        ensures
            r.well_formed(),
            r.by_name() == Map::<Seq<char>, BlogEntry>::empty(),
            r.max_recent() == 10,
            r.base() == base@,
    {
        BlogStorage::with_max_recent(base, 10)
    }

    /// An empty cache for the posts under `base`, keeping `max_recent` most
    /// recent entries.
    pub fn with_max_recent(base: &str, max_recent: usize) -> (r: BlogStorage)
        ensures
            r.well_formed(),
            r.by_name() == Map::<Seq<char>, BlogEntry>::empty(),
            r.max_recent() == max_recent,
            r.base() == base@,
    {
        BlogStorage {
            base_path: base.to_owned(),
            entries: Vec::new(),
            index: Ghost(Map::empty()),
            max_most_recent_entries: max_recent,
        }
    }

    pub fn base_path(&self) -> (r: &str)
        ensures
            r@ == self.base(),
    {
        self.base_path.as_str()
    }

    pub fn max_most_recent_entries(&self) -> (r: usize)
        ensures
            r == self.max_recent(),
    {
        self.max_most_recent_entries
    }

    fn find_index(&self, name: &str) -> (r: Option<usize>)
        requires
            self.well_formed(),
        ensures
            match r {
                Some(i) => i < self.entries@.len() && self.entries@[i as int].filename@ == name@,
                None => !self.index@.contains_key(name@),
            },
    {
        let key = name.to_owned();
        let mut i: usize = 0;
        while i < self.entries.len()
            invariant
                self.well_formed(),
                key@ == name@,
                i <= self.entries@.len(),
                forall|j: int| 0 <= j < i ==> self.entries@[j].filename@ != name@,
            decreases self.entries@.len() - i,
        {
            if self.entries[i].filename == key {
                return Some(i);
            }
            i = i + 1;
        }
        None
    }

    fn remove_at(&mut self, i: usize)
        requires
            old(self).well_formed(),
            i < old(self).entries@.len(),
        ensures
            final(self).well_formed(),
            final(self).index@ == old(self).index@.remove(old(self).entries@[i as int].filename@),
            final(self).max_most_recent_entries == old(self).max_most_recent_entries,
            final(self).base_path == old(self).base_path,
    {
        let ghost pre = *self;
        let ghost key = pre.entries@[i as int].filename@;
        self.entries.remove(i);
        self.index = Ghost(pre.index@.remove(key));
        proof {
            let s = self.entries@;
            assert(s =~= pre.entries@.remove(i as int));
            assert forall|a: int, b: int| 0 <= a < b < s.len() implies before(
                #[trigger] s[a],
                #[trigger] s[b],
            ) by {
                let oa = if a < i { a } else { a + 1 };
                let ob = if b < i { b } else { b + 1 };
                assert(s[a] == pre.entries@[oa]);
                assert(s[b] == pre.entries@[ob]);
                assert(before(pre.entries@[oa], pre.entries@[ob]));
            }
            assert forall|j: int| 0 <= j < s.len() implies self.index@.contains_key(
                (#[trigger] s[j]).filename@,
            ) && self.index@[s[j].filename@] == s[j] by {
                let oj = if j < i { j } else { j + 1 };
                assert(s[j] == pre.entries@[oj]);
                pre.lemma_names_distinct(oj, i as int);
            }
            assert forall|k: Seq<char>| #[trigger] self.index@.contains_key(k) implies exists|j: int|
                0 <= j < s.len() && s[j].filename@ == k by {
                let oj = choose|oj: int| 0 <= oj < pre.entries@.len() && pre.entries@[oj].filename@ == k;
                assert(oj != i);
                let j = if oj < i { oj } else { oj - 1 };
                assert(s[j] == pre.entries@[oj]);
            }
        }
    }

    /// Stores `entry` under its file name, replacing an entry of that name.
    /// Returns whether one was replaced.
    pub fn try_store_entry(&mut self, entry: BlogEntry) -> (replaced: bool)
        requires
            old(self).well_formed(),
        ensures
            upserted(*old(self), *final(self), entry),
            replaced == old(self).by_name().contains_key(entry.filename@),
    {
        let ghost pre = *self;
        let found = self.find_index(entry.filename.as_str());
        let replaced = match found {
            Some(i) => {
                proof {
                    pre.lemma_contains_iff_indexed(pre.entries@[i as int]);
                }
                self.remove_at(i);
                true
            },
            None => false,
        };
        let ghost mid = *self;
        assert(mid.index@ =~= pre.index@.remove(entry.filename@));
        let mut p: usize = 0;
        while p < self.entries.len() && !entry_before(&entry, &self.entries[p])
            invariant
                *self == mid,
                mid.well_formed(),
                !mid.index@.contains_key(entry.filename@),
                p <= mid.entries@.len(),
                forall|j: int| 0 <= j < p ==> before(#[trigger] mid.entries@[j], entry),
            decreases mid.entries@.len() - p,
        {
            proof {
                let e = mid.entries@[p as int];
                assert(mid.index@.contains_key(e.filename@));
                lemma_before_total(entry, e);
            }
            p = p + 1;
        }
        let ghost key = entry.filename@;
        let ghost e = entry;
        self.entries.insert(p, entry);
        self.index = Ghost(mid.index@.insert(key, e));
        proof {
            let s = self.entries@;
            let m = mid.entries@;
            assert(s =~= m.insert(p as int, e));
            assert forall|a: int, b: int| 0 <= a < b < s.len() implies before(
                #[trigger] s[a],
                #[trigger] s[b],
            ) by {
                if b < p {
                    assert(before(m[a], m[b]));
                } else if b == p {
                    assert(before(m[a], e));
                } else if a < p {
                    assert(before(m[a], e));
                    assert(before(e, m[p as int]));
                    if b - 1 > p {
                        assert(before(m[p as int], m[b - 1]));
                        lemma_before_transitive(e, m[p as int], m[b - 1]);
                    }
                    lemma_before_transitive(m[a], e, m[b - 1]);
                } else if a == p {
                    assert(before(e, m[p as int]));
                    if b - 1 > p {
                        assert(before(m[p as int], m[b - 1]));
                        lemma_before_transitive(e, m[p as int], m[b - 1]);
                    }
                } else {
                    assert(before(m[a - 1], m[b - 1]));
                }
            }
            assert forall|j: int| 0 <= j < s.len() implies self.index@.contains_key(
                (#[trigger] s[j]).filename@,
            ) && self.index@[s[j].filename@] == s[j] by {
                if j < p {
                    assert(s[j] == m[j]);
                    assert(mid.index@.contains_key(m[j].filename@));
                } else if j > p {
                    assert(s[j] == m[j - 1]);
                    assert(mid.index@.contains_key(m[j - 1].filename@));
                }
            }
            assert forall|k: Seq<char>| #[trigger] self.index@.contains_key(k) implies exists|j: int|
                0 <= j < s.len() && s[j].filename@ == k by {
                if k == key {
                    assert(s[p as int] == e);
                } else {
                    let oj = choose|oj: int| 0 <= oj < m.len() && m[oj].filename@ == k;
                    let j = if oj < p { oj } else { oj + 1 };
                    assert(s[j] == m[oj]);
                }
            }
            assert(self.index@ =~= pre.index@.insert(key, e));
        }
        replaced
    }

    /// Removes the entry named `name`. Returns whether there was one.
    pub fn remove_entry(&mut self, name: &str) -> (was_present: bool)
        requires
            old(self).well_formed(),
        ensures
            removed(*old(self), *final(self), name@),
            was_present == old(self).by_name().contains_key(name@),
    {
        let ghost pre = *self;
        match self.find_index(name) {
            Some(i) => {
                proof {
                    pre.lemma_contains_iff_indexed(pre.entries@[i as int]);
                }
                self.remove_at(i);
                true
            },
            None => {
                assert(self.index@ =~= pre.index@.remove(name@));
                false
            },
        }
    }

    /// The cached entry named `name`, if any.
    pub fn get_entry(&self, name: &str) -> (r: Option<BlogEntry>)
        requires
            self.well_formed(),
        ensures
            r == (if self.by_name().contains_key(name@) {
                Some(self.by_name()[name@])
            } else {
                None
            }),
    {
        match self.find_index(name) {
            Some(i) => {
                proof {
                    self.lemma_contains_iff_indexed(self.entries@[i as int]);
                }
                Some(self.entries[i].duplicate())
            },
            None => None,
        }
    }

    /// Whether an entry named `name` is cached.
    pub fn contains_entry(&self, name: &str) -> (r: bool)
        requires
            self.well_formed(),
        ensures
            r == self.by_name().contains_key(name@),
    {
        self.find_index(name).is_some()
    }

    /// The recent view, newest first.
    pub fn iterate_most_recent_entries(&self) -> (r: Vec<BlogEntry>)
        requires
            self.well_formed(),
        ensures
            r@ == self.recent(),
    {
        let n: usize = if self.max_most_recent_entries < self.entries.len() {
            self.max_most_recent_entries
        } else {
            self.entries.len()
        };
        let mut out: Vec<BlogEntry> = Vec::new();
        let mut i: usize = 0;
        while i < n
            invariant
                n == min_nat(self.max_most_recent_entries as nat, self.entries@.len()),
                i <= n,
                out@ =~= self.entries@.take(i as int),
            decreases n - i,
        {
            out.push(self.entries[i].duplicate());
            i = i + 1;
        }
        out
    }
}

/// Invariants of every well-formed cache: the recent view is bounded, holds
/// only cached entries under their own names, is strictly ordered newest
/// first (names ascending on equal dates), and is the top of all cached
/// entries in that order.
pub proof fn lemma_store_invariants(s: BlogStorage)
    requires
        s.well_formed(),
    ensures
        recent_bounded(s),
        recent_in_index(s),
        sorted_strictly(s.recent()),
        recent_is_top(s),
{
    let n = min_nat(s.max_most_recent_entries as nat, s.entries@.len()) as int;
    let r = s.recent();
    assert forall|i: int| 0 <= i < r.len() implies s.by_name().contains_key(
        #[trigger] r[i].filename@,
    ) && s.by_name()[r[i].filename@] == r[i] by {
        assert(r[i] == s.entries@[i]);
    }
    assert forall|a: int, b: int| 0 <= a < b < r.len() implies before(
        #[trigger] r[a],
        #[trigger] r[b],
    ) by {
        assert(r[a] == s.entries@[a]);
        assert(r[b] == s.entries@[b]);
    }
    assert forall|k: Seq<char>| #[trigger]
        s.by_name().contains_key(k) && !r.contains(s.by_name()[k]) implies {
        &&& r.len() == s.max_recent()
        &&& forall|i: int| 0 <= i < r.len() ==> before(#[trigger] r[i], s.by_name()[k])
    } by {
        let j = choose|j: int| 0 <= j < s.entries@.len() && s.entries@[j].filename@ == k;
        assert(s.by_name()[k] == s.entries@[j]);
        if j < n {
            assert(r[j] == s.entries@[j]);
        }
        assert forall|i: int| 0 <= i < r.len() implies before(#[trigger] r[i], s.by_name()[k]) by {
            assert(r[i] == s.entries@[i]);
        }
    }
}

/// The information about this blog.
pub fn blog_info() -> (r: BlogInfo)
    ensures
        r.name@ == "Crax's blog"@,
{
    BlogInfo { name: "Crax's blog".to_owned() }
}

/// Storing the same entry twice leaves the cache as storing it once.
pub proof fn lemma_upsert_idempotent(s0: BlogStorage, s1: BlogStorage, s2: BlogStorage, e: BlogEntry)
    requires
        s0.well_formed(),
        upserted(s0, s1, e),
        upserted(s1, s2, e),
    ensures
        s2.by_name() == s1.by_name(),
        s2.recent() == s1.recent(),
        s2.max_recent() == s1.max_recent(),
{
    assert(s2.index@ =~= s1.index@);
    BlogStorage::lemma_index_determines_entries(s1, s2);
}

/// Removing a name right after storing a new entry under it leaves the cache
/// as it was before both.
pub proof fn lemma_remove_undoes_upsert(s0: BlogStorage, s1: BlogStorage, s2: BlogStorage, e: BlogEntry)
    requires
        s0.well_formed(),
        !s0.by_name().contains_key(e.filename@),
        upserted(s0, s1, e),
        removed(s1, s2, e.filename@),
    ensures
        s2.by_name() == s0.by_name(),
        s2.recent() == s0.recent(),
        s2.max_recent() == s0.max_recent(),
{
    assert(s2.index@ =~= s0.index@);
    BlogStorage::lemma_index_determines_entries(s0, s2);
}

/// With room for two, three entries of distinct names and increasing dates
/// leave the two newest in the recent view, newest first.
pub proof fn lemma_recent_two_of_three(s: BlogStorage, a: BlogEntry, b: BlogEntry, c: BlogEntry)
    requires
        s.well_formed(),
        s.max_recent() == 2,
        a.description.publish_date < b.description.publish_date,
        b.description.publish_date < c.description.publish_date,
        s.by_name().dom() == set![a.filename@, b.filename@, c.filename@],
        s.by_name()[a.filename@] == a,
        s.by_name()[b.filename@] == b,
        s.by_name()[c.filename@] == c,
    ensures
        s.recent() == seq![c, b],
{
    let t = seq![c, b, a];
    assert(t[0] == c && t[1] == b && t[2] == a);
    assert forall|i: int, j: int| 0 <= i < j < t.len() implies before(#[trigger] t[i], #[trigger] t[j]) by {}
    assert forall|x: BlogEntry| s.entries@.contains(x) <==> t.contains(x) by {
        s.lemma_contains_iff_indexed(x);
        if x == a {
            assert(t[2] == x);
        } else if x == b {
            assert(t[1] == x);
        } else if x == c {
            assert(t[0] == x);
        }
    }
    lemma_sorted_unique(s.entries@, t);
    assert(s.recent() =~= seq![c, b]);
}

/// After an upsert, the entry of that name is the stored one.
pub proof fn lemma_get_after_upsert(s0: BlogStorage, s1: BlogStorage, e: BlogEntry)
    requires
        upserted(s0, s1, e),
    ensures
        s1.by_name().contains_key(e.filename@),
        s1.by_name()[e.filename@] == e,
{
}

} // verus!
