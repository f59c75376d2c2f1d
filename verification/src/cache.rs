//! What is remembered by path: what a file's log said as long as the file does not change,
//! and which version a program told.

use vstd::prelude::*;

use crate::counts;
use crate::usage::FileAgg;
use crate::usage_log;

verus! {

/// Values by the bytes of a path.
pub struct PathMap<V> {
    pub entries: Vec<(Vec<u8>, V)>,
}

/// The position of the first entry under `key`; the number of entries where there is none.
pub open spec fn at<V>(entries: Seq<(Vec<u8>, V)>, key: Seq<u8>) -> int
    decreases entries.len(),
{
    if entries.len() == 0 || entries[0].0@ == key {
        0
    } else {
        1 + at(entries.skip(1), key)
    }
}

pub proof fn lemma_at<V>(entries: Seq<(Vec<u8>, V)>, key: Seq<u8>)
    ensures
        0 <= at(entries, key) <= entries.len(),
        at(entries, key) < entries.len() ==> entries[at(entries, key)].0@ == key,
        forall|i: int| 0 <= i < at(entries, key) ==> (#[trigger] entries[i]).0@ != key,
    decreases entries.len(),
{
    if entries.len() > 0 && entries[0].0@ != key {
        let rest = entries.skip(1);
        lemma_at(rest, key);
        assert forall|i: int| 0 <= i < at(entries, key) implies (#[trigger] entries[i]).0@
            != key by {
            if i > 0 {
                assert(entries[i] == rest[i - 1]);
            }
        }
    }
}

proof fn lemma_at_unique<V>(entries: Seq<(Vec<u8>, V)>, key: Seq<u8>, n: int)
    requires
        0 <= n <= entries.len(),
        n < entries.len() ==> entries[n].0@ == key,
        forall|i: int| 0 <= i < n ==> (#[trigger] entries[i]).0@ != key,
    ensures
        at(entries, key) == n,
{
    lemma_at(entries, key);
    let m = at(entries, key);
    if m < n {
        assert(entries[m].0@ != key);
    } else if n < m {
        assert(entries[n].0@ != key);
    }
}

impl<V> View for PathMap<V> {
    type V = Map<Seq<u8>, V>;

    open spec fn view(&self) -> Map<Seq<u8>, V> {
        Map::new(
            |k: Seq<u8>| at(self.entries@, k) < self.entries@.len(),
            |k: Seq<u8>| self.entries@[at(self.entries@, k)].1,
        )
    }
}

fn same_bytes(a: &Vec<u8>, b: &Vec<u8>) -> (r: bool)
    ensures
        r == (a@ == b@),
{
    if a.len() != b.len() {
        return false;
    }
    let mut i: usize = 0;
    while i < a.len()
        invariant
            i <= a.len(),
            a.len() == b.len(),
            forall|j: int| 0 <= j < i ==> a@[j] == b@[j],
        decreases a.len() - i,
    {
        if a[i] != b[i] {
            return false;
        }
        i += 1;
    }
    assert(a@ == b@);
    true
}

impl<V> PathMap<V> {
    /// Without entries.
    pub fn new() -> (r: PathMap<V>)
        ensures
            r@ == Map::<Seq<u8>, V>::empty(),
    {
        let r = PathMap { entries: Vec::new() };
        assert(r@ == Map::<Seq<u8>, V>::empty());
        r
    }

    fn find(&self, key: &Vec<u8>) -> (r: usize)
        ensures
            r == at(self.entries@, key@),
            r <= self.entries.len(),
    {
        let mut i: usize = 0;
        while i < self.entries.len()
            invariant
                i <= self.entries.len(),
                forall|j: int| 0 <= j < i ==> (#[trigger] self.entries@[j]).0@ != key@,
            decreases self.entries.len() - i,
        {
            if same_bytes(&self.entries[i].0, key) {
                proof {
                    lemma_at_unique(self.entries@, key@, i as int);
                }
                return i;
            }
            i += 1;
        }
        proof {
            lemma_at_unique(self.entries@, key@, i as int);
        }
        i
    }

    /// The value under `key`.
    pub fn get(&self, key: &Vec<u8>) -> (r: Option<&V>)
        ensures
            match r {
                Some(v) => self@.contains_key(key@) && self@[key@] == *v,
                None => !self@.contains_key(key@),
            },
    {
        let i = self.find(key);
        if i < self.entries.len() {
            Some(&self.entries[i].1)
        } else {
            None
        }
    }

    /// Puts a value under `key`, in place of the one that is there.
    pub fn insert(&mut self, key: Vec<u8>, value: V)
        ensures
            final(self)@ == old(self)@.insert(key@, value),
    {
        let ghost e = self.entries@;
        let i = self.find(&key);
        proof {
            lemma_at(e, key@);
        }
        if i < self.entries.len() {
            self.entries.set(i, (key, value));
        } else {
            self.entries.push((key, value));
        }
        proof {
            let f = self.entries@;
            let k0 = key@;
            assert forall|k: Seq<u8>|
                #![trigger at(f, k)]
                k != k0 implies (at(f, k) < f.len() <==> at(e, k) < e.len()) && (at(e, k) < e.len()
                ==> f[at(f, k)].1 == e[at(e, k)].1) by {
                lemma_at(e, k);
                let n = at(e, k);
                assert forall|j: int| 0 <= j < n implies (#[trigger] f[j]).0@ != k by {
                    assert(e[j].0@ != k);
                }
                if n < e.len() {
                    lemma_at_unique(f, k, n);
                } else {
                    assert forall|j: int| 0 <= j < f.len() implies (#[trigger] f[j]).0@ != k by {
                        if j < e.len() {
                            assert(e[j].0@ != k);
                        }
                    }
                    lemma_at_unique(f, k, f.len() as int);
                }
            }
            assert forall|j: int| 0 <= j < i implies (#[trigger] f[j]).0@ != k0 by {
                assert(e[j].0@ != k0);
            }
            lemma_at_unique(f, k0, i as int);
            assert(f[i as int].1 == value);
            let want = old(self)@.insert(k0, value);
            assert forall|k: Seq<u8>|
                self@.contains_key(k) == want.contains_key(k) && (self@.contains_key(k)
                    ==> self@[k] == want[k]) by {
                lemma_at(e, k);
                lemma_at(f, k);
                if k != k0 {
                    assert(at(f, k) < f.len() <==> at(e, k) < e.len());
                }
            }
            assert(self@ =~= old(self)@.insert(k0, value));
        }
    }
}

/// When a file was last changed: whether that is before the epoch, and by how much it is
/// away from it.
#[derive(Clone, Copy, PartialEq, Eq, Structural)]
pub struct Moment {
    pub before_epoch: bool,
    pub secs: u64,
    pub nanos: u32,
}

/// By what a file is known not to have changed.
#[derive(Clone, Copy)]
pub struct FileStamp {
    pub len: u64,
    pub modified: Option<Moment>,
}

/// What the log in a file said when the file had this stamp.
pub struct CachedScan {
    pub stamp: FileStamp,
    pub agg: FileAgg,
    pub cwd: Option<String>,
}

/// What is remembered may be used in a report.
pub open spec fn cache_wf(m: Map<Seq<u8>, CachedScan>) -> bool {
    forall|k: Seq<u8>| m.contains_key(k) ==> (#[trigger] m[k]).agg.wf()
}

/// What is remembered of the file holds: it has the same stamp.
pub open spec fn hit(
    m: Map<Seq<u8>, CachedScan>,
    path: Seq<u8>,
    stamp: Option<FileStamp>,
) -> bool {
    &&& stamp matches Some(s)
    &&& m.contains_key(path)
    &&& m[path].stamp == s
}

fn same_moment(a: &Option<Moment>, b: &Option<Moment>) -> (r: bool)
    ensures
        r == (*a == *b),
{
    match (a, b) {
        (Some(x), Some(y)) => *x == *y,
        (None, None) => true,
        _ => false,
    }
}

fn copied_text(s: &Option<String>) -> (r: Option<String>)
    ensures
        usage_log::text_view(r) == usage_log::text_view(*s),
{
    match s {
        Some(t) => Some(t.clone()),
        None => None,
    }
}

/// What is remembered of the file, where it has not changed since.
pub fn cached_scan(
    cache: &PathMap<CachedScan>,
    path: &Vec<u8>,
    stamp: &Option<FileStamp>,
) -> (r: Option<(FileAgg, Option<String>)>)
    requires
        cache_wf(cache@),
    ensures
        r is Some <==> hit(cache@, path@, *stamp),
        r matches Some(x) ==> {
            &&& x.0.wf()
            &&& x.0.counts == cache@[path@].agg.counts
            &&& counts::rows(x.0.by_model@) == counts::rows(cache@[path@].agg.by_model@)
            &&& usage_log::text_view(x.1) == usage_log::text_view(cache@[path@].cwd)
        },
{
    let s = match stamp {
        Some(s) => s,
        None => {
            return None;
        },
    };
    match cache.get(path) {
        Some(c) => {
            if c.stamp.len == s.len && same_moment(&c.stamp.modified, &s.modified) {
                Some((c.agg.copied(), copied_text(&c.cwd)))
            } else {
                None
            }
        },
        None => None,
    }
}

/// Remembers what the log in a file said, where the file's stamp is known.
pub fn remember(
    cache: &mut PathMap<CachedScan>,
    path: Vec<u8>,
    stamp: Option<FileStamp>,
    agg: &FileAgg,
    cwd: &Option<String>,
)
    requires
        cache_wf(old(cache)@),
        agg.wf(),
    ensures
        cache_wf(final(cache)@),
        stamp is None ==> final(cache)@ == old(cache)@,
        stamp matches Some(s) ==> {
            &&& hit(final(cache)@, path@, stamp)
            &&& final(cache)@[path@].agg.counts == agg.counts
            &&& counts::rows(final(cache)@[path@].agg.by_model@) == counts::rows(agg.by_model@)
            &&& usage_log::text_view(final(cache)@[path@].cwd) == usage_log::text_view(*cwd)
            &&& forall|k: Seq<u8>|
                k != path@ ==> (#[trigger] final(cache)@.contains_key(k)
                    <==> old(cache)@.contains_key(k)) && final(cache)@[k] == old(cache)@[k]
        },
{
    match stamp {
        Some(s) => {
            let c = CachedScan { stamp: s, agg: agg.copied(), cwd: copied_text(cwd) };
            let ghost before = cache@;
            cache.insert(path, c);
            proof {
                assert(cache@ == before.insert(path@, c));
                assert forall|k: Seq<u8>| cache@.contains_key(k) implies (
                #[trigger] cache@[k]).agg.wf() by {
                    if k != path@ {
                        assert(before[k].agg.wf());
                    }
                }
            }
        },
        None => {},
    }
}

} // verus!
