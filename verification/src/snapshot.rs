//! Keyed counter snapshots and the per-interval delta between two of them.
//! Only keys present in both snapshots survive the diff, and a counter that
//! moved backwards yields a zero delta instead of a garbage rate.

use vstd::prelude::*;
use crate::reconcile::contains_view;
use crate::reconcile::distinct_views;
use crate::reconcile::views_of;

verus! {

/// One key's counter pair within a family: bytes received or read (`rx`) and
/// bytes transmitted or written (`tx`).
#[derive(Clone, Copy, PartialEq, Eq, Structural, Debug)]
pub struct Stat {
    pub rx: u64,
    pub tx: u64,
}

/// Per-field delta of two counter readings, clamped at zero: a counter that
/// moved backwards (a reset, or an identifier reused by a new device) counts
/// as no activity for the interval.
pub open spec fn spec_delta(previous: Stat, current: Stat) -> Stat {
    Stat {
        rx: if current.rx >= previous.rx {
            (current.rx - previous.rx) as u64
        } else {
            0
        },
        tx: if current.tx >= previous.tx {
            (current.tx - previous.tx) as u64
        } else {
            0
        },
    }
}

/// A keyed counter snapshot: one `Stat` per device or interface identifier,
/// identifiers unique within the snapshot.
pub struct Snapshot {
    pub entries: Vec<(String, Stat)>,
}

/// The key views of an entry sequence, in entry order.
pub open spec fn keys_of(s: Seq<(String, Stat)>) -> Seq<Seq<char>> {
    s.map_values(|e: (String, Stat)| e.0@)
}

/// The mapping an entry sequence denotes; later entries win on a repeated
/// key, though well-formed snapshots never repeat one.
pub open spec fn map_of(s: Seq<(String, Stat)>) -> Map<Seq<char>, Stat>
    decreases s.len(),
{
    if s.len() == 0 {
        Map::empty()
    } else {
        map_of(s.drop_last()).insert(s.last().0@, s.last().1)
    }
}

pub proof fn lemma_map_of_dom(s: Seq<(String, Stat)>)
    ensures
        forall|k: Seq<char>|
            map_of(s).contains_key(k) <==> (exists|i: int|
                0 <= i < s.len() && #[trigger] keys_of(s)[i] == k),
    decreases s.len(),
{
    if s.len() > 0 {
        lemma_map_of_dom(s.drop_last());
        assert(keys_of(s.drop_last()) =~= keys_of(s).drop_last());
        assert forall|k: Seq<char>| #![auto]
            map_of(s).contains_key(k) implies (exists|i: int|
            0 <= i < s.len() && keys_of(s)[i] == k) by {
            if k == s.last().0@ {
                assert(keys_of(s)[s.len() - 1] == k);
            } else {
                assert(map_of(s.drop_last()).contains_key(k));
                let i = choose|i: int|
                    0 <= i < s.drop_last().len() && #[trigger] keys_of(s.drop_last())[i] == k;
                assert(keys_of(s)[i] == keys_of(s).drop_last()[i]);
                assert(keys_of(s)[i] == k);
            }
        }
        assert forall|k: Seq<char>|
            (exists|i: int| 0 <= i < s.len() && #[trigger] keys_of(s)[i] == k) implies map_of(
            s,
        ).contains_key(k) by {
            let i = choose|i: int| 0 <= i < s.len() && #[trigger] keys_of(s)[i] == k;
            if i == s.len() - 1 {
                assert(k == s.last().0@);
            } else {
                assert(keys_of(s.drop_last())[i] == keys_of(s).drop_last()[i]);
                assert(keys_of(s.drop_last())[i] == k);
                assert(map_of(s.drop_last()).contains_key(k));
            }
        }
    }
}

pub proof fn lemma_map_of_index(s: Seq<(String, Stat)>, i: int)
    requires
        0 <= i < s.len(),
        forall|p: int, q: int| 0 <= p < q < s.len() ==> keys_of(s)[p] != keys_of(s)[q],
    ensures
        map_of(s).contains_key(keys_of(s)[i]),
        map_of(s)[keys_of(s)[i]] == s[i].1,
    decreases s.len(),
{
    if i == s.len() - 1 {
    } else {
        assert(keys_of(s.drop_last()) =~= keys_of(s).drop_last());
        lemma_map_of_index(s.drop_last(), i);
        assert(keys_of(s)[i] != keys_of(s)[s.len() - 1]);
    }
}

impl View for Snapshot {
    type V = Map<Seq<char>, Stat>;

    open spec fn view(&self) -> Map<Seq<char>, Stat> {
        map_of(self.entries@)
    }
}

impl Snapshot {
    /// Identifiers are unique within the snapshot.
    pub open spec fn wf(self) -> bool {
        forall|p: int, q: int|
            0 <= p < q < self.entries@.len() ==> keys_of(self.entries@)[p] != keys_of(
                self.entries@,
            )[q]
    }

    /// The empty snapshot: the state of every family at process start.
    pub fn new() -> (r: Snapshot)
        ensures
            r.wf(),
            r@ =~= Map::<Seq<char>, Stat>::empty(),
    {
        Snapshot { entries: Vec::new() }
    }

    /// Record a counter pair under an identifier not yet present.
    pub fn insert(&mut self, key: String, value: Stat)
        requires
            old(self).wf(),
            !old(self)@.contains_key(key@),
        ensures
            final(self).wf(),
            final(self)@ =~= old(self)@.insert(key@, value),
    {
        proof {
            lemma_map_of_dom(self.entries@);
        }
        self.entries.push((key, value));
        proof {
            assert(self.entries@.drop_last() =~= old(self).entries@);
            assert(keys_of(self.entries@).drop_last() =~= keys_of(old(self).entries@));
            let m = self.entries@.len();
            assert forall|p: int, q: int| 0 <= p < q < m implies keys_of(self.entries@)[p]
                != keys_of(self.entries@)[q] by {
                assert(keys_of(self.entries@)[p] == keys_of(self.entries@).drop_last()[p]);
                assert(keys_of(self.entries@)[p] == keys_of(old(self).entries@)[p]);
                if q == m - 1 {
                    assert(keys_of(self.entries@)[q] == key@);
                    assert(!(exists|i: int|
                        0 <= i < old(self).entries@.len() && #[trigger] keys_of(
                            old(self).entries@,
                        )[i] == key@));
                } else {
                    assert(keys_of(self.entries@)[q] == keys_of(old(self).entries@)[q]);
                }
            }
        }
    }

    /// Look an identifier up; `None` exactly when it is absent.
    pub fn get(&self, key: &String) -> (r: Option<Stat>)
        requires
            self.wf(),
        ensures
            match r {
                Some(v) => self@.contains_key(key@) && self@[key@] == v,
                None => !self@.contains_key(key@),
            },
    {
        let n = self.entries.len();
        let mut i: usize = 0;
        while i < n
            invariant
                self.wf(),
                i <= n,
                n == self.entries@.len(),
                forall|j: int| 0 <= j < i ==> keys_of(self.entries@)[j] != key@,
            decreases n - i,
        {
            if self.entries[i].0 == *key {
                proof {
                    lemma_map_of_index(self.entries@, i as int);
                }
                return Some(self.entries[i].1);
            }
            assert(keys_of(self.entries@)[i as int] != key@);
            i = i + 1;
        }
        proof {
            lemma_map_of_dom(self.entries@);
        }
        None
    }

    /// The identifiers of the snapshot, in entry order.
    pub fn keys(&self) -> (r: Vec<String>)
        ensures
            r@.len() == self.entries@.len(),
            forall|i: int|
                0 <= i < r@.len() ==> #[trigger] r@[i]@ == keys_of(self.entries@)[i],
    {
        let n = self.entries.len();
        let mut r: Vec<String> = Vec::new();
        let mut i: usize = 0;
        while i < n
            invariant
                i <= n,
                n == self.entries@.len(),
                r@.len() == i,
                forall|j: int| 0 <= j < i ==> #[trigger] r@[j]@ == keys_of(self.entries@)[j],
            decreases n - i,
        {
            r.push(self.entries[i].0.clone());
            i = i + 1;
        }
        r
    }
}

/// A key vector that reads exactly like a snapshot's entries (as
/// [`Snapshot::keys`] returns) covers exactly the snapshot's domain, with no
/// repeats.
pub proof fn lemma_keys_match_dom(s: &Snapshot, ks: Seq<String>)
    requires
        s.wf(),
        ks.len() == s.entries@.len(),
        forall|i: int| 0 <= i < ks.len() ==> #[trigger] ks[i]@ == keys_of(s.entries@)[i],
    ensures
        forall|k: Seq<char>| #[trigger] contains_view(ks, k) <==> s@.contains_key(k),
        distinct_views(ks),
{
    lemma_map_of_dom(s.entries@);
    assert(views_of(ks) =~= keys_of(s.entries@));
    assert forall|k: Seq<char>| #[trigger] contains_view(ks, k) implies s@.contains_key(k) by {
        let i = choose|i: int| 0 <= i < ks.len() && #[trigger] views_of(ks)[i] == k;
        assert(keys_of(s.entries@)[i] == k);
    }
    assert forall|k: Seq<char>| s@.contains_key(k) implies contains_view(ks, k) by {
        let i = choose|i: int| 0 <= i < s.entries@.len() && #[trigger] keys_of(s.entries@)[i] == k;
        assert(views_of(ks)[i] == k);
    }
    assert forall|p: int, q: int| 0 <= p < q < ks.len() implies views_of(ks)[p] != views_of(
        ks,
    )[q] by {
        assert(views_of(ks)[p] == keys_of(s.entries@)[p]);
        assert(views_of(ks)[q] == keys_of(s.entries@)[q]);
    }
}

/// Per-interval delta snapshot: exactly the keys present in both inputs, each
/// mapped to the zero-clamped difference `current - previous`.
pub fn diff(previous: &Snapshot, current: &Snapshot) -> (d: Snapshot)
    requires
        previous.wf(),
        current.wf(),
    ensures
        d.wf(),
        d@.dom() =~= previous@.dom().intersect(current@.dom()),
        forall|k: Seq<char>| #[trigger]
            d@.contains_key(k) ==> d@[k] == spec_delta(previous@[k], current@[k]),
{
    let mut d = Snapshot::new();
    let n = previous.entries.len();
    let mut i: usize = 0;
    proof {
        lemma_map_of_dom(previous.entries@);
    }
    while i < n
        invariant
            previous.wf(),
            current.wf(),
            d.wf(),
            i <= n,
            n == previous.entries@.len(),
            forall|k: Seq<char>| #[trigger]
                d@.contains_key(k) <==> ((exists|j: int|
                    0 <= j < i && #[trigger] keys_of(previous.entries@)[j] == k)
                    && current@.contains_key(k)),
            forall|k: Seq<char>| #[trigger]
                d@.contains_key(k) ==> d@[k] == spec_delta(previous@[k], current@[k]),
        decreases n - i,
    {
        let entry_key = &previous.entries[i].0;
        let pstat = previous.entries[i].1;
        proof {
            lemma_map_of_index(previous.entries@, i as int);
        }
        match current.get(entry_key) {
            Some(cstat) => {
                let delta = Stat {
                    rx: if cstat.rx >= pstat.rx {
                        cstat.rx - pstat.rx
                    } else {
                        0
                    },
                    tx: if cstat.tx >= pstat.tx {
                        cstat.tx - pstat.tx
                    } else {
                        0
                    },
                };
                assert(!d@.contains_key(entry_key@));
                d.insert(entry_key.clone(), delta);
            },
            None => {},
        }
        i = i + 1;
    }
    proof {
        lemma_map_of_dom(previous.entries@);
        assert(d@.dom() =~= previous@.dom().intersect(current@.dom()));
    }
    d
}

} // verus!
