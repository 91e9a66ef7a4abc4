//! Peer registry: the in-memory table of known peers.
//!
//! A registry maps peer identifiers to what is known about them — their
//! addresses and when they were last seen — and keeps entries in insertion
//! order, so a snapshot is deterministic. The event loop is its only writer.
//! An identifier occurs at most once; `upsert` merges addresses without
//! duplicates and never lowers `last_seen`.

use vstd::prelude::*;

use crate::types::{strings_view, PeerInfo, PeerInfoView};

verus! {

/// The index of the entry with the given peer identifier, or -1 when absent.
pub open spec fn spec_find(s: Seq<PeerInfoView>, pid: Seq<char>) -> int
    decreases s.len(),
{
    if s.len() == 0 {
        -1
    } else if s[0].peer_id == pid {
        0
    } else {
        let r = spec_find(s.drop_first(), pid);
        if r == -1 {
            -1
        } else {
            1 + r
        }
    }
}

/// Merging a list of addresses into a current list: each new address is
/// appended once, in order, unless already present.
pub open spec fn spec_merge_addrs(cur: Seq<Seq<char>>, new: Seq<Seq<char>>) -> Seq<Seq<char>>
    decreases new.len(),
{
    if new.len() == 0 {
        cur
    } else {
        spec_merge_addrs(
            if cur.contains(new[0]) {
                cur
            } else {
                cur.push(new[0])
            },
            new.drop_first(),
        )
    }
}

/// The larger of two values.
pub open spec fn spec_max_u64(a: u64, b: u64) -> u64 {
    if a >= b {
        a
    } else {
        b
    }
}

/// The result of `spec_find` is -1 or an index into the sequence.
pub proof fn lemma_find_range(s: Seq<PeerInfoView>, pid: Seq<char>)
    ensures
        -1 <= spec_find(s, pid) < s.len(),
    decreases s.len(),
{
    if s.len() > 0 && s[0].peer_id != pid {
        lemma_find_range(s.drop_first(), pid);
    }
}

/// `spec_find` returns -1 exactly when no entry carries the identifier.
pub proof fn lemma_find_none(s: Seq<PeerInfoView>, pid: Seq<char>)
    requires
        forall|j: int| 0 <= j < s.len() ==> (#[trigger] s[j]).peer_id != pid,
    ensures
        spec_find(s, pid) == -1,
    decreases s.len(),
{
    if s.len() > 0 {
        assert(forall|j: int|
            0 <= j < s.drop_first().len() ==> (#[trigger] s.drop_first()[j]).peer_id != pid);
        lemma_find_none(s.drop_first(), pid);
    }
}

/// `spec_find` returns the first index whose entry carries the identifier.
pub proof fn lemma_find_at(s: Seq<PeerInfoView>, pid: Seq<char>, i: int)
    requires
        0 <= i < s.len(),
        s[i].peer_id == pid,
        forall|j: int| 0 <= j < i ==> (#[trigger] s[j]).peer_id != pid,
    ensures
        spec_find(s, pid) == i,
    decreases s.len(),
{
    if i > 0 {
        assert(s[0].peer_id != pid);
        assert(s.drop_first()[i - 1].peer_id == pid);
        assert(forall|j: int|
            0 <= j < i - 1 ==> (#[trigger] s.drop_first()[j]).peer_id != pid) by {
            assert(forall|j: int|
                0 <= j < i - 1 ==> s.drop_first()[j] == s[j + 1] && (#[trigger] s[j + 1]).peer_id
                    != pid);
        }
        lemma_find_at(s.drop_first(), pid, i - 1);
    }
}

/// A found index is in range, carries the identifier, and is the first to.
pub proof fn lemma_find_valid(s: Seq<PeerInfoView>, pid: Seq<char>)
    requires
        spec_find(s, pid) != -1,
    ensures
        0 <= spec_find(s, pid) < s.len(),
        s[spec_find(s, pid)].peer_id == pid,
        forall|j: int| 0 <= j < spec_find(s, pid) ==> (#[trigger] s[j]).peer_id != pid,
    decreases s.len(),
{
    if s.len() > 0 && s[0].peer_id != pid {
        lemma_find_valid(s.drop_first(), pid);
        assert(forall|j: int|
            1 <= j < spec_find(s, pid) ==> (#[trigger] s[j]) == s.drop_first()[j - 1]);
    }
}

/// When nothing is found, no entry carries the identifier.
pub proof fn lemma_find_none_inv(s: Seq<PeerInfoView>, pid: Seq<char>)
    requires
        spec_find(s, pid) == -1,
    ensures
        forall|j: int| 0 <= j < s.len() ==> (#[trigger] s[j]).peer_id != pid,
    decreases s.len(),
{
    if s.len() > 0 {
        lemma_find_range(s.drop_first(), pid);
        lemma_find_none_inv(s.drop_first(), pid);
        assert(forall|j: int| 1 <= j < s.len() ==> (#[trigger] s[j]) == s.drop_first()[j - 1]);
    }
}

/// The entry carrying the identifier, if any.
pub open spec fn spec_entry_of(s: Seq<PeerInfoView>, pid: Seq<char>) -> Option<PeerInfoView> {
    if spec_find(s, pid) == -1 {
        None
    } else {
        Some(s[spec_find(s, pid)])
    }
}

/// Appending an entry for another identifier leaves this identifier's entry
/// as it was.
pub proof fn lemma_entry_after_push(s: Seq<PeerInfoView>, e: PeerInfoView, pid: Seq<char>)
    requires
        e.peer_id != pid,
    ensures
        spec_entry_of(s.push(e), pid) == spec_entry_of(s, pid),
{
    let j = spec_find(s, pid);
    lemma_find_range(s, pid);
    if j == -1 {
        lemma_find_none_inv(s, pid);
        assert(forall|t: int|
            0 <= t < s.push(e).len() ==> (#[trigger] s.push(e)[t]).peer_id != pid);
        lemma_find_none(s.push(e), pid);
    } else {
        lemma_find_valid(s, pid);
        assert(s.push(e)[j] == s[j]);
        assert(forall|t: int| 0 <= t < j ==> (#[trigger] s.push(e)[t]).peer_id != pid);
        lemma_find_at(s.push(e), pid, j);
    }
}

/// Replacing one entry by another with the same identifier leaves every
/// other identifier's entry as it was.
pub proof fn lemma_entry_after_update(s: Seq<PeerInfoView>, k: int, e: PeerInfoView, pid: Seq<char>)
    requires
        0 <= k < s.len(),
        s[k].peer_id != pid,
        e.peer_id == s[k].peer_id,
    ensures
        spec_entry_of(s.update(k, e), pid) == spec_entry_of(s, pid),
{
    let s2 = s.update(k, e);
    assert(forall|t: int| 0 <= t < s2.len() ==> (#[trigger] s2[t]).peer_id == s[t].peer_id);
    let j = spec_find(s, pid);
    lemma_find_range(s, pid);
    if j == -1 {
        lemma_find_none_inv(s, pid);
        assert(forall|t: int| 0 <= t < s2.len() ==> (#[trigger] s2[t]).peer_id != pid);
        lemma_find_none(s2, pid);
    } else {
        lemma_find_valid(s, pid);
        assert(j != k);
        assert(s2[j] == s[j]);
        assert(forall|t: int| 0 <= t < j ==> (#[trigger] s2[t]).peer_id != pid);
        lemma_find_at(s2, pid, j);
    }
}

/// Removing one entry leaves every other identifier's entry as it was.
pub proof fn lemma_entry_after_remove(s: Seq<PeerInfoView>, k: int, pid: Seq<char>)
    requires
        0 <= k < s.len(),
        s[k].peer_id != pid,
    ensures
        spec_entry_of(s.remove(k), pid) == spec_entry_of(s, pid),
{
    let s2 = s.remove(k);
    assert(forall|t: int|
        0 <= t < s2.len() ==> (#[trigger] s2[t]) == if t < k {
            s[t]
        } else {
            s[t + 1]
        });
    let j = spec_find(s, pid);
    lemma_find_range(s, pid);
    if j == -1 {
        lemma_find_none_inv(s, pid);
        assert(forall|t: int| 0 <= t < s2.len() ==> (#[trigger] s2[t]).peer_id != pid);
        lemma_find_none(s2, pid);
    } else {
        lemma_find_valid(s, pid);
        assert(j != k);
        let j2 = if j < k {
            j
        } else {
            j - 1
        };
        assert(s2[j2] == s[j]);
        assert(forall|t: int| 0 <= t < j2 ==> (#[trigger] s2[t]).peer_id != pid);
        lemma_find_at(s2, pid, j2);
    }
}

/// Merging one more address steps the merge by one.
pub proof fn lemma_merge_snoc(cur: Seq<Seq<char>>, new: Seq<Seq<char>>, a: Seq<char>)
    ensures
        spec_merge_addrs(cur, new.push(a)) == ({
            let mid = spec_merge_addrs(cur, new);
            if mid.contains(a) {
                mid
            } else {
                mid.push(a)
            }
        }),
    decreases new.len(),
{
    if new.len() == 0 {
        assert(new.push(a).drop_first() =~= Seq::<Seq<char>>::empty());
        assert(spec_merge_addrs(cur, new.push(a)) == spec_merge_addrs(
            if cur.contains(a) {
                cur
            } else {
                cur.push(a)
            },
            Seq::<Seq<char>>::empty(),
        ));
    } else {
        assert(new.push(a).drop_first() =~= new.drop_first().push(a));
        assert(new.push(a)[0] == new[0]);
        lemma_merge_snoc(
            if cur.contains(new[0]) {
                cur
            } else {
                cur.push(new[0])
            },
            new.drop_first(),
            a,
        );
    }
}

/// The registry of known peers, ordered by first insertion.
#[derive(Debug)]
pub struct PeerRegistry {
    entries: Vec<PeerInfo>,
}

impl View for PeerRegistry {
    type V = Seq<PeerInfoView>;

    closed spec fn view(&self) -> Seq<PeerInfoView> {
        Seq::new(self.entries@.len(), |i: int| self.entries@[i]@)
    }
}

/// No identifier occurs twice in the sequence of entries.
pub open spec fn registry_wf(s: Seq<PeerInfoView>) -> bool {
    forall|i: int, j: int|
        0 <= i < j < s.len() ==> (#[trigger] s[i]).peer_id != (#[trigger] s[j]).peer_id
}

impl PeerRegistry {
    /// No identifier occurs twice.
    pub open spec fn wf(&self) -> bool {
        registry_wf(self@)
    }

    /// Whether an entry carries the identifier.
    pub open spec fn spec_contains(&self, pid: Seq<char>) -> bool {
        spec_find(self@, pid) != -1
    }

    /// An empty registry.
    pub fn new() -> (r: PeerRegistry)
        ensures
            r@ =~= Seq::<PeerInfoView>::empty(),
            r.wf(),
    {
        PeerRegistry { entries: Vec::new() }
    }

    /// How many peers are known.
    pub fn len(&self) -> (n: usize)
        ensures
            n == self@.len(),
    {
        self.entries.len()
    }

    /// The index of the entry for `peer_id`, if any.
    fn find(&self, peer_id: &String) -> (r: Option<usize>)
        ensures
            match r {
                Some(k) => spec_find(self@, peer_id@) == k as int,
                None => spec_find(self@, peer_id@) == -1,
            },
    {
        let n = self.entries.len();
        let mut i: usize = 0;
        while i < n
            invariant
                n == self@.len(),
                i <= n,
                forall|j: int| 0 <= j < i ==> (#[trigger] self@[j]).peer_id != peer_id@,
            decreases n - i,
        {
            if self.entries[i].peer_id == *peer_id {
                proof {
                    lemma_find_at(self@, peer_id@, i as int);
                }
                return Some(i);
            }
            i = i + 1;
        }
        proof {
            lemma_find_none(self@, peer_id@);
        }
        None
    }

    /// Whether the registry holds an entry for `peer_id`.
    pub fn contains(&self, peer_id: &String) -> (r: bool)
        ensures
            r == self.spec_contains(peer_id@),
    {
        match self.find(peer_id) {
            Some(_) => true,
            None => false,
        }
    }

    /// Record what is now known about a peer. A new peer is appended; a known
    /// peer keeps its place, gains the addresses it did not have yet, and its
    /// `last_seen` never decreases.
    pub fn upsert(&mut self, peer_id: &String, addresses: &Vec<String>, now: u64)
        requires
            old(self).wf(),
        ensures
            final(self).wf(),
            final(self).spec_contains(peer_id@),
            ({
                let k = spec_find(old(self)@, peer_id@);
                let avs = strings_view(addresses@);
                if k == -1 {
                    final(self)@ =~= old(self)@.push(
                        PeerInfoView {
                            peer_id: peer_id@,
                            addresses: spec_merge_addrs(Seq::empty(), avs),
                            last_seen: now,
                        },
                    )
                } else {
                    final(self)@ =~= old(self)@.update(
                        k,
                        PeerInfoView {
                            peer_id: peer_id@,
                            addresses: spec_merge_addrs(old(self)@[k].addresses, avs),
                            last_seen: spec_max_u64(old(self)@[k].last_seen, now),
                        },
                    )
                }
            }),
    {
        let ghost avs = strings_view(addresses@);
        match self.find(peer_id) {
            Some(k) => {
                proof {
                    lemma_find_valid(self@, peer_id@);
                }
                let entry = &self.entries[k];
                let mut addrs = clone_string_vec(&entry.addresses);
                merge_addresses(&mut addrs, addresses);
                let seen = if entry.last_seen >= now {
                    entry.last_seen
                } else {
                    now
                };
                let new_entry = PeerInfo {
                    peer_id: clone_string(peer_id),
                    addresses: addrs,
                    last_seen: seen,
                };
                self.entries.set(k, new_entry);
                proof {
                    let k = k as int;
                    let nv = PeerInfoView {
                        peer_id: peer_id@,
                        addresses: spec_merge_addrs(old(self)@[k].addresses, avs),
                        last_seen: spec_max_u64(old(self)@[k].last_seen, now),
                    };
                    assert(self@[k].addresses =~= nv.addresses);
                    assert(self@[k] =~= nv);
                    assert(self@ =~= old(self)@.update(k, nv));
                    assert(self@ =~= old(self)@.update(
                        k,
                        PeerInfoView {
                            peer_id: peer_id@,
                            addresses: spec_merge_addrs(old(self)@[k].addresses, avs),
                            last_seen: spec_max_u64(old(self)@[k].last_seen, now),
                        },
                    ));
                    assert(forall|j: int|
                        0 <= j < self@.len() ==> (#[trigger] self@[j]).peer_id == old(
                            self,
                        )@[j].peer_id);
                    assert(self.wf());
                    assert(forall|j: int| 0 <= j < k ==> (#[trigger] self@[j]).peer_id != peer_id@);
                    lemma_find_at(self@, peer_id@, k);
                }
            },
            None => {
                proof {
                    lemma_find_none_inv(self@, peer_id@);
                }
                let mut addrs: Vec<String> = Vec::new();
                merge_addresses(&mut addrs, addresses);
                let new_entry = PeerInfo {
                    peer_id: clone_string(peer_id),
                    addresses: addrs,
                    last_seen: now,
                };
                self.entries.push(new_entry);
                proof {
                    let nv = PeerInfoView {
                        peer_id: peer_id@,
                        addresses: spec_merge_addrs(Seq::empty(), avs),
                        last_seen: now,
                    };
                    let last = old(self)@.len() as int;
                    assert(strings_view(Seq::<String>::empty()) =~= Seq::<Seq<char>>::empty());
                    assert(self@[last].addresses =~= nv.addresses);
                    assert(self@[last] =~= nv);
                    assert(self@ =~= old(self)@.push(nv));
                    assert(self@ =~= old(self)@.push(
                        PeerInfoView {
                            peer_id: peer_id@,
                            addresses: spec_merge_addrs(Seq::empty(), avs),
                            last_seen: now,
                        },
                    ));
                    assert(forall|j: int|
                        0 <= j < old(self)@.len() ==> (#[trigger] self@[j]) == old(self)@[j]);
                    assert(self.wf());
                    lemma_find_at(self@, peer_id@, old(self)@.len() as int);
                }
            },
        }
    }

    /// Forget a peer. A known peer's entry disappears, everything else keeps
    /// its place; an unknown peer leaves the registry unchanged.
    pub fn remove(&mut self, peer_id: &String)
        requires
            old(self).wf(),
        ensures
            final(self).wf(),
            !final(self).spec_contains(peer_id@),
            ({
                let k = spec_find(old(self)@, peer_id@);
                if k == -1 {
                    final(self)@ =~= old(self)@
                } else {
                    final(self)@ =~= old(self)@.remove(k)
                }
            }),
    {
        match self.find(peer_id) {
            Some(k) => {
                proof {
                    lemma_find_valid(self@, peer_id@);
                }
                self.entries.remove(k);
                proof {
                    let ko = k as int;
                    assert(self@ =~= old(self)@.remove(ko));
                    assert(forall|j: int|
                        0 <= j < self@.len() ==> (#[trigger] self@[j]) == if j < ko {
                            old(self)@[j]
                        } else {
                            old(self)@[j + 1]
                        });
                    assert(self.wf());
                    assert(forall|j: int|
                        0 <= j < self@.len() ==> (#[trigger] self@[j]).peer_id != peer_id@);
                    lemma_find_none(self@, peer_id@);
                }
            },
            None => {
                proof {
                    assert(self@ =~= old(self)@);
                }
            },
        }
    }

    /// A copy of the entry for `peer_id`, if any.
    pub fn get_info(&self, peer_id: &String) -> (r: Option<PeerInfo>)
        ensures
            match r {
                Some(info) => spec_find(self@, peer_id@) != -1 && info@ == self@[spec_find(
                    self@,
                    peer_id@,
                )],
                None => spec_find(self@, peer_id@) == -1,
            },
    {
        match self.find(peer_id) {
            Some(k) => {
                proof {
                    lemma_find_valid(self@, peer_id@);
                }
                let e = &self.entries[k];
                let copy = PeerInfo {
                    peer_id: clone_string(&e.peer_id),
                    addresses: clone_string_vec(&e.addresses),
                    last_seen: e.last_seen,
                };
                proof {
                    assert(copy@.addresses =~= self@[k as int].addresses);
                    assert(copy@ =~= self@[k as int]);
                }
                Some(copy)
            },
            None => None,
        }
    }

    /// A copy of every entry, in insertion order.
    pub fn snapshot(&self) -> (r: Vec<PeerInfo>)
        ensures
            r@.len() == self@.len(),
            forall|i: int| 0 <= i < r@.len() ==> (#[trigger] r@[i])@ == self@[i],
    {
        let n = self.entries.len();
        let mut r: Vec<PeerInfo> = Vec::new();
        let mut i: usize = 0;
        while i < n
            invariant
                n == self@.len(),
                i <= n,
                r@.len() == i,
                forall|j: int| 0 <= j < i ==> (#[trigger] r@[j])@ == self@[j],
            decreases n - i,
        {
            let e = &self.entries[i];
            let copy = PeerInfo {
                peer_id: clone_string(&e.peer_id),
                addresses: clone_string_vec(&e.addresses),
                last_seen: e.last_seen,
            };
            r.push(copy);
            i = i + 1;
        }
        r
    }
}

/// A copy of a string with the same characters.
pub fn clone_string(s: &String) -> (r: String)
    ensures
        r@ == s@,
{
    s.clone()
}

/// A copy of a string vector with the same contents.
pub fn clone_string_vec(v: &Vec<String>) -> (r: Vec<String>)
    ensures
        r@.len() == v@.len(),
        forall|i: int| 0 <= i < v@.len() ==> (#[trigger] r@[i])@ == v@[i]@,
        strings_view(r@) =~= strings_view(v@),
{
    let n = v.len();
    let mut r: Vec<String> = Vec::new();
    let mut i: usize = 0;
    while i < n
        invariant
            n == v@.len(),
            i <= n,
            r@.len() == i,
            forall|j: int| 0 <= j < i ==> (#[trigger] r@[j])@ == v@[j]@,
        decreases n - i,
    {
        r.push(v[i].clone());
        i = i + 1;
    }
    r
}

/// Whether some string in `v` has the characters of `a`.
pub(crate) fn vec_contains_string(v: &Vec<String>, a: &String) -> (r: bool)
    ensures
        r == strings_view(v@).contains(a@),
{
    let ghost vs = strings_view(v@);
    let n = v.len();
    let mut i: usize = 0;
    while i < n
        invariant
            n == v@.len(),
            vs == strings_view(v@),
            i <= n,
            forall|j: int| 0 <= j < i ==> vs[j] != a@,
        decreases n - i,
    {
        if v[i] == *a {
            assert(vs[i as int] == a@);
            return true;
        }
        i = i + 1;
    }
    assert(!vs.contains(a@));
    false
}

/// Append to `cur` every address of `new` it does not hold yet, in order.
fn merge_addresses(cur: &mut Vec<String>, new: &Vec<String>)
    ensures
        strings_view(final(cur)@) =~= spec_merge_addrs(
            strings_view(old(cur)@),
            strings_view(new@),
        ),
{
    let ghost cur0 = strings_view(old(cur)@);
    let ghost nvs = strings_view(new@);
    let n = new.len();
    let mut i: usize = 0;
    while i < n
        invariant
            n == new@.len(),
            nvs == strings_view(new@),
            i <= n,
            strings_view(cur@) =~= spec_merge_addrs(cur0, nvs.subrange(0, i as int)),
        decreases n - i,
    {
        proof {
            assert(nvs.subrange(0, i + 1 as int) =~= nvs.subrange(0, i as int).push(
                nvs[i as int],
            ));
            lemma_merge_snoc(cur0, nvs.subrange(0, i as int), nvs[i as int]);
        }
        if !vec_contains_string(cur, &new[i]) {
            cur.push(new[i].clone());
            proof {
                assert(strings_view(cur@) =~= spec_merge_addrs(
                    cur0,
                    nvs.subrange(0, i + 1 as int),
                ));
            }
        } else {
            proof {
                assert(strings_view(cur@) =~= spec_merge_addrs(
                    cur0,
                    nvs.subrange(0, i + 1 as int),
                ));
            }
        }
        i = i + 1;
    }
    proof {
        assert(nvs.subrange(0, n as int) =~= nvs);
    }
}

} // verus!
