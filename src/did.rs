use vstd::prelude::*;
use crate::error::ContractError;
use crate::pairs::{pairs_map, keys_unique, lemma_pairs_map_push, lemma_pairs_map_lookup};

verus! {

/// A registered decentralized identifier and its revocation flag.
pub struct Did {
    pub did: String,
    pub is_revoked: bool,
}

/// The DID records of one vault, at most one per identifier.
pub struct DidStore {
    entries: Vec<Did>,
}

/// The records as identifier/flag pairs.
pub open spec fn did_pairs(s: Seq<Did>) -> Seq<(Seq<char>, bool)> {
    s.map_values(|d: Did| (d.did@, d.is_revoked))
}

/// The character sequences of a list of strings.
pub open spec fn strings_view(v: Seq<String>) -> Seq<Seq<char>> {
    v.map_values(|s: String| s@)
}

/// The store that seeding with `dids` gives: each of them, and no other,
/// registered and not revoked.
pub open spec fn initial_view(dids: Seq<Seq<char>>) -> Map<Seq<char>, bool> {
    Map::new(|k: Seq<char>| dids.contains(k), |k: Seq<char>| false)
}

/// The revocation status of `d` in a store: its flag, or nothing when it is
/// not registered.
pub open spec fn revocation_status(m: Map<Seq<char>, bool>, d: Seq<char>) -> Option<bool> {
    if m.contains_key(d) {
        Some(m[d])
    } else {
        None
    }
}

impl View for DidStore {
    type V = Map<Seq<char>, bool>;

    closed spec fn view(&self) -> Map<Seq<char>, bool> {
        pairs_map(did_pairs(self.entries@))
    }
}

impl DidStore {
    /// No identifier has two records.
    pub closed spec fn wf(&self) -> bool {
        keys_unique(did_pairs(self.entries@))
    }

    /// A store with no DID in it.
    pub fn new() -> (s: DidStore)
        ensures
            s.wf(),
            s@ == Map::<Seq<char>, bool>::empty(),
    {
        let s = DidStore { entries: Vec::new() };
        assert(did_pairs(s.entries@) =~= Seq::<(Seq<char>, bool)>::empty());
        s
    }

    /// The position of the record of `did`, if there is one.
    fn find(&self, did: &String) -> (r: Option<usize>)
        ensures
            match r {
                Some(i) => i < self.entries@.len() && self.entries@[i as int].did@ == did@,
                None => forall|j: int| 0 <= j < self.entries@.len() ==> self.entries@[j].did@ != did@,
            },
    {
        let mut i: usize = 0;
        while i < self.entries.len()
            invariant
                0 <= i <= self.entries@.len(),
                forall|j: int| 0 <= j < i ==> self.entries@[j].did@ != did@,
            decreases self.entries@.len() - i,
        {
            if self.entries[i].did == *did {
                return Some(i);
            }
            i = i + 1;
        }
        None
    }

    /// What the store holds for `did`: its flag, or nothing.
    fn lookup(&self, did: &String) -> (r: Option<bool>)
        requires
            self.wf(),
        ensures
            r == revocation_status(self@, did@),
    {
        proof {
            lemma_pairs_map_lookup(did_pairs(self.entries@));
        }
        match self.find(did) {
            Some(i) => {
                assert(did_pairs(self.entries@)[i as int].0 == did@);
                Some(self.entries[i].is_revoked)
            },
            None => {
                assert(!self@.contains_key(did@)) by {
                    if self@.contains_key(did@) {
                        let j = choose|j: int|
                            0 <= j < did_pairs(self.entries@).len() && did_pairs(self.entries@)[j].0 == did@;
                        assert(self.entries@[j].did@ == did@);
                    }
                }
                None
            },
        }
    }
}

/// Seeds the store with `dids`, each registered and not revoked, in place of
/// whatever it held. An identifier listed twice keeps a single record. An
/// empty list is refused with `EmptyDIDs`, and the store is left as it was.
pub fn set_initial_dids(store: &mut DidStore, dids: &Vec<String>) -> (r: Result<(), ContractError>)
    requires
        old(store).wf(),
    ensures
        final(store).wf(),
        dids@.len() == 0 ==> r == Err::<(), ContractError>(ContractError::EmptyDIDs) && *final(store) == *old(store),
        dids@.len() > 0 ==> r == Ok::<(), ContractError>(()) && final(store)@ == initial_view(strings_view(dids@)),
{
    if dids.len() == 0 {
        return Err(ContractError::EmptyDIDs);
    }
    let mut seeded = DidStore::new();
    let mut i: usize = 0;
    while i < dids.len()
        invariant
            0 <= i <= dids@.len(),
            seeded.wf(),
            seeded@ == initial_view(strings_view(dids@).take(i as int)),
        decreases dids@.len() - i,
    {
        let ghost before = strings_view(dids@).take(i as int);
        let ghost k = dids@[i as int]@;
        assert(strings_view(dids@).take(i + 1) =~= before.push(k));
        match seeded.find(&dids[i]) {
            Some(j) => {
                // Already seeded by an earlier occurrence, with the very
                // record that writing it again would make.
                proof {
                    lemma_pairs_map_lookup(did_pairs(seeded.entries@));
                    assert(did_pairs(seeded.entries@)[j as int].0 == k);
                    assert(pairs_map(did_pairs(seeded.entries@)).contains_key(k));
                    assert(initial_view(before).contains_key(k));
                    assert(before.contains(k));
                    assert(initial_view(before.push(k)) =~= initial_view(before)) by {
                        assert forall|x: Seq<char>| before.push(k).contains(x) <==> before.contains(x) by {
                            if before.push(k).contains(x) {
                                let n = choose|n: int| 0 <= n < before.push(k).len() && before.push(k)[n] == x;
                                if n < before.len() {
                                    assert(before[n] == x);
                                }
                            }
                            if before.contains(x) {
                                let n = choose|n: int| 0 <= n < before.len() && before[n] == x;
                                assert(before.push(k)[n] == x);
                                assert(before.push(k).contains(x));
                            }
                        }
                    }
                }
            },
            None => {
                let d = Did { did: dids[i].clone(), is_revoked: false };
                let ghost old_entries = seeded.entries@;
                seeded.entries.push(d);
                proof {
                    assert(did_pairs(seeded.entries@) =~= did_pairs(old_entries).push((k, false)));
                    lemma_pairs_map_push(did_pairs(old_entries), (k, false));
                    assert(initial_view(before.push(k)) =~= initial_view(before).insert(k, false)) by {
                        assert forall|x: Seq<char>| before.push(k).contains(x) <==> (before.contains(x) || x == k) by {
                            if before.push(k).contains(x) {
                                let n = choose|n: int| 0 <= n < before.push(k).len() && before.push(k)[n] == x;
                                if n < before.len() {
                                    assert(before[n] == x);
                                }
                            }
                            if before.contains(x) {
                                let n = choose|n: int| 0 <= n < before.len() && before[n] == x;
                                assert(before.push(k)[n] == x);
                                assert(before.push(k).contains(x));
                            }
                            if x == k {
                                assert(before.push(k)[before.len() as int] == x);
                                assert(before.push(k).contains(x));
                            }
                        }
                        assert forall|x: Seq<char>| #[trigger] initial_view(before.push(k)).contains_key(x)
                            <==> initial_view(before).insert(k, false).contains_key(x) by {
                            assert(before.push(k).contains(x) <==> (before.contains(x) || x == k));
                        }
                    }
                }
            },
        }
        i = i + 1;
    }
    assert(strings_view(dids@).take(dids@.len() as int) =~= strings_view(dids@));
    *store = seeded;
    Ok(())
}

/// The revocation flag of `did`, or `None` when it is not registered.
pub fn is_revoked(store: &DidStore, did: &String) -> (r: Option<bool>)
    requires
        store.wf(),
    ensures
        r == revocation_status(store@, did@),
{
    store.lookup(did)
}

/// Whether `did` is registered, revoked or not.
pub fn is_registered(store: &DidStore, did: &String) -> (r: bool)
    requires
        store.wf(),
    ensures
        r == store@.contains_key(did@),
{
    store.lookup(did).is_some()
}

/// Every identifier of a freshly seeded set is registered, and its status
/// is "not revoked".
pub proof fn lemma_seeded_did_active(dids: Seq<Seq<char>>, d: Seq<char>)
    requires
        dids.contains(d),
    ensures
        initial_view(dids).contains_key(d),
        revocation_status(initial_view(dids), d) == Some(false),
{
}

/// An identifier that was not among those seeded is not registered, and its
/// status is absent rather than "not revoked".
pub proof fn lemma_unseeded_did_absent(dids: Seq<Seq<char>>, d: Seq<char>)
    requires
        !dids.contains(d),
    ensures
        !initial_view(dids).contains_key(d),
        revocation_status(initial_view(dids), d) == None::<bool>,
{
}

} // verus!
