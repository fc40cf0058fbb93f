use rustc_hash::FxHasher;
use std::hash::Hasher;
use vstd::bytes::{spec_u128_to_le_bytes, spec_u64_to_le_bytes, u128_to_le_bytes, u64_to_le_bytes};
use vstd::prelude::*;

verus! {

/// What identifies a file of the input directory: its name, its length in
/// bytes and the time of its last change, in nanoseconds from the start of
/// 1970.
#[derive(Debug, Clone)]
pub struct Entry {
    pub file_name: Vec<u8>,
    pub len: u64,
    pub modified: u128,
}

impl View for Entry {
    type V = (Seq<u8>, u64, u128);

    open spec fn view(&self) -> (Seq<u8>, u64, u128) {
        (self.file_name@, self.len, self.modified)
    }
}

/// How one entry stands to another in the order of the entries.
#[derive(Debug, Clone, Copy, PartialEq, Eq)]
pub enum Rank {
    Before,
    Same,
    After,
}

/// Whether `x` and `y` are the same up to place `i`, where `x` ends and `y`
/// goes on, or has the smaller byte.
pub open spec fn parts_at(x: Seq<u8>, y: Seq<u8>, i: int) -> bool {
    &&& 0 <= i <= x.len()
    &&& i < y.len()
    &&& forall|j: int| 0 <= j < i ==> x[j] == y[j]
    &&& i < x.len() ==> x[i] < y[i]
}

/// Whether `x` comes before `y` as names are ordered: byte by byte, a name
/// before every longer name that starts with it.
pub open spec fn name_before(x: Seq<u8>, y: Seq<u8>) -> bool {
    exists|i: int| parts_at(x, y, i)
}

/// Whether `a` comes before `b`: by name, then by length, then by the time
/// of the last change.
pub open spec fn before(a: (Seq<u8>, u64, u128), b: (Seq<u8>, u64, u128)) -> bool {
    ||| name_before(a.0, b.0)
    ||| a.0 == b.0 && a.1 < b.1
    ||| a.0 == b.0 && a.1 == b.1 && a.2 < b.2
}

/// Whether each entry of `s` comes before all that follow it.
pub open spec fn ascending(s: Seq<(Seq<u8>, u64, u128)>) -> bool {
    forall|i: int, j: int| 0 <= i < j < s.len() ==> before(s[i], s[j])
}

/// No name comes before itself.
pub proof fn lemma_name_irreflexive(x: Seq<u8>)
    ensures
        !name_before(x, x),
{
}

/// The order of names is transitive.
pub proof fn lemma_name_transitive(x: Seq<u8>, y: Seq<u8>, z: Seq<u8>)
    requires
        name_before(x, y),
        name_before(y, z),
    ensures
        name_before(x, z),
{
    let i = choose|i: int| parts_at(x, y, i);
    let k = choose|k: int| parts_at(y, z, k);
    let m = if i < k {
        i
    } else {
        k
    };
    assert(parts_at(x, z, m));
}

/// The order of entries is transitive, and no entry comes before itself.
pub proof fn lemma_before_order(
    a: (Seq<u8>, u64, u128),
    b: (Seq<u8>, u64, u128),
    c: (Seq<u8>, u64, u128),
)
    ensures
        !before(a, a),
        before(a, b) && before(b, c) ==> before(a, c),
        before(a, b) ==> !before(b, a),
{
    lemma_name_irreflexive(a.0);
    if before(a, b) && before(b, c) {
        if name_before(a.0, b.0) && name_before(b.0, c.0) {
            lemma_name_transitive(a.0, b.0, c.0);
        }
    }
    if before(a, b) && before(b, a) {
        if name_before(a.0, b.0) && name_before(b.0, a.0) {
            lemma_name_transitive(a.0, b.0, a.0);
        }
    }
}

/// Two ascending listings of the same entries are the same listing.
pub proof fn lemma_ascending_unique(
    s: Seq<(Seq<u8>, u64, u128)>,
    t: Seq<(Seq<u8>, u64, u128)>,
)
    requires
        ascending(s),
        ascending(t),
        s.to_set() == t.to_set(),
    ensures
        s == t,
    decreases s.len(),
{
    if s.len() == 0 {
        if t.len() > 0 {
            assert(t.to_set().contains(t[0]));
            assert(s.contains(t[0]));
        }
        assert(s =~= t);
    } else {
        assert(s.to_set().contains(s.last()));
        assert(t.contains(s.last()));
        let q = choose|q: int| 0 <= q < t.len() && t[q] == s.last();
        assert(t.to_set().contains(t.last()));
        assert(s.contains(t.last()));
        let p = choose|p: int| 0 <= p < s.len() && s[p] == t.last();
        lemma_before_order(s.last(), t.last(), s.last());
        assert(s.last() == t.last()) by {
            if p < s.len() - 1 {
                assert(before(s[p], s[s.len() - 1]));
            }
            if q < t.len() - 1 {
                assert(before(t[q], t[t.len() - 1]));
            }
        }
        let si = s.drop_last();
        let ti = t.drop_last();
        assert forall|e: (Seq<u8>, u64, u128)| si.to_set().contains(e) <==> ti.to_set().contains(
            e,
        ) by {
            lemma_before_order(e, s.last(), e);
            if si.contains(e) {
                let i = choose|i: int| 0 <= i < si.len() && si[i] == e;
                assert(before(s[i], s[s.len() - 1]));
                assert(s.to_set().contains(s[i]));
                assert(t.contains(e));
                let j = choose|j: int| 0 <= j < t.len() && t[j] == e;
                assert(ti[j] == e);
            }
            if ti.contains(e) {
                let i = choose|i: int| 0 <= i < ti.len() && ti[i] == e;
                assert(before(t[i], t[t.len() - 1]));
                assert(t.to_set().contains(t[i]));
                assert(s.contains(e));
                let j = choose|j: int| 0 <= j < s.len() && s[j] == e;
                assert(si[j] == e);
            }
        }
        assert(si.to_set() =~= ti.to_set());
        assert(ascending(si));
        assert(ascending(ti));
        lemma_ascending_unique(si, ti);
        assert(s =~= si.push(s.last()));
        assert(t =~= ti.push(t.last()));
    }
}

/// How the name `x` stands to the name `y`.
fn rank_names(x: &Vec<u8>, y: &Vec<u8>) -> (rank: Rank)
    ensures
        match rank {
            Rank::Before => name_before(x@, y@),
            Rank::Same => x@ == y@,
            Rank::After => name_before(y@, x@),
        },
{
    let mut i: usize = 0;
    while i < x.len() && i < y.len()
        invariant
            i <= x@.len(),
            i <= y@.len(),
            forall|j: int| 0 <= j < i ==> x@[j] == y@[j],
        decreases x@.len() - i,
    {
        if x[i] < y[i] {
            assert(parts_at(x@, y@, i as int));
            return Rank::Before;
        }
        if x[i] > y[i] {
            assert(parts_at(y@, x@, i as int));
            return Rank::After;
        }
        i = i + 1;
    }
    if x.len() < y.len() {
        assert(parts_at(x@, y@, i as int));
        Rank::Before
    } else if x.len() > y.len() {
        assert(parts_at(y@, x@, i as int));
        Rank::After
    } else {
        assert(x@ =~= y@);
        Rank::Same
    }
}

impl Entry {
    /// How this entry stands to `other` in the order of the entries.
    pub fn rank(&self, other: &Entry) -> (rank: Rank)
        ensures
            match rank {
                Rank::Before => before(self@, other@),
                Rank::Same => self@ == other@,
                Rank::After => before(other@, self@),
            },
    {
        match rank_names(&self.file_name, &other.file_name) {
            Rank::Before => Rank::Before,
            Rank::After => Rank::After,
            Rank::Same => {
                if self.len < other.len {
                    Rank::Before
                } else if self.len > other.len {
                    Rank::After
                } else if self.modified < other.modified {
                    Rank::Before
                } else if self.modified > other.modified {
                    Rank::After
                } else {
                    Rank::Same
                }
            },
        }
    }
}

/// The entries of a directory in their order, each once.
#[derive(Debug)]
pub struct Entries {
    sorted: Vec<Entry>,
}

impl View for Entries {
    type V = Seq<(Seq<u8>, u64, u128)>;

    closed spec fn view(&self) -> Seq<(Seq<u8>, u64, u128)> {
        self.sorted@.map_values(|entry: Entry| entry@)
    }
}

impl Entries {
    #[verifier::type_invariant]
    spec fn ordered(&self) -> bool {
        ascending(self@)
    }

    /// No entries.
    pub fn new() -> (entries: Entries)
        ensures
            entries@ == Seq::<(Seq<u8>, u64, u128)>::empty(),
    {
        let entries = Entries { sorted: Vec::new() };
        assert(entries@ =~= Seq::<(Seq<u8>, u64, u128)>::empty());
        entries
    }

    /// The number of entries.
    pub fn len(&self) -> (n: usize)
        ensures
            n == self@.len(),
    {
        self.sorted.len()
    }

    /// The entry at place `i` of the order.
    pub fn at(&self, i: usize) -> (entry: &Entry)
        requires
            i < self@.len(),
        ensures
            entry@ == self@[i as int],
    {
        &self.sorted[i]
    }

    /// Puts `entry` at its place in the order, unless it is there, and says
    /// whether it was put.
    pub fn insert(&mut self, entry: Entry) -> (added: bool)
        ensures
            ascending(final(self)@),
            final(self)@.to_set() == old(self)@.to_set().insert(entry@),
            added == !old(self)@.contains(entry@),
            !added ==> final(self)@ == old(self)@,
    {
        proof {
            use_type_invariant(&*self);
        }
        let ghost before_all = self@;
        let mut i: usize = 0;
        let mut found = false;
        while i < self.sorted.len()
            invariant_except_break
                !found,
            invariant
                i <= self.sorted@.len(),
                self@ == before_all,
                ascending(before_all),
                forall|j: int| 0 <= j < i ==> before(before_all[j], entry@),
            ensures
                i <= self.sorted@.len(),
                self@ == before_all,
                forall|j: int| 0 <= j < i ==> before(before_all[j], entry@),
                found ==> i < before_all.len() && before_all[i as int] == entry@,
                !found ==> forall|j: int| i <= j < before_all.len() ==> before(entry@, before_all[j]),
            decreases self.sorted@.len() - i,
        {
            match self.sorted[i].rank(&entry) {
                Rank::Before => {},
                Rank::Same => {
                    found = true;
                    break ;
                },
                Rank::After => {
                    proof {
                        assert forall|j: int| i <= j < before_all.len() implies before(
                            entry@,
                            before_all[j],
                        ) by {
                            if j > i {
                                lemma_before_order(entry@, before_all[i as int], before_all[j]);
                            }
                        }
                    }
                    break ;
                },
            }
            i = i + 1;
        }
        if found {
            proof {
                assert(before_all.to_set().insert(entry@) =~= before_all.to_set());
            }
            return false;
        }
        proof {
            assert(!before_all.contains(entry@)) by {
                if before_all.contains(entry@) {
                    let j = choose|j: int| 0 <= j < before_all.len() && before_all[j] == entry@;
                    lemma_before_order(entry@, entry@, entry@);
                }
            }
        }
        let mut sorted = self.take();
        sorted.insert(i, entry);
        proof {
            let after = sorted@.map_values(|entry: Entry| entry@);
            assert(after =~= before_all.insert(i as int, entry@));
            assert(ascending(after));
            assert forall|e: (Seq<u8>, u64, u128)| after.to_set().contains(e) <==> before_all.to_set().insert(
                entry@,
            ).contains(e) by {
                if after.contains(e) {
                    let j = choose|j: int| 0 <= j < after.len() && after[j] == e;
                    if j < i {
                        assert(before_all[j] == e);
                    } else if j > i {
                        assert(before_all[j - 1] == e);
                    }
                }
                if before_all.contains(e) {
                    let j = choose|j: int| 0 <= j < before_all.len() && before_all[j] == e;
                    if j < i {
                        assert(after[j] == e);
                    } else {
                        assert(after[j + 1] == e);
                    }
                }
                if e == entry@ {
                    assert(after[i as int] == e);
                }
            }
            assert(after.to_set() =~= before_all.to_set().insert(entry@));
        }
        *self = Entries { sorted };
        true
    }

    /// Takes the entries out and leaves none.
    fn take(&mut self) -> (sorted: Vec<Entry>)
        ensures
            sorted@ == old(self).sorted@,
    {
        let mut taken = Entries { sorted: Vec::new() };
        assert(taken@ =~= Seq::<(Seq<u8>, u64, u128)>::empty());
        core::mem::swap(self, &mut taken);
        taken.sorted
    }
}

/// The bytes that stand for one entry in the key of the cache: the length
/// of its name, the name, its length and the time of its last change, the
/// numbers with their low byte first.
pub open spec fn entry_bytes(entry: (Seq<u8>, u64, u128)) -> Seq<u8> {
    spec_u64_to_le_bytes(entry.0.len() as u64) + entry.0 + spec_u64_to_le_bytes(entry.1)
        + spec_u128_to_le_bytes(entry.2)
}

/// The bytes of the entries of `listing`, one after the other.
pub open spec fn listing_bytes(listing: Seq<(Seq<u8>, u64, u128)>) -> Seq<u8>
    decreases listing.len(),
{
    if listing.len() == 0 {
        Seq::empty()
    } else {
        listing_bytes(listing.drop_last()) + entry_bytes(listing.last())
    }
}

/// What is hashed for the key of the cache: the version of the cache's
/// layout, then the entries in their order.
pub open spec fn fingerprint(version: u64, listing: Seq<(Seq<u8>, u64, u128)>) -> Seq<u8> {
    spec_u64_to_le_bytes(version) + listing_bytes(listing)
}

/// What two directories are hashed to is the same whenever they hold the
/// same entries, in whatever order these were found.
pub proof fn lemma_fingerprint_of_set(
    version: u64,
    s: Seq<(Seq<u8>, u64, u128)>,
    t: Seq<(Seq<u8>, u64, u128)>,
)
    requires
        ascending(s),
        ascending(t),
        s.to_set() == t.to_set(),
    ensures
        fingerprint(version, s) == fingerprint(version, t),
{
    lemma_ascending_unique(s, t);
}

/// `rustc_hash::FxHasher`, of which nothing is known here but that it is a
/// type.
#[verifier::external_type_specification]
#[verifier::external_body]
pub struct ExFxHasher(FxHasher);

/// Calls `FxHasher::default`: a hasher that has been given nothing yet.
#[verifier::external_body]
fn fx_new() -> FxHasher {
    FxHasher::default()
}

/// Calls `Hasher::write` of `FxHasher`, which takes the bytes in. Nothing is
/// claimed of the hasher's state.
#[verifier::external_body]
fn fx_write(hasher: &mut FxHasher, bytes: &[u8]) {
    hasher.write(bytes)
}

/// Calls `Hasher::finish` of `FxHasher`. Nothing is claimed of the hash: it
/// depends on the machine's word size and byte order as well as on what the
/// hasher was given.
#[verifier::external_body]
fn fx_finish(hasher: &FxHasher) -> u64 {
    hasher.finish()
}

/// The bytes that are hashed for the key of the cache.
pub fn key_bytes(version: u64, entries: &Entries) -> (bytes: Vec<u8>)
    ensures
        bytes@ == fingerprint(version, entries@),
{
    let mut bytes = u64_to_le_bytes(version);
    let mut i: usize = 0;
    while i < entries.len()
        invariant
            i <= entries@.len(),
            bytes@ == fingerprint(version, entries@.take(i as int)),
        decreases entries@.len() - i,
    {
        let entry = entries.at(i);
        let ghost start = bytes@;
        let mut name_len = u64_to_le_bytes(entry.file_name.len() as u64);
        bytes.append(&mut name_len);
        bytes.extend_from_slice(entry.file_name.as_slice());
        let mut len = u64_to_le_bytes(entry.len);
        bytes.append(&mut len);
        let mut modified = u128_to_le_bytes(entry.modified);
        bytes.append(&mut modified);
        proof {
            assert(bytes@ =~= start + entry_bytes(entry@));
            assert(entries@.take(i + 1).drop_last() =~= entries@.take(i as int));
            assert(entries@.take(i + 1).last() == entry@);
            assert(fingerprint(version, entries@.take(i + 1)) =~= fingerprint(
                version,
                entries@.take(i as int),
            ) + entry_bytes(entry@));
        }
        i = i + 1;
    }
    proof {
        assert(entries@.take(entries@.len() as int) =~= entries@);
    }
    bytes
}

/// The key under which the database built from `entries` is cached: the
/// hash of `key_bytes` of them.
pub fn cache_key(version: u64, entries: &Entries) -> u64 {
    let bytes = key_bytes(version, entries);
    let mut hasher = fx_new();
    fx_write(&mut hasher, bytes.as_slice());
    fx_finish(&hasher)
}

} // verus!
