use vstd::prelude::*;

use crate::domain::{Country, CountryKey, CountryView, KeyView};
use crate::ports::CountryRepository;

verus! {

/// The keys of a sequence of records, in order.
pub open spec fn keys_of(s: Seq<Country>) -> Seq<KeyView> {
    s.map_values(|c: Country| c@.key())
}

/// No two records of `s` share a key.
pub open spec fn unique_keys(s: Seq<Country>) -> bool {
    forall|i: int, j: int|
        0 <= i < s.len() && 0 <= j < s.len() && i != j ==> s[i]@.key() != s[j]@.key()
}

/// Some record of `s` has key `k`.
pub open spec fn has_key(s: Seq<Country>, k: KeyView) -> bool {
    exists|i: int| 0 <= i < s.len() && s[i]@.key() == k
}

/// The records of `s` by key.
pub open spec fn records_of(s: Seq<Country>) -> Map<KeyView, CountryView> {
    keys_of(s).to_set().mk_map(
        |k: KeyView| s[choose|i: int| 0 <= i < s.len() && s[i]@.key() == k]@,
    )
}

/// A key is stored exactly when some record carries it.
proof fn lemma_records_dom(s: Seq<Country>)
    ensures
        forall|k: KeyView| #[trigger] records_of(s).contains_key(k) == has_key(s, k),
{
    assert forall|k: KeyView| #[trigger] records_of(s).contains_key(k) == has_key(s, k) by {
        if keys_of(s).contains(k) {
            let i = choose|i: int| 0 <= i < keys_of(s).len() && keys_of(s)[i] == k;
            assert(s[i]@.key() == k);
        }
        if has_key(s, k) {
            let i = choose|i: int| 0 <= i < s.len() && s[i]@.key() == k;
            assert(keys_of(s)[i] == k);
        }
    }
}

/// With unique keys, the record at index `i` is the one stored under its key.
proof fn lemma_records_at(s: Seq<Country>, i: int)
    requires
        unique_keys(s),
        0 <= i < s.len(),
    ensures
        records_of(s).contains_key(s[i]@.key()),
        records_of(s)[s[i]@.key()] == s[i]@,
{
    lemma_records_dom(s);
    let k = s[i]@.key();
    assert(has_key(s, k));
    let j = choose|j: int| 0 <= j < s.len() && s[j]@.key() == k;
    assert(j == i);
}

/// With unique keys, there are as many stored keys as records.
proof fn lemma_records_len(s: Seq<Country>)
    requires
        unique_keys(s),
    ensures
        records_of(s).len() == s.len(),
{
    let ks = keys_of(s);
    assert forall|i: int, j: int| 0 <= i < ks.len() && 0 <= j < ks.len() && i != j implies ks[i]
        != ks[j] by {
        assert(s[i]@.key() != s[j]@.key());
    }
    ks.unique_seq_to_set();
    assert(records_of(s).dom() == ks.to_set());
}

/// Overwriting the record at `i` with one of the same key replaces the stored record.
proof fn lemma_records_update(s: Seq<Country>, i: int, c: Country)
    requires
        unique_keys(s),
        0 <= i < s.len(),
        s[i]@.key() == c@.key(),
    ensures
        unique_keys(s.update(i, c)),
        records_of(s.update(i, c)) == records_of(s).insert(c@.key(), c@),
{
    let t = s.update(i, c);
    let m = records_of(s).insert(c@.key(), c@);
    assert(unique_keys(t));
    lemma_records_dom(s);
    lemma_records_dom(t);
    assert forall|k: KeyView| #[trigger] records_of(t).contains_key(k) == m.contains_key(k) by {
        if has_key(t, k) {
            let j = choose|j: int| 0 <= j < t.len() && t[j]@.key() == k;
            assert(s[j]@.key() == k);
        }
        if has_key(s, k) {
            let j = choose|j: int| 0 <= j < s.len() && s[j]@.key() == k;
            assert(t[j]@.key() == k);
        }
    }
    assert forall|k: KeyView| #[trigger] records_of(t).contains_key(k) implies records_of(t)[k]
        == m[k] by {
        let j = choose|j: int| 0 <= j < t.len() && t[j]@.key() == k;
        lemma_records_at(t, j);
        if j != i {
            lemma_records_at(s, j);
        }
    }
    assert(records_of(t) =~= m);
}

/// Appending a record with a new key adds it to the stored records.
proof fn lemma_records_push(s: Seq<Country>, c: Country)
    requires
        unique_keys(s),
        !has_key(s, c@.key()),
    ensures
        unique_keys(s.push(c)),
        records_of(s.push(c)) == records_of(s).insert(c@.key(), c@),
{
    let t = s.push(c);
    let m = records_of(s).insert(c@.key(), c@);
    assert forall|i: int, j: int|
        0 <= i < t.len() && 0 <= j < t.len() && i != j implies t[i]@.key() != t[j]@.key() by {
        if i == s.len() {
            assert(s[j]@.key() != c@.key());
        } else if j == s.len() {
            assert(s[i]@.key() != c@.key());
        }
    }
    lemma_records_dom(s);
    lemma_records_dom(t);
    assert forall|k: KeyView| #[trigger] records_of(t).contains_key(k) == m.contains_key(k) by {
        if has_key(t, k) {
            let j = choose|j: int| 0 <= j < t.len() && t[j]@.key() == k;
            if j < s.len() {
                assert(s[j]@.key() == k);
            }
        }
        if has_key(s, k) {
            let j = choose|j: int| 0 <= j < s.len() && s[j]@.key() == k;
            assert(t[j]@.key() == k);
        }
        if k == c@.key() {
            assert(t[s.len() as int]@.key() == k);
        }
    }
    assert forall|k: KeyView| #[trigger] records_of(t).contains_key(k) implies records_of(t)[k]
        == m[k] by {
        let j = choose|j: int| 0 <= j < t.len() && t[j]@.key() == k;
        lemma_records_at(t, j);
        if j < s.len() {
            lemma_records_at(s, j);
        }
    }
    assert(records_of(t) =~= m);
}

/// Removing the record at `i` removes its key from the stored records.
proof fn lemma_records_remove(s: Seq<Country>, i: int)
    requires
        unique_keys(s),
        0 <= i < s.len(),
    ensures
        unique_keys(s.remove(i)),
        records_of(s.remove(i)) == records_of(s).remove(s[i]@.key()),
{
    let t = s.remove(i);
    let m = records_of(s).remove(s[i]@.key());
    assert forall|a: int, b: int|
        0 <= a < t.len() && 0 <= b < t.len() && a != b implies t[a]@.key() != t[b]@.key() by {
        let a2 = if a < i { a } else { a + 1 };
        let b2 = if b < i { b } else { b + 1 };
        assert(t[a] == s[a2] && t[b] == s[b2]);
    }
    lemma_records_dom(s);
    lemma_records_dom(t);
    assert forall|k: KeyView| #[trigger] records_of(t).contains_key(k) == m.contains_key(k) by {
        if has_key(t, k) {
            let j = choose|j: int| 0 <= j < t.len() && t[j]@.key() == k;
            let j2 = if j < i { j } else { j + 1 };
            assert(t[j] == s[j2]);
            assert(s[j2]@.key() == k);
        }
        if has_key(s, k) && k != s[i]@.key() {
            let j = choose|j: int| 0 <= j < s.len() && s[j]@.key() == k;
            let j1 = if j < i { j } else { j - 1 };
            assert(t[j1] == s[j]);
            assert(t[j1]@.key() == k);
        }
    }
    assert forall|k: KeyView| #[trigger] records_of(t).contains_key(k) implies records_of(t)[k]
        == m[k] by {
        let j = choose|j: int| 0 <= j < t.len() && t[j]@.key() == k;
        let j2 = if j < i { j } else { j + 1 };
        assert(t[j] == s[j2]);
        lemma_records_at(t, j);
        lemma_records_at(s, j2);
    }
    assert(records_of(t) =~= m);
}

/// The size of a store moves with its operations: creating or updating a record
/// adds one key exactly when the key was absent, and removing one drops a key
/// exactly when it was present.
pub proof fn lemma_size_follows_keys(repo: &CountryMemoryRepository, country: CountryView)
    requires
        repo.wf(),
    ensures
        repo.records().contains_key(country.key()) ==> repo.records().insert(
            country.key(),
            country,
        ).len() == repo.records().len(),
        !repo.records().contains_key(country.key()) ==> repo.records().insert(
            country.key(),
            country,
        ).len() == repo.records().len() + 1,
        repo.records().contains_key(country.key()) ==> repo.records().remove(
            country.key(),
        ).len() == repo.records().len() - 1,
        !repo.records().contains_key(country.key()) ==> repo.records().remove(
            country.key(),
        ).len() == repo.records().len(),
{
    let s = repo.db@;
    let ks = keys_of(s);
    assert(records_of(s).dom() == ks.to_set());
    assert(ks.to_set().finite());
}

/// A store of country records held in process memory.
pub struct CountryMemoryRepository {
    db: Vec<Country>,
}

impl CountryMemoryRepository {
    /// An empty store.
    pub fn new() -> (r: Self)
        ensures
            r.wf(),
            r.records() == Map::<KeyView, CountryView>::empty(),
    {
        let db: Vec<Country> = Vec::new();
        let r = CountryMemoryRepository { db };
        proof {
            assert(r.records() =~= Map::<KeyView, CountryView>::empty());
        }
        r
    }

    /// The index of the record with the given key, if there is one.
    fn find(&self, name: &String, indicator: &String, year: u64) -> (r: Option<usize>)
        ensures
            match r {
                Some(i) => i < self.db@.len() && self.db@[i as int]@.key() == (
                    name@,
                    indicator@,
                    year,
                ),
                None => !has_key(self.db@, (name@, indicator@, year)),
            },
    {
        let mut i: usize = 0;
        while i < self.db.len()
            invariant
                i <= self.db@.len(),
                forall|j: int|
                    0 <= j < i ==> self.db@[j]@.key() != (name@, indicator@, year),
            decreases self.db@.len() - i,
        {
            let c = &self.db[i];
            if c.year == year && c.name == *name && c.indicator == *indicator {
                return Some(i);
            }
            i += 1;
        }
        None
    }

    /// Stores `country` under its key and reports whether a record was there.
    fn put(&mut self, country: Country) -> (r: bool)
        requires
            old(self).wf(),
        ensures
            final(self).wf(),
            r == old(self).records().contains_key(country@.key()),
            final(self).records() == old(self).records().insert(country@.key(), country@),
    {
        proof {
            lemma_records_dom(self.db@);
        }
        match self.find(&country.name, &country.indicator, country.year) {
            Some(i) => {
                proof {
                    lemma_records_update(self.db@, i as int, country);
                }
                self.db[i] = country;
                true
            },
            None => {
                proof {
                    lemma_records_push(self.db@, country);
                }
                self.db.push(country);
                false
            },
        }
    }
}

impl CountryRepository for CountryMemoryRepository {
    closed spec fn wf(&self) -> bool {
        unique_keys(self.db@)
    }

    closed spec fn records(&self) -> Map<KeyView, CountryView> {
        records_of(self.db@)
    }

    fn growth_info(&self, key: CountryKey) -> (r: Option<&Country>) {
        proof {
            lemma_records_dom(self.db@);
        }
        match self.find(&key.name, &key.indicator, key.year) {
            Some(i) => {
                proof {
                    lemma_records_at(self.db@, i as int);
                }
                Some(&self.db[i])
            },
            None => None,
        }
    }

    fn size(&self) -> (r: usize) {
        proof {
            lemma_records_len(self.db@);
        }
        self.db.len()
    }

    fn update_growth(&mut self, country: Country) -> (r: bool) {
        self.put(country);
        true
    }

    fn create_country_growth_info(&mut self, country: Country) -> (r: bool) {
        let existed = self.put(country);
        !existed
    }

    fn remove_country_growth_info(&mut self, country: Country) -> (r: bool) {
        proof {
            lemma_records_dom(self.db@);
        }
        match self.find(&country.name, &country.indicator, country.year) {
            Some(i) => {
                proof {
                    lemma_records_remove(self.db@, i as int);
                }
                self.db.remove(i);
                true
            },
            None => {
                proof {
                    assert(self.records().remove(country@.key()) =~= self.records());
                }
                false
            },
        }
    }
}

} // verus!
