use vstd::prelude::*;

use crate::domain::{Country, CountryKey, CountryView, KeyView};

verus! {

/// A store of country records, at most one per key.
pub trait CountryRepository {
    /// The store's internal invariant.
    spec fn wf(&self) -> bool;

    /// The stored records, by key.
    spec fn records(&self) -> Map<KeyView, CountryView>;

    /// The record stored under `key`, if any.
    fn growth_info(&self, key: CountryKey) -> (r: Option<&Country>)
        requires
            self.wf(),
        ensures
            r.is_some() == self.records().contains_key(key@),
            r matches Some(c) ==> c@ == self.records()[key@],
    ;

    /// The number of distinct keys stored.
    fn size(&self) -> (r: usize)
        requires
            self.wf(),
        ensures
            r == self.records().len(),
    ;

    /// Stores `country` under its key, replacing any record there; always succeeds.
    fn update_growth(&mut self, country: Country) -> (r: bool)
        requires
            old(self).wf(),
        ensures
            final(self).wf(),
            r,
            final(self).records() == old(self).records().insert(country@.key(), country@),
    ;

    /// Stores `country` under its key, replacing any record there; reports
    /// success exactly when no record had that key before.
    fn create_country_growth_info(&mut self, country: Country) -> (r: bool)
        requires
            old(self).wf(),
        ensures
            final(self).wf(),
            r == !old(self).records().contains_key(country@.key()),
            final(self).records() == old(self).records().insert(country@.key(), country@),
    ;

    /// Removes the record stored under `country`'s key; reports success
    /// exactly when there was one.
    fn remove_country_growth_info(&mut self, country: Country) -> (r: bool)
        requires
            old(self).wf(),
        ensures
            final(self).wf(),
            r == old(self).records().contains_key(country@.key()),
            final(self).records() == old(self).records().remove(country@.key()),
    ;
}

} // verus!
