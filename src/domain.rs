use vstd::prelude::*;

verus! {

/// What identifies a record, as a mathematical value: name, indicator, year.
pub type KeyView = (Seq<char>, Seq<char>, u64);

/// One growth indicator of one country in one year.
pub struct Country {
    pub name: String,
    pub indicator: String,
    /// The IEEE 754 bit pattern of the indicator's value; the store never reads it.
    pub value_bits: u64,
    pub year: u64,
}

/// A record's contents as mathematical values.
pub struct CountryView {
    pub name: Seq<char>,
    pub indicator: Seq<char>,
    pub value_bits: u64,
    pub year: u64,
}

impl CountryView {
    /// The key under which the record is stored.
    pub open spec fn key(self) -> KeyView {
        (self.name, self.indicator, self.year)
    }
}

impl View for Country {
    type V = CountryView;

    open spec fn view(&self) -> CountryView {
        CountryView {
            name: self.name@,
            indicator: self.indicator@,
            value_bits: self.value_bits,
            year: self.year,
        }
    }
}

impl Country {
    /// The key under which this record is stored.
    pub fn key(&self) -> (r: CountryKey)
        ensures
            r@ == self@.key(),
    {
        CountryKey { name: self.name.clone(), indicator: self.indicator.clone(), year: self.year }
    }
}

/// The structured key of a record. Being a tuple of fields rather than one
/// concatenated string, two different triples never share a key.
pub struct CountryKey {
    pub name: String,
    pub indicator: String,
    pub year: u64,
}

impl View for CountryKey {
    type V = KeyView;

    open spec fn view(&self) -> KeyView {
        (self.name@, self.indicator@, self.year)
    }
}

} // verus!
