use vstd::prelude::*;

verus! {

/// One record of the countries table.
#[derive(Clone, Debug)]
pub struct Country {
    pub name: String,
    pub code: String,
    pub capital: String,
    pub region: String,
    pub currency: String,
}

/// The mathematical value of a record: its five fields as character sequences.
pub struct CountryView {
    pub name: Seq<char>,
    pub code: Seq<char>,
    pub capital: Seq<char>,
    pub region: Seq<char>,
    pub currency: Seq<char>,
}

impl View for Country {
    type V = CountryView;

    open spec fn view(&self) -> CountryView {
        CountryView {
            name: self.name@,
            code: self.code@,
            capital: self.capital@,
            region: self.region@,
            currency: self.currency@,
        }
    }
}

impl Country {
    /// A field-by-field copy of the record.
    pub fn duplicate(&self) -> (r: Country)
        ensures
            r@ == self@,
    {
        Country {
            name: self.name.clone(),
            code: self.code.clone(),
            capital: self.capital.clone(),
            region: self.region.clone(),
            currency: self.currency.clone(),
        }
    }
}

} // verus!
