use vstd::prelude::*;
use crate::country::{Country, CountryView};
use crate::store::{
    code_lookup, has_code, has_region, region_select, string_views, updated_rows, views,
    without_code, CountryTable,
};

verus! {

/// What a request comes to: the status code follows from the variant.
pub enum Reply {
    /// 200: the records asked for.
    Countries(Vec<Country>),
    /// 200: the record with the code asked for.
    Found(Country),
    /// 200: the distinct regions.
    Regions(Vec<String>),
    /// 201: the record as it was stored.
    Created(Country),
    /// 200: the record as it now stands.
    Updated(Country),
    /// 204: the code of the record removed.
    Deleted(String),
    /// 404: no record has this code.
    CodeNotFound(String),
    /// 404: no record lies in this region.
    RegionNotFound(String),
    /// 400: a record with this code exists already.
    Conflict(String),
    /// 500: the store failed, with its description.
    StorageError(String),
}

impl Reply {
    /// The HTTP status code of a reply.
    pub open spec fn status_spec(&self) -> u16 {
        match self {
            Reply::Countries(_) => 200,
            Reply::Found(_) => 200,
            Reply::Regions(_) => 200,
            Reply::Created(_) => 201,
            Reply::Updated(_) => 200,
            Reply::Deleted(_) => 204,
            Reply::CodeNotFound(_) => 404,
            Reply::RegionNotFound(_) => 404,
            Reply::Conflict(_) => 400,
            Reply::StorageError(_) => 500,
        }
    }

    /// The HTTP status code of this reply.
    pub fn status(&self) -> (s: u16)
        ensures
            s == self.status_spec(),
    {
        match self {
            Reply::Countries(_) => 200,
            Reply::Found(_) => 200,
            Reply::Regions(_) => 200,
            Reply::Created(_) => 201,
            Reply::Updated(_) => 200,
            Reply::Deleted(_) => 204,
            Reply::CodeNotFound(_) => 404,
            Reply::RegionNotFound(_) => 404,
            Reply::Conflict(_) => 400,
            Reply::StorageError(_) => 500,
        }
    }
}

/// The upper-case form that `str::to_uppercase` gives of a string.
pub uninterp spec fn upper_of(s: Seq<char>) -> Seq<char>;

/// Relies on `str::to_uppercase`: the result depends on the characters alone.
#[verifier::external_body]
fn to_upper(s: &str) -> (r: String)
    ensures
        r@ == upper_of(s@),
{
    s.to_uppercase()
}

/// `GET /countries`: every record.
pub fn all_countries(table: &CountryTable) -> (r: Reply)
    ensures
        r matches Reply::Countries(v) && views(v@) == table@,
{
    Reply::Countries(table.list_all())
}

/// The reply to a lookup of a code that is already upper case.
pub fn reply_by_code(table: &CountryTable, code: &String) -> (r: Reply)
    requires
        table.wf(),
    ensures
        match r {
            Reply::Found(c) => code_lookup(table@, code@) == Some(c@),
            Reply::CodeNotFound(s) => s@ == code@ && code_lookup(table@, code@) is None,
            _ => false,
        },
{
    match table.find_by_code(code) {
        Some(c) => Reply::Found(c),
        None => Reply::CodeNotFound(code.clone()),
    }
}

/// `GET /countries/{code}`: the record whose code is the upper-case form of
/// the path segment.
pub fn country_by_code(table: &CountryTable, path: &str) -> (r: Reply)
    requires
        table.wf(),
    ensures
        match r {
            Reply::Found(c) => code_lookup(table@, upper_of(path@)) == Some(c@),
            Reply::CodeNotFound(s) => s@ == upper_of(path@) && code_lookup(
                table@,
                upper_of(path@),
            ) is None,
            _ => false,
        },
{
    let code = to_upper(path);
    reply_by_code(table, &code)
}

/// `GET /regions`: each region of the table exactly once.
pub fn get_regions(table: &CountryTable) -> (r: Reply)
    ensures
        r matches Reply::Regions(v) && {
            &&& string_views(v@).no_duplicates()
            &&& forall|i: int| 0 <= i < v@.len() ==> has_region(table@, #[trigger] v@[i]@)
            &&& forall|k: int|
                0 <= k < table@.len() ==> string_views(v@).contains(#[trigger] table@[k].region)
        },
{
    Reply::Regions(table.list_distinct_regions())
}

/// `GET /countries/region/{region}`: the records whose region matches,
/// ASCII letters without regard to case; no match at all is a 404.
pub fn countries_by_region(table: &CountryTable, region: &str) -> (r: Reply)
    ensures
        match r {
            Reply::Countries(v) => views(v@) == region_select(table@, region@) && v@.len() > 0,
            Reply::RegionNotFound(s) => s@ == region@ && region_select(table@, region@).len()
                == 0,
            _ => false,
        },
{
    let found = table.find_by_region(region);
    if found.len() == 0 {
        Reply::RegionNotFound(String::from_str(region))
    } else {
        Reply::Countries(found)
    }
}

/// `POST /countries`: stores the record as submitted, code included, unless
/// its code is taken, which leaves the table as it was.
pub fn add_country(table: &mut CountryTable, country: Country) -> (r: Reply)
    requires
        old(table).wf(),
    ensures
        final(table).wf(),
        match r {
            Reply::Created(c) => c@ == country@ && !has_code(old(table)@, country@.code)
                && final(table)@ == old(table)@.push(country@),
            Reply::Conflict(s) => s@ == country@.code && has_code(old(table)@, country@.code)
                && final(table)@ == old(table)@,
            _ => false,
        },
{
    match table.find_by_code(&country.code) {
        Some(_) => Reply::Conflict(country.code),
        None => {
            table.insert(country.duplicate());
            Reply::Created(country)
        },
    }
}

/// The reply to an update of a code that is already upper case; an update
/// never adds a row.
pub fn reply_to_update(table: &mut CountryTable, code: &String, country: &Country) -> (r: Reply)
    requires
        old(table).wf(),
    ensures
        final(table).wf(),
        final(table)@ == updated_rows(old(table)@, code@, country@),
        !has_code(old(table)@, code@) ==> final(table)@ == old(table)@,
        match r {
            Reply::Updated(c) => has_code(old(table)@, code@) && c@ == (CountryView {
                code: code@,
                ..country@
            }),
            Reply::CodeNotFound(s) => s@ == code@ && !has_code(old(table)@, code@),
            _ => false,
        },
{
    let ghost before = table@;
    let n = table.update(code, country);
    if n > 0 {
        Reply::Updated(
            Country {
                name: country.name.clone(),
                code: code.clone(),
                capital: country.capital.clone(),
                region: country.region.clone(),
                currency: country.currency.clone(),
            },
        )
    } else {
        assert(table@ =~= before);
        Reply::CodeNotFound(code.clone())
    }
}

/// `PUT /countries/{code}`: replaces the fields of the record whose code is
/// the upper-case form of the path segment; the reply carries that code.
pub fn update_country(table: &mut CountryTable, path: &str, country: Country) -> (r: Reply)
    requires
        old(table).wf(),
    ensures
        final(table).wf(),
        final(table)@ == updated_rows(old(table)@, upper_of(path@), country@),
        !has_code(old(table)@, upper_of(path@)) ==> final(table)@ == old(table)@,
        match r {
            Reply::Updated(c) => has_code(old(table)@, upper_of(path@)) && c@ == (CountryView {
                code: upper_of(path@),
                ..country@
            }),
            Reply::CodeNotFound(s) => s@ == upper_of(path@) && !has_code(
                old(table)@,
                upper_of(path@),
            ),
            _ => false,
        },
{
    let code = to_upper(path);
    reply_to_update(table, &code, &country)
}

/// The reply to a removal of a code that is already upper case.
pub fn reply_to_delete(table: &mut CountryTable, code: &String) -> (r: Reply)
    requires
        old(table).wf(),
    ensures
        final(table).wf(),
        final(table)@ == without_code(old(table)@, code@),
        match r {
            Reply::Deleted(s) => s@ == code@ && has_code(old(table)@, code@),
            Reply::CodeNotFound(s) => s@ == code@ && !has_code(old(table)@, code@),
            _ => false,
        },
{
    let n = table.delete(code);
    if n > 0 {
        Reply::Deleted(code.clone())
    } else {
        Reply::CodeNotFound(code.clone())
    }
}

/// `DELETE /countries/{code}`: removes the record whose code is the
/// upper-case form of the path segment.
pub fn delete_country(table: &mut CountryTable, path: &str) -> (r: Reply)
    requires
        old(table).wf(),
    ensures
        final(table).wf(),
        final(table)@ == without_code(old(table)@, upper_of(path@)),
        match r {
            Reply::Deleted(s) => s@ == upper_of(path@) && has_code(old(table)@, upper_of(path@)),
            Reply::CodeNotFound(s) => s@ == upper_of(path@) && !has_code(
                old(table)@,
                upper_of(path@),
            ),
            _ => false,
        },
{
    let code = to_upper(path);
    reply_to_delete(table, &code)
}

} // verus!
