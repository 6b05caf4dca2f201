use vstd::prelude::*;
use vstd::string::*;
use crate::country::{Country, CountryView};

verus! {

/// No two rows share a code.
pub open spec fn codes_distinct(rows: Seq<CountryView>) -> bool {
    forall|i: int, j: int|
        0 <= i < rows.len() && 0 <= j < rows.len() && i != j ==> rows[i].code != rows[j].code
}

/// Some row carries exactly this code.
pub open spec fn has_code(rows: Seq<CountryView>, code: Seq<char>) -> bool {
    exists|i: int| 0 <= i < rows.len() && rows[i].code == code
}

/// The row whose code is exactly `code`, if there is one.
pub open spec fn code_lookup(rows: Seq<CountryView>, code: Seq<char>) -> Option<CountryView> {
    if has_code(rows, code) {
        Some(rows[choose|i: int| 0 <= i < rows.len() && rows[i].code == code])
    } else {
        None
    }
}

/// A character's value with ASCII upper-case letters mapped to lower case;
/// every other character keeps its own value.
pub open spec fn fold_ascii(c: char) -> int {
    let n = c as u32 as int;
    if 65 <= n <= 90 {
        n + 32
    } else {
        n
    }
}

/// Two region names are equal when ASCII letters are compared without regard
/// to case.
pub open spec fn region_matches(a: Seq<char>, b: Seq<char>) -> bool {
    &&& a.len() == b.len()
    &&& forall|i: int| 0 <= i < a.len() ==> fold_ascii(a[i]) == fold_ascii(b[i])
}

/// The rows whose region matches `region`, in table order.
pub open spec fn region_select(rows: Seq<CountryView>, region: Seq<char>) -> Seq<CountryView>
    decreases rows.len(),
{
    if rows.len() == 0 {
        Seq::empty()
    } else {
        let prev = region_select(rows.drop_last(), region);
        if region_matches(rows.last().region, region) {
            prev.push(rows.last())
        } else {
            prev
        }
    }
}

/// The rows whose code differs from `code`, in table order.
pub open spec fn without_code(rows: Seq<CountryView>, code: Seq<char>) -> Seq<CountryView>
    decreases rows.len(),
{
    if rows.len() == 0 {
        Seq::empty()
    } else {
        let prev = without_code(rows.drop_last(), code);
        if rows.last().code != code {
            prev.push(rows.last())
        } else {
            prev
        }
    }
}

/// A row with every field but its code taken from `fields`.
pub open spec fn with_fields(row: CountryView, fields: CountryView) -> CountryView {
    CountryView { code: row.code, ..fields }
}

/// The rows after an update: the row with `code`, if any, takes the fields of
/// `fields` but keeps its code; the others stay as they are.
pub open spec fn updated_rows(
    rows: Seq<CountryView>,
    code: Seq<char>,
    fields: CountryView,
) -> Seq<CountryView> {
    Seq::new(
        rows.len(),
        |i: int|
            if rows[i].code == code {
                with_fields(rows[i], fields)
            } else {
                rows[i]
            },
    )
}

/// Some row has this region, exactly.
pub open spec fn has_region(rows: Seq<CountryView>, region: Seq<char>) -> bool {
    exists|k: int| 0 <= k < rows.len() && rows[k].region == region
}

/// The views of a sequence of records.
pub open spec fn views(v: Seq<Country>) -> Seq<CountryView> {
    v.map_values(|c: Country| c@)
}

/// The views of a sequence of strings.
pub open spec fn string_views(v: Seq<String>) -> Seq<Seq<char>> {
    v.map_values(|s: String| s@)
}

/// A record built from five strings.
pub open spec fn record(
    name: &str,
    code: &str,
    capital: &str,
    region: &str,
    currency: &str,
) -> CountryView {
    CountryView { name: name@, code: code@, capital: capital@, region: region@, currency: currency@ }
}

/// The ten records that an empty table is seeded with.
pub open spec fn seed_rows() -> Seq<CountryView> {
    seq![
        record("United States", "US", "Washington, D.C.", "North America", "USD"),
        record("Canada", "CA", "Ottawa", "North America", "CAD"),
        record("United Kingdom", "GB", "London", "Europe", "GBP"),
        record("Germany", "DE", "Berlin", "Europe", "EUR"),
        record("France", "FR", "Paris", "Europe", "EUR"),
        record("Japan", "JP", "Tokyo", "Asia", "JPY"),
        record("Australia", "AU", "Canberra", "Oceania", "AUD"),
        record("Brazil", "BR", "Brasília", "South America", "BRL"),
        record("South Africa", "ZA", "Pretoria", "Africa", "ZAR"),
        record("India", "IN", "New Delhi", "Asia", "INR"),
    ]
}

/// The table after seeding: the seed records if it was empty, else unchanged.
pub open spec fn seeded(rows: Seq<CountryView>) -> Seq<CountryView> {
    if rows.len() == 0 {
        seed_rows()
    } else {
        rows
    }
}

/// The seed records have distinct codes.
pub proof fn lemma_seed_codes_distinct()
    ensures
        codes_distinct(seed_rows()),
{
    reveal_strlit("US");
    reveal_strlit("CA");
    reveal_strlit("GB");
    reveal_strlit("DE");
    reveal_strlit("FR");
    reveal_strlit("JP");
    reveal_strlit("AU");
    reveal_strlit("BR");
    reveal_strlit("ZA");
    reveal_strlit("IN");
    let s = seed_rows();
    assert forall|i: int, j: int| 0 <= i < s.len() && 0 <= j < s.len() && i != j implies s[i].code
        != s[j].code by {
        assert(s[i].code[0] != s[j].code[0] || s[i].code[1] != s[j].code[1]);
    }
}

/// Builds one record from string literals.
fn make_record(name: &str, code: &str, capital: &str, region: &str, currency: &str) -> (r:
    Country)
    ensures
        r@ == record(name, code, capital, region, currency),
{
    Country {
        name: String::from_str(name),
        code: String::from_str(code),
        capital: String::from_str(capital),
        region: String::from_str(region),
        currency: String::from_str(currency),
    }
}

/// The ten seed records, in seeding order.
pub fn seed_records() -> (r: Vec<Country>)
    ensures
        views(r@) == seed_rows(),
{
    let r = vec![
        make_record("United States", "US", "Washington, D.C.", "North America", "USD"),
        make_record("Canada", "CA", "Ottawa", "North America", "CAD"),
        make_record("United Kingdom", "GB", "London", "Europe", "GBP"),
        make_record("Germany", "DE", "Berlin", "Europe", "EUR"),
        make_record("France", "FR", "Paris", "Europe", "EUR"),
        make_record("Japan", "JP", "Tokyo", "Asia", "JPY"),
        make_record("Australia", "AU", "Canberra", "Oceania", "AUD"),
        make_record("Brazil", "BR", "Brasília", "South America", "BRL"),
        make_record("South Africa", "ZA", "Pretoria", "Africa", "ZAR"),
        make_record("India", "IN", "New Delhi", "Asia", "INR"),
    ];
    assert(views(r@) =~= seed_rows());
    r
}
/// Every row kept by `without_code` comes from the original rows, in order,
/// so distinct codes stay distinct.
pub proof fn lemma_without_code_subsequence(rows: Seq<CountryView>, code: Seq<char>)
    requires
        codes_distinct(rows),
    ensures
        codes_distinct(without_code(rows, code)),
        forall|i: int|
            0 <= i < without_code(rows, code).len() ==> #[trigger] without_code(rows, code)[i].code
                != code && rows.contains(without_code(rows, code)[i]),
    decreases rows.len(),
{
    if rows.len() > 0 {
        let prev = rows.drop_last();
        assert(codes_distinct(prev)) by {
            assert forall|i: int, j: int|
                0 <= i < prev.len() && 0 <= j < prev.len() && i != j implies prev[i].code
                != prev[j].code by {
                assert(prev[i] == rows[i] && prev[j] == rows[j]);
            }
        }
        lemma_without_code_subsequence(prev, code);
        let w = without_code(rows, code);
        let pw = without_code(prev, code);
        assert forall|i: int| 0 <= i < pw.len() implies #[trigger] pw[i].code != code
            && rows.contains(pw[i]) by {
            assert(pw[i].code != code);
            assert(prev.contains(pw[i]));
            let m = choose|m: int| 0 <= m < prev.len() && prev[m] == pw[i];
            assert(rows[m] == pw[i]);
        }
        if rows.last().code != code {
            assert forall|i: int| 0 <= i < pw.len() implies #[trigger] pw[i].code
                != rows.last().code by {
                assert(pw[i].code != code);
                assert(prev.contains(pw[i]));
                let m = choose|m: int| 0 <= m < prev.len() && prev[m] == pw[i];
                assert(rows[m] == pw[i]);
                assert(m != rows.len() - 1);
            }
            assert(rows[rows.len() - 1] == rows.last());
        }
    }
}

/// The single table of countries, kept in insertion order.
pub struct CountryTable {
    rows: Vec<Country>,
}

impl View for CountryTable {
    type V = Seq<CountryView>;

    closed spec fn view(&self) -> Seq<CountryView> {
        views(self.rows@)
    }
}

/// Whether two characters are equal once ASCII letters are folded to lower case.
fn chars_match(a: char, b: char) -> (r: bool)
    ensures
        r == (fold_ascii(a) == fold_ascii(b)),
{
    let x = a as u32;
    let y = b as u32;
    let fx: u32 = if 65 <= x && x <= 90 { x + 32 } else { x };
    let fy: u32 = if 65 <= y && y <= 90 { y + 32 } else { y };
    fx == fy
}

/// Compares two region names, ASCII letters without regard to case.
pub fn region_eq(a: &str, b: &str) -> (r: bool)
    ensures
        r == region_matches(a@, b@),
{
    let n = a.unicode_len();
    if n != b.unicode_len() {
        return false;
    }
    let mut i: usize = 0;
    while i < n
        invariant
            n == a@.len(),
            n == b@.len(),
            i <= n,
            forall|j: int| 0 <= j < i ==> fold_ascii(a@[j]) == fold_ascii(b@[j]),
        decreases n - i,
    {
        if !chars_match(a.get_char(i), b.get_char(i)) {
            return false;
        }
        i = i + 1;
    }
    true
}

impl CountryTable {
    /// The table's invariant: codes are unique.
    pub open spec fn wf(&self) -> bool {
        codes_distinct(self@)
    }

    /// An empty table.
    pub fn new() -> (t: CountryTable)
        ensures
            t@ == Seq::<CountryView>::empty(),
            t.wf(),
    {
        let t = CountryTable { rows: Vec::new() };
        assert(t@ =~= Seq::<CountryView>::empty());
        t
    }

    /// The number of rows.
    pub fn len(&self) -> (n: usize)
        ensures
            n == self@.len(),
    {
        self.rows.len()
    }

    /// Every row, in table order.
    pub fn list_all(&self) -> (r: Vec<Country>)
        ensures
            views(r@) == self@,
    {
        let mut out: Vec<Country> = Vec::new();
        let mut i: usize = 0;
        while i < self.rows.len()
            invariant
                i <= self.rows@.len(),
                views(out@) =~= views(self.rows@).subrange(0, i as int),
            decreases self.rows@.len() - i,
        {
            let ghost before = out@;
            let c = self.rows[i].duplicate();
            out.push(c);
            assert(views(out@) =~= views(before).push(c@));
            assert(views(self.rows@).subrange(0, i + 1) =~= views(self.rows@).subrange(
                0,
                i as int,
            ).push(self.rows@[i as int]@));
            i = i + 1;
        }
        assert(views(self.rows@).subrange(0, i as int) =~= views(self.rows@));
        out
    }

    /// The position of the row whose code is exactly `code`, if any.
    fn position(&self, code: &String) -> (r: Option<usize>)
        requires
            self.wf(),
        ensures
            r is None <==> !has_code(self@, code@),
            r matches Some(i) ==> i < self@.len() && self@[i as int].code == code@
                && code_lookup(self@, code@) == Some(self@[i as int]),
    {
        let mut i: usize = 0;
        while i < self.rows.len()
            invariant
                i <= self.rows@.len(),
                self@ == views(self.rows@),
                codes_distinct(self@),
                forall|j: int| 0 <= j < i ==> self@[j].code != code@,
            decreases self.rows@.len() - i,
        {
            if self.rows[i].code == *code {
                proof {
                    assert(self@[i as int] == self.rows@[i as int]@);
                    assert(self@[i as int].code == code@);
                    let k = choose|k: int| 0 <= k < self@.len() && self@[k].code == code@;
                    assert(k == i as int) by {
                        if k != i as int {
                            assert(self@[k].code != self@[i as int].code);
                        }
                    }
                }
                return Some(i);
            }
            i = i + 1;
        }
        None
    }

    /// The row whose code is exactly `code`: letter case must already match.
    pub fn find_by_code(&self, code: &String) -> (r: Option<Country>)
        requires
            self.wf(),
        ensures
            r is None <==> !has_code(self@, code@),
            r matches Some(c) ==> code_lookup(self@, code@) == Some(c@),
            r matches Some(c) ==> c@.code == code@,
    {
        match self.position(code) {
            Some(i) => Some(self.rows[i].duplicate()),
            None => None,
        }
    }

    /// The rows whose region matches `region`, ASCII letters without regard to case.
    pub fn find_by_region(&self, region: &str) -> (r: Vec<Country>)
        ensures
            views(r@) == region_select(self@, region@),
    {
        let mut out: Vec<Country> = Vec::new();
        let mut i: usize = 0;
        while i < self.rows.len()
            invariant
                i <= self.rows@.len(),
                self@ == views(self.rows@),
                views(out@) == region_select(self@.subrange(0, i as int), region@),
            decreases self.rows@.len() - i,
        {
            assert(self@.subrange(0, i + 1).drop_last() =~= self@.subrange(0, i as int));
            let hit = region_eq(self.rows[i].region.as_str(), region);
            if hit {
                out.push(self.rows[i].duplicate());
            }
            assert(views(out@) =~= region_select(self@.subrange(0, i + 1), region@));
            i = i + 1;
        }
        assert(self@.subrange(0, i as int) =~= self@);
        out
    }

    /// Each region that occurs in the table, exactly once.
    pub fn list_distinct_regions(&self) -> (r: Vec<String>)
        ensures
            string_views(r@).no_duplicates(),
            forall|i: int| 0 <= i < r@.len() ==> has_region(self@, #[trigger] r@[i]@),
            forall|k: int|
                0 <= k < self@.len() ==> string_views(r@).contains(#[trigger] self@[k].region),
    {
        let mut out: Vec<String> = Vec::new();
        let mut k: usize = 0;
        while k < self.rows.len()
            invariant
                k <= self.rows@.len(),
                self@ == views(self.rows@),
                string_views(out@).no_duplicates(),
                forall|i: int| 0 <= i < out@.len() ==> has_region(self@, #[trigger] out@[i]@),
                forall|j: int|
                    0 <= j < k ==> string_views(out@).contains(#[trigger] self@[j].region),
            decreases self.rows@.len() - k,
        {
            let region = &self.rows[k].region;
            let mut seen = false;
            let mut i: usize = 0;
            while i < out.len()
                invariant
                    i <= out@.len(),
                    region@ == self@[k as int].region,
                    seen <==> exists|m: int| 0 <= m < i && out@[m]@ == region@,
                decreases out@.len() - i,
            {
                if out[i] == *region {
                    seen = true;
                }
                i = i + 1;
            }
            assert(has_region(self@, region@)) by {
                assert(self@[k as int].region == region@);
            }
            if seen {
                let ghost m = choose|m: int| 0 <= m < out@.len() && out@[m]@ == region@;
                assert(string_views(out@)[m] == region@);
            } else {
                let ghost before = out@;
                out.push(region.clone());
                assert(string_views(out@) =~= string_views(before).push(region@));
                assert(string_views(out@)[out@.len() - 1] == region@);
                assert forall|j: int| 0 <= j < k implies string_views(out@).contains(
                    #[trigger] self@[j].region,
                ) by {
                    let m = choose|m: int|
                        0 <= m < string_views(before).len() && string_views(before)[m]
                            == self@[j].region;
                    assert(string_views(out@)[m] == self@[j].region);
                }
            }
            k = k + 1;
        }
        out
    }


    /// Adds a row whose code is not yet in the table.
    pub fn insert(&mut self, c: Country)
        requires
            old(self).wf(),
            !has_code(old(self)@, c@.code),
        ensures
            final(self)@ == old(self)@.push(c@),
            final(self).wf(),
    {
        let ghost before = self@;
        self.rows.push(c);
        assert(self@ =~= before.push(c@));
    }

    /// Builds a table from rows; `None` when two rows share a code.
    pub fn from_rows(rows: Vec<Country>) -> (r: Option<CountryTable>)
        ensures
            r is Some <==> codes_distinct(views(rows@)),
            r matches Some(t) ==> t@ == views(rows@) && t.wf(),
    {
        let mut t = CountryTable::new();
        let mut k: usize = 0;
        while k < rows.len()
            invariant
                k <= rows@.len(),
                t.wf(),
                t@ == views(rows@).subrange(0, k as int),
            decreases rows@.len() - k,
        {
            let c = rows[k].duplicate();
            match t.position(&c.code) {
                Some(i) => {
                    proof {
                        assert(views(rows@)[i as int].code == views(rows@)[k as int].code);
                    }
                    return None;
                },
                None => {
                    t.insert(c);
                    assert(t@ =~= views(rows@).subrange(0, k + 1));
                },
            }
            k = k + 1;
        }
        assert(views(rows@).subrange(0, k as int) =~= views(rows@));
        Some(t)
    }

    /// Replaces every field but the code of the row whose code is exactly
    /// `code`; returns the number of rows changed (0 or 1).
    pub fn update(&mut self, code: &String, fields: &Country) -> (r: usize)
        requires
            old(self).wf(),
        ensures
            final(self)@ == updated_rows(old(self)@, code@, fields@),
            r == (if has_code(old(self)@, code@) { 1usize } else { 0usize }),
            final(self).wf(),
    {
        let ghost before = self@;
        match self.position(code) {
            Some(i) => {
                let c = Country {
                    name: fields.name.clone(),
                    code: self.rows[i].code.clone(),
                    capital: fields.capital.clone(),
                    region: fields.region.clone(),
                    currency: fields.currency.clone(),
                };
                self.rows.set(i, c);
                proof {
                    assert forall|j: int| 0 <= j < before.len() && j != i implies before[j].code
                        != code@ by {
                        assert(before[j].code != before[i as int].code);
                    }
                    assert(self@ =~= updated_rows(before, code@, fields@));
                }
                1
            },
            None => {
                assert(self@ =~= updated_rows(before, code@, fields@));
                0
            },
        }
    }

    /// Removes the row whose code is exactly `code`; returns the number of
    /// rows removed (0 or 1).
    pub fn delete(&mut self, code: &String) -> (r: usize)
        requires
            old(self).wf(),
        ensures
            final(self)@ == without_code(old(self)@, code@),
            r == (if has_code(old(self)@, code@) { 1usize } else { 0usize }),
            final(self).wf(),
    {
        let ghost before = self@;
        let found = self.position(code);
        let mut out: Vec<Country> = Vec::new();
        let mut k: usize = 0;
        while k < self.rows.len()
            invariant
                k <= self.rows@.len(),
                self@ == before,
                self@ == views(self.rows@),
                views(out@) == without_code(before.subrange(0, k as int), code@),
            decreases self.rows@.len() - k,
        {
            assert(before.subrange(0, k + 1).drop_last() =~= before.subrange(0, k as int));
            if self.rows[k].code != *code {
                out.push(self.rows[k].duplicate());
            }
            assert(views(out@) =~= without_code(before.subrange(0, k + 1), code@));
            k = k + 1;
        }
        assert(before.subrange(0, k as int) =~= before);
        self.rows = out;
        proof {
            lemma_without_code_subsequence(before, code@);
        }
        match found {
            Some(_) => 1,
            None => 0,
        }
    }
}

/// Fills an empty table with the seed records; a table that holds rows is
/// left as it is, so seeding twice adds nothing the second time. Returns the
/// number of rows added.
pub fn seed_countries(table: &mut CountryTable) -> (r: usize)
    requires
        old(table).wf(),
    ensures
        final(table)@ == seeded(old(table)@),
        r == final(table)@.len() - old(table)@.len(),
        final(table).wf(),
{
    if table.rows.len() == 0 {
        table.rows = seed_records();
        proof {
            lemma_seed_codes_distinct();
        }
        10
    } else {
        0
    }
}

} // verus!
