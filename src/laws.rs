use vstd::prelude::*;
use crate::api::upper_of;
use crate::country::CountryView;
use crate::store::{
    code_lookup, codes_distinct, fold_ascii, has_code, lemma_seed_codes_distinct,
    lemma_without_code_subsequence, region_matches, region_select, seed_rows, seeded, without_code,
};

verus! {

/// A record that was added can be looked up by any path segment whose
/// upper-case form is its code.
pub proof fn lemma_added_record_found(rows: Seq<CountryView>, c: CountryView, path: Seq<char>)
    requires
        codes_distinct(rows),
        !has_code(rows, c.code),
        upper_of(path) == c.code,
    ensures
        code_lookup(rows.push(c), upper_of(path)) == Some(c),
{
    let all = rows.push(c);
    assert(all[rows.len() as int].code == c.code);
    let k = choose|k: int| 0 <= k < all.len() && all[k].code == c.code;
    if k != rows.len() as int {
        assert(rows[k].code == c.code);
    }
}

/// Every stored record can be looked up by any path segment whose upper-case
/// form is its code.
pub proof fn lemma_stored_record_found(rows: Seq<CountryView>, i: int, path: Seq<char>)
    requires
        codes_distinct(rows),
        0 <= i < rows.len(),
        upper_of(path) == rows[i].code,
    ensures
        code_lookup(rows, upper_of(path)) == Some(rows[i]),
{
    let k = choose|k: int| 0 <= k < rows.len() && rows[k].code == rows[i].code;
    if k != i {
        assert(rows[k].code != rows[i].code);
    }
}

/// After a record is deleted, looking up the same code finds nothing.
pub proof fn lemma_deleted_code_not_found(rows: Seq<CountryView>, code: Seq<char>)
    requires
        codes_distinct(rows),
    ensures
        code_lookup(without_code(rows, code), code) is None,
{
    lemma_without_code_subsequence(rows, code);
    let w = without_code(rows, code);
    if has_code(w, code) {
        let i = choose|i: int| 0 <= i < w.len() && w[i].code == code;
        assert(w[i].code != code);
    }
}

/// Region names that differ only in the case of ASCII letters select the
/// same records.
pub proof fn lemma_region_case_insensitive(rows: Seq<CountryView>, a: Seq<char>, b: Seq<char>)
    requires
        region_matches(a, b),
    ensures
        region_select(rows, a) == region_select(rows, b),
    decreases rows.len(),
{
    if rows.len() > 0 {
        lemma_region_case_insensitive(rows.drop_last(), a, b);
        let r = rows.last().region;
        assert(region_matches(r, a) == region_matches(r, b)) by {
            if region_matches(r, a) {
                assert forall|i: int| 0 <= i < r.len() implies fold_ascii(r[i]) == fold_ascii(
                    b[i],
                ) by {
                    assert(fold_ascii(r[i]) == fold_ascii(a[i]));
                    assert(fold_ascii(a[i]) == fold_ascii(b[i]));
                }
            }
            if region_matches(r, b) {
                assert forall|i: int| 0 <= i < r.len() implies fold_ascii(r[i]) == fold_ascii(
                    a[i],
                ) by {
                    assert(fold_ascii(r[i]) == fold_ascii(b[i]));
                    assert(fold_ascii(a[i]) == fold_ascii(b[i]));
                }
            }
        }
    }
}

/// Seeding a second time changes nothing, and seeding never makes two rows
/// share a code.
pub proof fn lemma_seeding_idempotent(rows: Seq<CountryView>)
    ensures
        seeded(seeded(rows)) == seeded(rows),
        codes_distinct(rows) ==> codes_distinct(seeded(rows)),
{
    lemma_seed_codes_distinct();
    assert(seed_rows().len() == 10);
}

} // verus!
