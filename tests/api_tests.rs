use world_countries_api::{
    all_countries, countries_by_region, country_by_code, get_regions, seed_countries, Country,
    CountryTable, Reply,
};

fn seeded_table() -> CountryTable {
    let mut t = CountryTable::new();
    seed_countries(&mut t);
    t
}

fn countries_of(r: Reply) -> Vec<Country> {
    match r {
        Reply::Countries(v) => v,
        _ => panic!("expected a list of countries"),
    }
}

fn found_of(r: Reply) -> Country {
    match r {
        Reply::Found(c) => c,
        _ => panic!("expected one country"),
    }
}

#[test]
fn test_all_countries() {
    let t = seeded_table();
    let resp = all_countries(&t);
    assert!(resp.status() >= 200 && resp.status() < 300);
    let countries = countries_of(resp);
    assert_eq!(countries.len(), 10);
    assert!(countries.iter().any(|c| c.code == "US"));
    assert!(countries.iter().any(|c| c.code == "JP"));
}

#[test]
fn test_country_by_code_found() {
    let t = seeded_table();
    let resp = country_by_code(&t, "US");
    assert!(resp.status() >= 200 && resp.status() < 300);
    let country = found_of(resp);
    assert_eq!(country.code, "US");
    assert_eq!(country.name, "United States");
    assert_eq!(country.capital, "Washington, D.C.");
}

#[test]
fn test_country_by_code_not_found() {
    let t = seeded_table();
    let resp = country_by_code(&t, "XX");
    assert_eq!(resp.status(), 404);
}

#[test]
fn test_country_by_code_case_insensitive() {
    let t = seeded_table();
    let resp = country_by_code(&t, "us");
    assert!(resp.status() >= 200 && resp.status() < 300);
    let country = found_of(resp);
    assert_eq!(country.code, "US");
}

#[test]
fn test_get_regions() {
    let t = seeded_table();
    let resp = get_regions(&t);
    assert!(resp.status() >= 200 && resp.status() < 300);
    let regions = match resp {
        Reply::Regions(v) => v,
        _ => panic!("expected regions"),
    };
    assert!(regions.contains(&"Europe".to_string()));
    assert!(regions.contains(&"Asia".to_string()));
    assert!(regions.contains(&"North America".to_string()));
    // Europe, Asia, North America, Oceania, South America, Africa
    assert_eq!(regions.len(), 6);
}

#[test]
fn test_countries_by_region() {
    let t = seeded_table();
    let resp = countries_by_region(&t, "Europe");
    assert!(resp.status() >= 200 && resp.status() < 300);
    let countries = countries_of(resp);
    assert!(countries.iter().all(|c| c.region == "Europe"));
    assert!(countries.iter().any(|c| c.code == "GB"));
    assert!(countries.iter().any(|c| c.code == "DE"));
    assert!(countries.iter().any(|c| c.code == "FR"));
}

#[test]
fn test_countries_by_region_case_insensitive() {
    let t = seeded_table();
    let resp = countries_by_region(&t, "europe");
    assert!(resp.status() >= 200 && resp.status() < 300);
    let countries = countries_of(resp);
    assert!(!countries.is_empty());
    assert!(countries.iter().all(|c| c.region.to_lowercase() == "europe"));
}

#[test]
fn test_countries_by_region_not_found() {
    let t = seeded_table();
    let resp = countries_by_region(&t, "Unknown");
    assert_eq!(resp.status(), 404);
}
