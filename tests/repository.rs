use grow::domain::{Country, CountryKey};
use grow::http::Server;
use grow::memory::CountryMemoryRepository;
use grow::ports::CountryRepository;
use grow::services::{
    GrowthInformationService, LoadGrowthInformationService, RemoveGrowthInformationService,
    StatusProcessService, UpdateGrowthInformationService,
};

fn country(name: &str, indicator: &str, value: f64, year: u64) -> Country {
    Country {
        name: name.to_string(),
        indicator: indicator.to_string(),
        value_bits: value.to_bits(),
        year,
    }
}

fn key(name: &str, indicator: &str, year: u64) -> CountryKey {
    CountryKey { name: name.to_string(), indicator: indicator.to_string(), year }
}

#[test]
fn new_repository_is_empty() {
    let repo = CountryMemoryRepository::new();
    assert_eq!(repo.size(), 0);
    assert!(repo.growth_info(key("Brazil", "gdp", 2020)).is_none());
}

#[test]
fn create_succeeds_on_new_key() {
    let mut repo = CountryMemoryRepository::new();
    assert!(repo.create_country_growth_info(country("Brazil", "gdp", 1.5, 2020)));
    assert_eq!(repo.size(), 1);
    let found = repo.growth_info(key("Brazil", "gdp", 2020)).unwrap();
    assert_eq!(found.name, "Brazil");
    assert_eq!(found.indicator, "gdp");
    assert_eq!(found.year, 2020);
    assert_eq!(f64::from_bits(found.value_bits), 1.5);
}

#[test]
fn create_fails_on_existing_key_and_overwrites() {
    let mut repo = CountryMemoryRepository::new();
    assert!(repo.create_country_growth_info(country("Brazil", "gdp", 1.5, 2020)));
    assert!(!repo.create_country_growth_info(country("Brazil", "gdp", 2.5, 2020)));
    assert_eq!(repo.size(), 1);
    let found = repo.growth_info(key("Brazil", "gdp", 2020)).unwrap();
    assert_eq!(f64::from_bits(found.value_bits), 2.5);
}

#[test]
fn update_always_succeeds_and_overwrites() {
    let mut repo = CountryMemoryRepository::new();
    assert!(repo.update_growth(country("Chile", "inflation", 3.0, 2019)));
    assert_eq!(repo.size(), 1);
    assert!(repo.update_growth(country("Chile", "inflation", 4.0, 2019)));
    assert_eq!(repo.size(), 1);
    let found = repo.growth_info(key("Chile", "inflation", 2019)).unwrap();
    assert_eq!(f64::from_bits(found.value_bits), 4.0);
}

#[test]
fn remove_reports_whether_a_record_existed() {
    let mut repo = CountryMemoryRepository::new();
    assert!(!repo.remove_country_growth_info(country("Peru", "gdp", 0.0, 2018)));
    repo.create_country_growth_info(country("Peru", "gdp", 1.0, 2018));
    repo.create_country_growth_info(country("Peru", "gdp", 1.0, 2019));
    assert!(repo.remove_country_growth_info(country("Peru", "gdp", 9.0, 2018)));
    assert_eq!(repo.size(), 1);
    assert!(repo.growth_info(key("Peru", "gdp", 2018)).is_none());
    assert!(repo.growth_info(key("Peru", "gdp", 2019)).is_some());
    assert!(!repo.remove_country_growth_info(country("Peru", "gdp", 1.0, 2018)));
}

#[test]
fn size_counts_distinct_keys_after_operations() {
    let mut repo = CountryMemoryRepository::new();
    repo.create_country_growth_info(country("A", "x", 1.0, 1));
    repo.create_country_growth_info(country("A", "y", 1.0, 1));
    repo.create_country_growth_info(country("B", "x", 1.0, 1));
    repo.update_growth(country("A", "x", 2.0, 1));
    repo.update_growth(country("A", "x", 2.0, 2));
    assert_eq!(repo.size(), 4);
    repo.remove_country_growth_info(country("A", "y", 1.0, 1));
    repo.remove_country_growth_info(country("Z", "y", 1.0, 1));
    assert_eq!(repo.size(), 3);
}

#[test]
fn keys_that_concatenate_alike_stay_distinct() {
    let mut repo = CountryMemoryRepository::new();
    assert!(repo.create_country_growth_info(country("AB", "", 1.0, 1)));
    assert!(repo.create_country_growth_info(country("A", "B", 2.0, 1)));
    assert!(repo.create_country_growth_info(country("A", "B1", 3.0, 1)));
    assert!(repo.create_country_growth_info(country("A", "B", 4.0, 11)));
    assert_eq!(repo.size(), 4);
    let found = repo.growth_info(key("AB", "", 1)).unwrap();
    assert_eq!(f64::from_bits(found.value_bits), 1.0);
}

#[test]
fn lookup_misses_on_any_differing_field() {
    let mut repo = CountryMemoryRepository::new();
    repo.create_country_growth_info(country("Brazil", "gdp", 1.5, 2020));
    assert!(repo.growth_info(key("Brasil", "gdp", 2020)).is_none());
    assert!(repo.growth_info(key("Brazil", "GDP", 2020)).is_none());
    assert!(repo.growth_info(key("Brazil", "gdp", 2021)).is_none());
}

#[test]
fn country_key_copies_identifying_fields() {
    let c = country("Brazil", "gdp", 1.5, 2020);
    let k = c.key();
    assert_eq!(k.name, "Brazil");
    assert_eq!(k.indicator, "gdp");
    assert_eq!(k.year, 2020);
    let mut repo = CountryMemoryRepository::new();
    repo.create_country_growth_info(c);
    assert!(repo.growth_info(k).is_some());
}

#[test]
fn largest_year_is_a_valid_key() {
    let mut repo = CountryMemoryRepository::new();
    assert!(repo.create_country_growth_info(country("X", "y", 1.0, u64::MAX)));
    assert!(repo.growth_info(key("X", "y", u64::MAX)).is_some());
    assert!(repo.remove_country_growth_info(country("X", "y", 1.0, u64::MAX)));
    assert_eq!(repo.size(), 0);
}

#[test]
fn server_and_services_construct() {
    let _server = Server::new();
    let _a = StatusProcessService {};
    let _b = GrowthInformationService {};
    let _c = LoadGrowthInformationService {};
    let _d = UpdateGrowthInformationService {};
    let _e = RemoveGrowthInformationService {};
}
