use peybot::currency::Currency;
use peybot::snapshot::Snapshot;

#[test]
fn new_snapshot_is_empty() {
    let snapshot = Snapshot::new();
    for tag in [Currency::Usd, Currency::Eur, Currency::Aed, Currency::Cny] {
        assert_eq!(snapshot.get(tag), None);
        assert!(!snapshot.contains(tag));
    }
}

#[test]
fn insert_sets_one_entry() {
    let mut snapshot = Snapshot::new();
    snapshot.insert(Currency::Aed, 286_000);
    assert_eq!(snapshot.get(Currency::Aed), Some(286_000));
    assert!(snapshot.contains(Currency::Aed));
    assert_eq!(snapshot.get(Currency::Usd), None);
    assert_eq!(snapshot.get(Currency::Eur), None);
    assert_eq!(snapshot.get(Currency::Cny), None);
    assert_eq!(snapshot, Snapshot { usd: None, eur: None, aed: Some(286_000), cny: None });
}

#[test]
fn currencies_follow_the_fixed_order() {
    assert_eq!(Currency::first(), Currency::Usd);
    assert_eq!(Currency::Usd.next(), Some(Currency::Eur));
    assert_eq!(Currency::Eur.next(), Some(Currency::Aed));
    assert_eq!(Currency::Aed.next(), Some(Currency::Cny));
    assert_eq!(Currency::Cny.next(), None);
}

#[test]
fn currencies_have_codes_and_sources() {
    assert_eq!(Currency::Usd.code(), "USD");
    assert_eq!(Currency::Eur.code(), "EUR");
    assert_eq!(Currency::Aed.code(), "AED");
    assert_eq!(Currency::Cny.code(), "CNY");
    assert_eq!(Currency::Usd.source_url(), "https://www.tgju.org/profile/price_dollar_rl");
    assert_eq!(Currency::Eur.source_url(), "https://www.tgju.org/profile/price_eur");
    assert_eq!(Currency::Aed.source_url(), "https://www.tgju.org/profile/price_aed");
    assert_eq!(Currency::Cny.source_url(), "https://www.tgju.org/profile/sana_sell_cny");
}
