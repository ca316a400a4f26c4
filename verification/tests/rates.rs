use dollar_rates::error::ScrapeError;
use dollar_rates::fields::RawFieldMap;
use dollar_rates::numeric::parse;
use dollar_rates::rates::{assemble, Currency};

fn fields_of(pairs: &[(&str, &str)]) -> RawFieldMap {
    let mut fields = RawFieldMap::new();
    for (label, value) in pairs {
        fields.insert(label.to_string(), parse(value).unwrap());
    }
    fields
}

const ALL: [(&str, &str); 5] = [
    ("eur", "40,10"),
    ("cny", "5,06"),
    ("try", "1,09"),
    ("rub", "0,39"),
    ("usd", "36,50"),
];

#[test]
fn all_five_keys_make_a_record_with_their_values() {
    let rates = assemble(&fields_of(&ALL)).unwrap();
    assert_eq!(rates.rate(Currency::Eur).as_str(), "40.10");
    assert_eq!(rates.rate(Currency::Cny).as_str(), "5.06");
    assert_eq!(rates.rate(Currency::Try).as_str(), "1.09");
    assert_eq!(rates.rate(Currency::Rub).as_str(), "0.39");
    assert_eq!(rates.rate(Currency::Usd).as_str(), "36.50");
    assert_eq!(rates.rate(Currency::Usd).as_str().parse::<f64>().unwrap(), 36.5);
}

#[test]
fn a_missing_key_is_named() {
    for (at, currency) in [Currency::Eur, Currency::Cny, Currency::Try, Currency::Rub, Currency::Usd]
        .into_iter()
        .enumerate()
    {
        let mut pairs = ALL.to_vec();
        pairs.remove(at);
        let error = assemble(&fields_of(&pairs)).unwrap_err();
        assert_eq!(error.missing, vec![currency]);
    }
}

#[test]
fn every_missing_key_is_named_in_order() {
    let error = assemble(&fields_of(&[("usd", "1"), ("cny", "2")])).unwrap_err();
    assert_eq!(error.missing, vec![Currency::Eur, Currency::Try, Currency::Rub]);
    let error = assemble(&RawFieldMap::new()).unwrap_err();
    assert_eq!(
        error.missing,
        vec![Currency::Eur, Currency::Cny, Currency::Try, Currency::Rub, Currency::Usd]
    );
}

#[test]
fn other_keys_are_passed_over() {
    let mut pairs = ALL.to_vec();
    pairs.push(("gbp", "46,2"));
    pairs.push(("", "1"));
    let rates = assemble(&fields_of(&pairs)).unwrap();
    assert_eq!(rates.rate(Currency::Eur).as_str(), "40.10");
}

#[test]
fn keys_are_matched_as_they_are() {
    let mut pairs = ALL.to_vec();
    pairs[4] = ("USD", "36,50");
    let error = assemble(&fields_of(&pairs)).unwrap_err();
    assert_eq!(error.missing, vec![Currency::Usd]);
}

#[test]
fn currency_keys() {
    assert_eq!(Currency::Eur.key(), "eur");
    assert_eq!(Currency::Cny.key(), "cny");
    assert_eq!(Currency::Try.key(), "try");
    assert_eq!(Currency::Rub.key(), "rub");
    assert_eq!(Currency::Usd.key(), "usd");
}

#[test]
fn a_record_in_one_line() {
    let rates = assemble(&fields_of(&ALL)).unwrap();
    assert_eq!(
        rates.to_string(),
        "eur => 40.10 | cny => 5.06 | try => 1.09 | rub => 0.39 | usd => 36.50"
    );
}

#[test]
fn a_copy_of_a_record_holds_the_same_rates() {
    let rates = assemble(&fields_of(&ALL)).unwrap();
    let copy = rates.clone();
    assert_eq!(copy.to_string(), rates.to_string());
}

#[test]
fn the_message_of_a_failed_assembly_names_the_keys() {
    let error = assemble(&fields_of(&[("usd", "1"), ("cny", "2"), ("try", "3"), ("rub", "4")]))
        .unwrap_err();
    assert_eq!(
        ScrapeError::assembly(&error).to_string(),
        "[scrape error] parse error: failed to map data to the dollar rates struct: missing field `eur`"
    );
    let error = assemble(&fields_of(&[("usd", "1")])).unwrap_err();
    assert_eq!(
        ScrapeError::assembly(&error).to_string(),
        "[scrape error] parse error: failed to map data to the dollar rates struct: missing field `eur` `cny` `try` `rub`"
    );
}

#[test]
fn a_field_map_holds_each_label_once() {
    let mut fields = RawFieldMap::new();
    assert_eq!(fields.len(), 0);
    assert!(fields.get("usd").is_none());
    fields.insert("usd".to_string(), parse("1").unwrap());
    fields.insert("eur".to_string(), parse("2").unwrap());
    assert_eq!(fields.len(), 2);
    fields.insert("usd".to_string(), parse("3").unwrap());
    assert_eq!(fields.len(), 2);
    assert_eq!(fields.get("usd").unwrap().as_str(), "3");
    assert_eq!(fields.get("eur").unwrap().as_str(), "2");
    assert!(fields.get("rub").is_none());
}
