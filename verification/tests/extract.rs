use dollar_rates::extract::{extract_fields, read_field, ExtractionError, Fault, Sought};
use dollar_rates::fields::RawFieldMap;
use dollar_rates::numeric::NumberError;
use scraper::{Html, Selector};

fn extract(page: &str) -> Result<RawFieldMap, ExtractionError> {
    let document = Html::parse_document(page);
    let row = Selector::parse(".row.recuadrotsmc").unwrap();
    let name = Selector::parse("span").unwrap();
    let value = Selector::parse("strong").unwrap();
    extract_fields(&document, &row, &name, &value)
}

fn row(name: &str, value: &str) -> String {
    format!(
        "<div class=\"row recuadrotsmc\"><div><span> {} </span></div><div><strong> {} </strong></div></div>",
        name, value
    )
}

fn value_of(fields: &RawFieldMap, label: &str) -> String {
    fields.get(label).unwrap().as_str().to_string()
}

fn fault_of(page: &str) -> ExtractionError {
    match extract(page) {
        Ok(_) => panic!("fields came out of {}", page),
        Err(error) => error,
    }
}

#[test]
fn well_formed_rows_give_one_field_each() {
    let page = format!(
        "<html><body>{}{}{}</body></html>",
        row("EUR", "40,10"),
        row("Usd", "36,50"),
        row("rub", "0,39")
    );
    let fields = extract(&page).unwrap();
    assert_eq!(fields.len(), 3);
    assert_eq!(value_of(&fields, "eur"), "40.10");
    assert_eq!(value_of(&fields, "usd"), "36.50");
    assert_eq!(value_of(&fields, "rub"), "0.39");
    assert!(fields.get("EUR").is_none());
    assert!(fields.get(" eur ").is_none());
}

#[test]
fn labels_are_trimmed_and_lowered() {
    let page = row("\n\t  TrY \n", "1,25");
    let fields = extract(&page).unwrap();
    assert_eq!(fields.len(), 1);
    assert_eq!(value_of(&fields, "try"), "1.25");
}

#[test]
fn values_are_trimmed() {
    let page = row("usd", "\n   36,50000000 \t");
    let fields = extract(&page).unwrap();
    assert_eq!(value_of(&fields, "usd"), "36.50000000");
    assert_eq!(value_of(&fields, "usd").parse::<f64>().unwrap(), 36.5);
}

#[test]
fn a_page_without_rows_gives_no_fields() {
    let fields = extract("<html><body><p>closed today</p></body></html>").unwrap();
    assert_eq!(fields.len(), 0);
    let fields = extract("").unwrap();
    assert_eq!(fields.len(), 0);
}

#[test]
fn rows_need_both_classes() {
    let page = "<div class=\"row\"><span>usd</span><strong>1</strong></div>\
                <div class=\"recuadrotsmc\"><span>eur</span><strong>2</strong></div>\
                <div class=\"recuadrotsmc big row\"><span>cny</span><strong>3</strong></div>";
    let fields = extract(page).unwrap();
    assert_eq!(fields.len(), 1);
    assert_eq!(value_of(&fields, "cny"), "3");
}

#[test]
fn a_row_without_value_element_fails() {
    let page = format!(
        "{}<div class=\"row recuadrotsmc\"><span>usd</span></div>{}",
        row("eur", "40,10"),
        row("rub", "0,39")
    );
    let error = fault_of(&page);
    assert_eq!(error.fault, Fault::ValueMissing);
    assert_eq!(error.row, "<div class=\"row recuadrotsmc\"><span>usd</span></div>");
}

#[test]
fn a_row_without_name_element_fails() {
    let page = "<div class=\"row recuadrotsmc\"><strong>36,50</strong></div>";
    let error = fault_of(page);
    assert_eq!(error.fault, Fault::NameMissing);
    assert_eq!(error.row, page);
}

#[test]
fn a_row_with_an_empty_name_fails() {
    let page = "<div class=\"row recuadrotsmc\"><span></span><strong>36,50</strong></div>";
    let error = fault_of(page);
    assert_eq!(error.fault, Fault::NameEmpty);
    assert_eq!(error.row, page);
}

#[test]
fn a_row_with_an_empty_value_fails() {
    let page = "<div class=\"row recuadrotsmc\"><span>usd</span><strong></strong></div>";
    let error = fault_of(page);
    assert_eq!(error.fault, Fault::ValueEmpty);
    assert_eq!(error.row, page);
}

#[test]
fn a_row_with_a_blank_value_fails_as_an_empty_number() {
    let error = fault_of(&row("usd", "   "));
    assert_eq!(error.fault, Fault::ValueInvalid(NumberError::Empty));
}

#[test]
fn a_row_with_a_value_that_is_no_number_fails() {
    let error = fault_of(&row("usd", "n/a"));
    assert_eq!(error.fault, Fault::ValueInvalid(NumberError::Invalid));
    assert_eq!(error.row, row("usd", "n/a"));
    let error = fault_of(&row("usd", "36,50 Bs"));
    assert_eq!(error.fault, Fault::ValueInvalid(NumberError::Invalid));
}

#[test]
fn a_row_with_a_value_out_of_range_fails() {
    let error = fault_of(&row("usd", "1e400"));
    assert_eq!(error.fault, Fault::ValueInvalid(NumberError::OutOfRange));
}

#[test]
fn the_name_is_looked_at_before_the_value() {
    let page = "<div class=\"row recuadrotsmc\"><p>nothing</p></div>";
    assert_eq!(fault_of(page).fault, Fault::NameMissing);
    let page = "<div class=\"row recuadrotsmc\"><span></span></div>";
    assert_eq!(fault_of(page).fault, Fault::NameEmpty);
}

#[test]
fn the_first_row_at_fault_is_reported() {
    let page = format!(
        "{}{}{}",
        row("eur", "40,10"),
        row("usd", "oops"),
        "<div class=\"row recuadrotsmc\"><span>rub</span></div>"
    );
    let error = fault_of(&page);
    assert_eq!(error.fault, Fault::ValueInvalid(NumberError::Invalid));
    assert_eq!(error.row, row("usd", "oops"));
}

#[test]
fn a_later_row_replaces_an_earlier_one_of_the_same_label() {
    let page = format!("{}{}{}", row("usd", "1"), row("eur", "2"), row("USD", "3"));
    let fields = extract(&page).unwrap();
    assert_eq!(fields.len(), 2);
    assert_eq!(value_of(&fields, "usd"), "3");
    assert_eq!(value_of(&fields, "eur"), "2");
}

#[test]
fn the_first_element_and_its_first_text_are_taken() {
    let page = "<div class=\"row recuadrotsmc\">\
                <span><b>Usd</b> dollar</span><span>eur</span>\
                <strong>36,50<i>37</i></strong><strong>40</strong></div>";
    let fields = extract(page).unwrap();
    assert_eq!(fields.len(), 1);
    assert_eq!(value_of(&fields, "usd"), "36.50");
}

#[test]
fn broken_markup_is_read_as_far_as_it_goes() {
    let page = "<div class=\"row recuadrotsmc\"><span>usd<strong>36,50";
    let fields = extract(page).unwrap();
    assert_eq!(fields.len(), 1);
    assert_eq!(value_of(&fields, "usd"), "36.50");
}

#[test]
fn read_field_makes_a_field_of_two_texts() {
    let name = Sought::Text("  USD ".to_string());
    let value = Sought::Text(" 36,50\n".to_string());
    let (label, number) = read_field(&name, &value).unwrap();
    assert_eq!(label, "usd");
    assert_eq!(number.as_str(), "36.50");
}

#[test]
fn read_field_reports_what_is_missing() {
    let text = Sought::Text("1".to_string());
    assert_eq!(read_field(&Sought::NoElement, &text).unwrap_err(), Fault::NameMissing);
    assert_eq!(read_field(&Sought::NoText, &text).unwrap_err(), Fault::NameEmpty);
    assert_eq!(read_field(&text, &Sought::NoElement).unwrap_err(), Fault::ValueMissing);
    assert_eq!(read_field(&text, &Sought::NoText).unwrap_err(), Fault::ValueEmpty);
    assert_eq!(read_field(&Sought::NoElement, &Sought::NoElement).unwrap_err(), Fault::NameMissing);
    assert_eq!(
        read_field(&text, &Sought::Text(String::new())).unwrap_err(),
        Fault::ValueInvalid(NumberError::Empty)
    );
    assert_eq!(
        read_field(&text, &Sought::Text("x".to_string())).unwrap_err(),
        Fault::ValueInvalid(NumberError::Invalid)
    );
}

#[test]
fn a_blank_name_gives_an_empty_label() {
    let name = Sought::Text("   ".to_string());
    let value = Sought::Text("1".to_string());
    let (label, _) = read_field(&name, &value).unwrap();
    assert_eq!(label, "");
}

/// The characters with the Unicode property White_Space.
fn is_white_space(c: char) -> bool {
    matches!(
        c,
        '\u{0009}'..='\u{000D}'
            | '\u{0020}'
            | '\u{0085}'
            | '\u{00A0}'
            | '\u{1680}'
            | '\u{2000}'..='\u{200A}'
            | '\u{2028}'
            | '\u{2029}'
            | '\u{202F}'
            | '\u{205F}'
            | '\u{3000}'
    )
}

#[test]
fn white_space_is_what_std_takes_for_it() {
    let mut count = 0;
    for code in 0..=0x10FFFFu32 {
        if let Some(c) = char::from_u32(code) {
            assert_eq!(is_white_space(c), c.is_whitespace(), "{:x}", code);
            if is_white_space(c) {
                count += 1;
            }
        }
    }
    assert_eq!(count, 25);
}

#[test]
fn every_white_space_is_trimmed_from_both_ends() {
    for code in 0..=0x3100u32 {
        let c = match char::from_u32(code) {
            Some(c) => c,
            None => panic!("{:x} is a character", code),
        };
        let name = Sought::Text(format!("{}{}usd{}", c, c, c));
        let value = Sought::Text("1,5".to_string());
        let (label, _) = read_field(&name, &value).unwrap();
        assert_eq!(label == "usd", is_white_space(c), "{:x}", code);
        if is_white_space(c) {
            let value = Sought::Text(format!("{}1,5{}{}", c, c, c));
            let (_, number) = read_field(&name, &value).unwrap();
            assert_eq!(number.as_str(), "1.5");
        }
    }
}

#[test]
fn white_space_inside_a_text_stays() {
    let name = Sought::Text(" us d\u{00A0}".to_string());
    let value = Sought::Text("1".to_string());
    assert_eq!(read_field(&name, &value).unwrap().0, "us d");
    let value = Sought::Text(" 1 5 ".to_string());
    assert_eq!(read_field(&name, &value).unwrap_err(), Fault::ValueInvalid(NumberError::Invalid));
}

#[test]
fn a_value_of_white_space_alone_is_an_empty_number() {
    let name = Sought::Text("usd".to_string());
    for blank in ["", " ", "\t\n", "\u{00A0}\u{2003}\u{3000}", " \u{0085}\r "] {
        let value = Sought::Text(blank.to_string());
        assert_eq!(read_field(&name, &value).unwrap_err(), Fault::ValueInvalid(NumberError::Empty));
    }
}
