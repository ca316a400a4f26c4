use dollar_rates::error::ScrapeError;
use dollar_rates::refresh::{Action, Event, Phase};
use dollar_rates::scrape::{is_success_status, Fetched, Scraper};
use dollar_rates::service::{get_rates_handler, RatesResponse};

fn row(name: &str, value: &str) -> String {
    format!(
        "<div class=\"row recuadrotsmc\"><div><span> {} </span></div><div><strong> {} </strong></div></div>",
        name, value
    )
}

fn page(usd: &str) -> String {
    format!(
        "<!DOCTYPE html><html><head><title>rates</title></head><body><div id=\"rates\">{}{}{}{}{}</div></body></html>",
        row("EUR", "40,10"),
        row("CNY", "5,06"),
        row("TRY", "1,09"),
        row("RUB", "0,39"),
        row("USD", usd)
    )
}

fn answered(status: u16, body: &str) -> Fetched {
    Fetched::Answered { status, body: Ok(body.to_string()) }
}

fn message(result: Result<(), ScrapeError>) -> String {
    result.unwrap_err().to_string()
}

#[test]
fn a_new_scraper_knows_the_page_and_holds_nothing() {
    let scraper = Scraper::new().unwrap();
    assert_eq!(scraper.base_url(), "https://www.bcv.org.ve/");
    assert!(scraper.read().is_none());
}

#[test]
fn success_statuses_are_the_two_hundreds() {
    assert!(!is_success_status(0));
    assert!(!is_success_status(199));
    assert!(is_success_status(200));
    assert!(is_success_status(204));
    assert!(is_success_status(299));
    assert!(!is_success_status(300));
    assert!(!is_success_status(404));
    assert!(!is_success_status(500));
    assert!(!is_success_status(u16::MAX));
}

#[test]
fn a_good_page_becomes_the_snapshot() {
    let mut scraper = Scraper::new().unwrap();
    scraper.perform_scrape_at(&answered(200, &page("36,50")), 1_000).unwrap();
    let snapshot = scraper.read().unwrap();
    assert_eq!(
        snapshot.rates.to_string(),
        "eur => 40.10 | cny => 5.06 | try => 1.09 | rub => 0.39 | usd => 36.50"
    );
    assert_eq!(snapshot.updated_at, 1_000);
}

#[test]
fn a_later_page_replaces_the_snapshot() {
    let mut scraper = Scraper::new().unwrap();
    scraper.perform_scrape_at(&answered(200, &page("36,50")), 1_000).unwrap();
    scraper.perform_scrape_at(&answered(201, &page("36,75")), 2_000).unwrap();
    let snapshot = scraper.read().unwrap();
    assert_eq!(
        snapshot.rates.to_string(),
        "eur => 40.10 | cny => 5.06 | try => 1.09 | rub => 0.39 | usd => 36.75"
    );
    assert_eq!(snapshot.updated_at, 2_000);
}

#[test]
fn a_failed_request_leaves_the_snapshot() {
    let mut scraper = Scraper::new().unwrap();
    scraper.perform_scrape_at(&answered(200, &page("36,50")), 1_000).unwrap();
    let result = scraper.perform_scrape_at(&Fetched::Failed("connection refused".to_string()), 2_000);
    assert_eq!(
        message(result),
        "[scrape error] request error: failed to send request: connection refused"
    );
    let snapshot = scraper.read().unwrap();
    assert_eq!(
        snapshot.rates.to_string(),
        "eur => 40.10 | cny => 5.06 | try => 1.09 | rub => 0.39 | usd => 36.50"
    );
    assert_eq!(snapshot.updated_at, 1_000);
}

#[test]
fn a_failed_request_leaves_an_empty_cache_empty() {
    let mut scraper = Scraper::new().unwrap();
    assert!(scraper.perform_scrape(&Fetched::Failed("timed out".to_string())).is_err());
    assert!(scraper.read().is_none());
}

#[test]
fn a_status_that_is_no_success_fails_with_the_status() {
    let mut scraper = Scraper::new().unwrap();
    let result = scraper.perform_scrape_at(&answered(404, &page("36,50")), 1);
    assert_eq!(
        message(result),
        "[scrape error] request error: invalid request status response: 404"
    );
    assert!(scraper.read().is_none());
    let result = scraper.perform_scrape_at(&answered(503, ""), 1);
    assert_eq!(
        message(result),
        "[scrape error] request error: invalid request status response: 503"
    );
    let result = scraper.perform_scrape_at(&answered(300, &page("36,50")), 1);
    assert_eq!(
        message(result),
        "[scrape error] request error: invalid request status response: 300"
    );
    let result = scraper.perform_scrape_at(&answered(199, &page("36,50")), 1);
    assert_eq!(
        message(result),
        "[scrape error] request error: invalid request status response: 199"
    );
}

#[test]
fn statuses_are_written_in_full() {
    for (status, text) in [(0u16, "0"), (7, "7"), (10, "10"), (99, "99"), (100, "100"), (1000, "1000"), (65535, "65535")] {
        match ScrapeError::status(status) {
            ScrapeError::Request(message) => {
                assert_eq!(message, format!("invalid request status response: {}", text))
            }
            ScrapeError::Parse(_) => panic!("a status is no parse error"),
        }
    }
}

#[test]
fn the_status_is_looked_at_before_the_body() {
    let mut scraper = Scraper::new().unwrap();
    let fetched = Fetched::Answered { status: 500, body: Err("broken pipe".to_string()) };
    assert_eq!(
        message(scraper.perform_scrape_at(&fetched, 1)),
        "[scrape error] request error: invalid request status response: 500"
    );
}

#[test]
fn a_body_that_is_no_text_fails() {
    let mut scraper = Scraper::new().unwrap();
    let fetched = Fetched::Answered { status: 200, body: Err("error decoding response body".to_string()) };
    assert_eq!(
        message(scraper.perform_scrape_at(&fetched, 1)),
        "[scrape error] request error: failed to parse request text: error decoding response body"
    );
    assert!(scraper.read().is_none());
}

#[test]
fn a_page_with_a_row_at_fault_fails_and_leaves_the_snapshot() {
    let mut scraper = Scraper::new().unwrap();
    scraper.perform_scrape_at(&answered(200, &page("36,50")), 1_000).unwrap();
    let broken = "<div class=\"row recuadrotsmc\"><span>usd</span></div>";
    let result = scraper.perform_scrape_at(&answered(200, broken), 2_000);
    assert_eq!(
        message(result),
        format!(
            "[scrape error] parse error: failed to find currency value for the following row: {}",
            broken
        )
    );
    assert_eq!(scraper.read().unwrap().updated_at, 1_000);
}

#[test]
fn each_fault_has_its_message() {
    let mut scraper = Scraper::new().unwrap();
    let cases = [
        ("<div class=\"row recuadrotsmc\"><strong>1</strong></div>", "failed to find currency name for the following row: "),
        ("<div class=\"row recuadrotsmc\"><span></span><strong>1</strong></div>", "currency name for the following row was empty: "),
        ("<div class=\"row recuadrotsmc\"><span>usd</span></div>", "failed to find currency value for the following row: "),
        ("<div class=\"row recuadrotsmc\"><span>usd</span><strong></strong></div>", "currency value for the following row was empty: "),
        ("<div class=\"row recuadrotsmc\"><span>usd</span><strong>x</strong></div>", "failed to parse currency value as float: invalid float literal in the following row: "),
        ("<div class=\"row recuadrotsmc\"><span>usd</span><strong> </strong></div>", "failed to parse currency value as float: cannot parse float from empty string in the following row: "),
        ("<div class=\"row recuadrotsmc\"><span>usd</span><strong>1e999</strong></div>", "failed to parse currency value as float: float literal out of range in the following row: "),
    ];
    for (markup, words) in cases {
        let result = scraper.perform_scrape_at(&answered(200, markup), 1);
        assert_eq!(message(result), format!("[scrape error] parse error: {}{}", words, markup));
    }
}

#[test]
fn a_page_that_lacks_a_currency_fails_and_names_it() {
    let mut scraper = Scraper::new().unwrap();
    let body = format!("{}{}{}{}", row("eur", "1"), row("cny", "2"), row("rub", "3"), row("usd", "4"));
    let result = scraper.perform_scrape_at(&answered(200, &body), 1);
    assert_eq!(
        message(result),
        "[scrape error] parse error: failed to map data to the dollar rates struct: missing field `try`"
    );
    assert!(scraper.read().is_none());
}

#[test]
fn a_page_without_rows_fails_at_assembly() {
    let mut scraper = Scraper::new().unwrap();
    let result = scraper.perform_scrape_at(&answered(200, "<html></html>"), 1);
    assert_eq!(
        message(result),
        "[scrape error] parse error: failed to map data to the dollar rates struct: missing field `eur` `cny` `try` `rub` `usd`"
    );
}

#[test]
fn extract_reads_the_rows_of_a_page() {
    let scraper = Scraper::new().unwrap();
    let fields = scraper.extract(&page("36,50")).unwrap();
    assert_eq!(fields.len(), 5);
    assert_eq!(fields.get("usd").unwrap().as_str(), "36.50");
    assert!(fields.get("USD").is_none());
}

#[test]
fn read_page_and_read_fetched_leave_the_cache() {
    let scraper = Scraper::new().unwrap();
    let rates = scraper.read_page(&page("36,50")).unwrap();
    assert_eq!(rates.to_string(), "eur => 40.10 | cny => 5.06 | try => 1.09 | rub => 0.39 | usd => 36.50");
    let rates = scraper.read_fetched(&answered(200, &page("37"))).unwrap();
    assert_eq!(rates.to_string(), "eur => 40.10 | cny => 5.06 | try => 1.09 | rub => 0.39 | usd => 37");
    assert!(scraper.read().is_none());
}

#[test]
fn a_scrape_by_the_clock_takes_the_time_of_the_clock() {
    let before = dollar_rates::util::current_time_millis();
    let mut scraper = Scraper::new().unwrap();
    scraper.perform_scrape(&answered(200, &page("36,50"))).unwrap();
    let snapshot = scraper.read().unwrap();
    assert!(snapshot.updated_at >= before);
}

#[test]
fn the_messages_of_scrape_errors() {
    assert_eq!(
        ScrapeError::Request("no route".to_string()).to_string(),
        "[scrape error] request error: no route"
    );
    assert_eq!(
        ScrapeError::Parse("no rows".to_string()).to_string(),
        "[scrape error] parse error: no rows"
    );
    assert_eq!(
        ScrapeError::send("dns").to_string(),
        "[scrape error] request error: failed to send request: dns"
    );
    assert_eq!(
        ScrapeError::body("utf-8").to_string(),
        "[scrape error] request error: failed to parse request text: utf-8"
    );
}

#[test]
fn the_controller_starts_with_a_scrape() {
    let task = Scraper::new().unwrap().start_refresh_task(60_000);
    assert_eq!(task.current_phase(), Phase::Scraping);
    assert_eq!(task.pending(), Action::Fetch);
    assert!(task.as_scraper().read().is_none());
}

#[test]
fn the_controller_waits_after_a_scrape_and_scrapes_after_the_wait() {
    let mut task = Scraper::new().unwrap().start_refresh_task(60_000);
    let step = task.step(Event::Fetched(answered(200, &page("36,50"))));
    assert!(step.error.is_none());
    assert_eq!(step.action, Action::Wait(60_000));
    assert_eq!(task.current_phase(), Phase::Idle);
    assert!(task.as_scraper().read().is_some());
    let step = task.step(Event::Elapsed);
    assert!(step.error.is_none());
    assert_eq!(step.action, Action::Fetch);
    assert_eq!(task.current_phase(), Phase::Scraping);
}

#[test]
fn the_controller_waits_after_a_failed_scrape_too() {
    let mut task = Scraper::new().unwrap().start_refresh_task(5);
    let step = task.step(Event::Fetched(Fetched::Failed("refused".to_string())));
    assert_eq!(
        step.error.unwrap().to_string(),
        "[scrape error] request error: failed to send request: refused"
    );
    assert_eq!(step.action, Action::Wait(5));
    assert_eq!(task.current_phase(), Phase::Idle);
    assert!(task.as_scraper().read().is_none());
}

#[test]
fn a_failed_scrape_of_the_controller_leaves_the_snapshot() {
    let mut task = Scraper::new().unwrap().start_refresh_task(5);
    task.step(Event::Fetched(answered(200, &page("36,50"))));
    let before = task.as_scraper().read().unwrap();
    task.step(Event::Elapsed);
    let step = task.step(Event::Fetched(answered(500, "")));
    assert!(step.error.is_some());
    let after = task.as_scraper().read().unwrap();
    assert_eq!(after.updated_at, before.updated_at);
    assert_eq!(after.rates.to_string(), before.rates.to_string());
}

#[test]
fn the_controller_passes_over_what_it_does_not_wait_for() {
    let mut task = Scraper::new().unwrap().start_refresh_task(5);
    let step = task.step(Event::Elapsed);
    assert_eq!(step.action, Action::Fetch);
    assert_eq!(task.current_phase(), Phase::Scraping);
    task.step(Event::Fetched(Fetched::Failed("refused".to_string())));
    let step = task.step(Event::Fetched(answered(200, &page("36,50"))));
    assert!(step.error.is_none());
    assert_eq!(step.action, Action::Wait(5));
    assert_eq!(task.current_phase(), Phase::Idle);
    assert!(task.as_scraper().read().is_none());
}

#[test]
fn no_answer_before_the_first_scrape() {
    let scraper = Scraper::new().unwrap();
    assert!(get_rates_handler(&scraper).is_none());
    assert!(RatesResponse::build(&scraper).is_none());
}

#[test]
fn no_answer_after_a_scrape_that_failed() {
    let mut scraper = Scraper::new().unwrap();
    assert!(scraper.perform_scrape(&answered(500, "")).is_err());
    assert!(RatesResponse::build(&scraper).is_none());
    assert!(get_rates_handler(&scraper).is_none());
}

#[test]
fn the_answer_is_the_snapshot() {
    let mut scraper = Scraper::new().unwrap();
    scraper.perform_scrape_at(&answered(200, &page("36,50")), 1_234).unwrap();
    let response = get_rates_handler(&scraper).unwrap();
    assert_eq!(response.updated_at, 1_234);
    assert_eq!(
        response.rates.to_string(),
        "eur => 40.10 | cny => 5.06 | try => 1.09 | rub => 0.39 | usd => 36.50"
    );
    let response = RatesResponse::build(&scraper).unwrap();
    assert_eq!(response.updated_at, 1_234);
    assert_eq!(
        response.rates.to_string(),
        "eur => 40.10 | cny => 5.06 | try => 1.09 | rub => 0.39 | usd => 36.50"
    );
}
