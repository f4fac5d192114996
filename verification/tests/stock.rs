use market_finance::stock::{Exchange, ListingError, Securities, Security};

const LISTING: &str = "\
Symbol|Security Name|Market Category|Test Issue|Financial Status|Round Lot Size|ETF|NextShares
QQQ|Invesco QQQ Trust, Series 1|G|N|N|100|Y|N
AAPL|Apple Inc. - Common Stock|Q|N|N|100|N|N
ZAZZT|Tick Pilot Test Stock Class A|G|Y|N|100|N|N
ABCD|Deficient Company|S|N|D|100|N|N
MSFT|Microsoft Corporation - Common Stock|Q|N|N|100|N|N
File Creation Time: 0303202320:02|||||||
";

fn row(fields: &[&str]) -> Vec<String> {
    fields.iter().map(|field| field.to_string()).collect()
}

fn security(symbol: &str, name: &str, etf: bool) -> Security {
    Security { symbol: symbol.to_string(), name: name.to_string(), exchange: Exchange::NASDAQ, isETF: etf }
}

fn symbols(securities: &Securities) -> Vec<String> {
    securities.values().iter().map(|held| held.symbol.clone()).collect()
}

#[test]
fn row_of_a_stock_is_listed() {
    let read = Security::from_row(&row(&["AAPL", "Apple Inc.", "Q", "N", "N", "100", "N", "N"]), Exchange::NASDAQ);
    let listed = read.unwrap().unwrap();
    assert_eq!(listed.symbol, "AAPL");
    assert_eq!(listed.name, "Apple Inc.");
    assert_eq!(listed.exchange, Exchange::NASDAQ);
    assert!(!listed.isETF);
}

#[test]
fn row_of_a_fund_is_listed_as_a_fund() {
    let read = Security::from_row(&row(&["QQQ", "Invesco QQQ Trust", "G", "N", "N", "100", "Y"]), Exchange::NASDAQ);
    let listed = read.unwrap().unwrap();
    assert_eq!(listed.symbol, "QQQ");
    assert!(listed.isETF);
    // only `Y` marks a fund
    let read = Security::from_row(&row(&["QQQ", "Invesco QQQ Trust", "G", "N", "N", "100", "y"]), Exchange::NASDAQ);
    assert!(!read.unwrap().unwrap().isETF);
    let read = Security::from_row(&row(&["QQQ", "Invesco QQQ Trust", "G", "N", "N", "100", ""]), Exchange::NASDAQ);
    assert!(!read.unwrap().unwrap().isETF);
}

#[test]
fn test_issues_are_passed_over() {
    let read = Security::from_row(&row(&["ZAZZT", "Tick Pilot Test Stock", "G", "Y", "N", "100", "N", "N"]), Exchange::NASDAQ);
    assert!(matches!(read, Ok(None)));
    let read = Security::from_row(&row(&["ZAZZT", "Tick Pilot Test Stock", "G", "", "N", "100", "N", "N"]), Exchange::NASDAQ);
    assert!(matches!(read, Ok(None)));
}

#[test]
fn securities_out_of_good_standing_are_passed_over() {
    for status in ["D", "E", "Q", "n", ""] {
        let read = Security::from_row(&row(&["ABCD", "Deficient Company", "S", "N", status, "100", "N", "N"]), Exchange::NASDAQ);
        assert!(matches!(read, Ok(None)));
    }
}

#[test]
fn closing_line_is_passed_over() {
    let read = Security::from_row(&row(&["File Creation Time: 0303202320:02", "", "", "", "", "", "", ""]), Exchange::NASDAQ);
    assert!(matches!(read, Ok(None)));
    // also where it otherwise reads like a security
    let read = Security::from_row(&row(&["File Creation Time: 0303202320:02", "", "", "N", "N", "", "", ""]), Exchange::NASDAQ);
    assert!(matches!(read, Ok(None)));
    let read = Security::from_row(&row(&["File Creation", "", "", "N", "N", "", "", ""]), Exchange::NASDAQ);
    assert!(matches!(read, Ok(None)));
    // a symbol that only resembles it is listed
    let read = Security::from_row(&row(&["File Creatio", "", "", "N", "N", "", "", ""]), Exchange::NASDAQ);
    assert_eq!(read.unwrap().unwrap().symbol, "File Creatio");
    let read = Security::from_row(&row(&["A File Creation", "", "", "N", "N", "", "", ""]), Exchange::NASDAQ);
    assert_eq!(read.unwrap().unwrap().symbol, "A File Creation");
}

#[test]
fn short_rows_miss_a_field() {
    let full = ["AAPL", "Apple Inc.", "Q", "N", "N", "100", "N"];
    for length in 0..=3 {
        let read = Security::from_row(&row(&full[..length]), Exchange::NASDAQ);
        assert!(matches!(read, Err(ListingError::MissingField)));
    }
    for length in 4..=6 {
        let read = Security::from_row(&row(&full[..length]), Exchange::NASDAQ);
        assert!(matches!(read, Err(ListingError::MissingField)));
    }
    assert!(matches!(Security::from_row(&row(&full), Exchange::NASDAQ), Ok(Some(_))));
}

#[test]
fn short_rows_that_are_passed_over_first() {
    // the flags are read before the fields behind them are missed
    assert!(matches!(Security::from_row(&row(&["ZAZZT", "Test", "G", "Y"]), Exchange::NASDAQ), Ok(None)));
    assert!(matches!(Security::from_row(&row(&["ABCD", "Bad", "S", "N", "D"]), Exchange::NASDAQ), Ok(None)));
    assert!(matches!(Security::from_row(&row(&["ABCD", "Bad", "S", "N", "D", "100"]), Exchange::NASDAQ), Ok(None)));
}

#[test]
fn new_holds_nothing() {
    let securities = Securities::new();
    assert_eq!(securities.len(), 0);
    assert!(securities.values().is_empty());
    assert!(securities.get("AAPL").is_none());
}

#[test]
fn insert_keeps_the_symbols_in_order() {
    let mut securities = Securities::new();
    for symbol in ["MSFT", "AAPL", "ZM", "A", "AA", "GOOG", "a", "AAL"] {
        securities.insert(security(symbol, "name", false));
    }
    assert_eq!(symbols(&securities), vec!["A", "AA", "AAL", "AAPL", "GOOG", "MSFT", "ZM", "a"]);
    assert_eq!(securities.len(), 8);
    let mut sorted = symbols(&securities);
    sorted.sort();
    assert_eq!(symbols(&securities), sorted);
}

#[test]
fn insert_replaces_the_security_with_the_same_symbol() {
    let mut securities = Securities::new();
    securities.insert(security("AAPL", "first", false));
    securities.insert(security("MSFT", "other", false));
    securities.insert(security("AAPL", "second", true));
    assert_eq!(securities.len(), 2);
    let held = securities.get("AAPL").unwrap();
    assert_eq!(held.name, "second");
    assert!(held.isETF);
    assert_eq!(securities.get("MSFT").unwrap().name, "other");
}

#[test]
fn get_finds_by_the_whole_symbol() {
    let mut securities = Securities::new();
    for symbol in ["AAPL", "AA", "MSFT", "\u{e9}t\u{e9}", "QQQ"] {
        securities.insert(security(symbol, symbol, false));
    }
    for symbol in ["AAPL", "AA", "MSFT", "\u{e9}t\u{e9}", "QQQ"] {
        assert_eq!(securities.get(symbol).unwrap().name, symbol);
    }
    for symbol in ["", "A", "AAP", "AAPLE", "aapl", "ZZZ", "\u{e9}t"] {
        assert!(securities.get(symbol).is_none());
    }
}

#[test]
fn symbols_are_ordered_by_their_bytes() {
    let mut securities = Securities::new();
    for symbol in ["\u{e9}", "z", "Z", "\u{1f600}", "", "zz", "\u{7ff}"] {
        securities.insert(security(symbol, "name", false));
    }
    let mut sorted: Vec<String> =
        ["\u{e9}", "z", "Z", "\u{1f600}", "", "zz", "\u{7ff}"].iter().map(|s| s.to_string()).collect();
    sorted.sort();
    assert_eq!(symbols(&securities), sorted);
}

#[test]
fn security_clone_is_equal_in_every_field() {
    let first = security("QQQ", "Invesco QQQ Trust", true);
    let copy = first.clone();
    assert_eq!(copy.symbol, first.symbol);
    assert_eq!(copy.name, first.name);
    assert_eq!(copy.exchange, first.exchange);
    assert_eq!(copy.isETF, first.isETF);
}

#[test]
fn import_reads_a_symbol_directory() {
    let mut securities = Securities::new();
    let outcome = securities.import(Exchange::NASDAQ, LISTING.as_bytes());
    assert!(outcome.is_ok());
    assert_eq!(symbols(&securities), vec!["AAPL", "MSFT", "QQQ"]);
    let fund = securities.get("QQQ").unwrap();
    assert_eq!(fund.name, "Invesco QQQ Trust, Series 1");
    assert!(fund.isETF);
    assert_eq!(fund.exchange, Exchange::NASDAQ);
    let stock = securities.get("AAPL").unwrap();
    assert_eq!(stock.name, "Apple Inc. - Common Stock");
    assert!(!stock.isETF);
    assert!(securities.get("ZAZZT").is_none());
    assert!(securities.get("ABCD").is_none());
    assert!(securities.get("Symbol").is_none());
}

#[test]
fn import_separates_fields_at_bars_only() {
    let mut securities = Securities::new();
    let listing = "a|b|c|d|e|f|g\nX,Y|Some, Name|Q|N|N|100|Y\n";
    assert!(securities.import(Exchange::NASDAQ, listing.as_bytes()).is_ok());
    assert_eq!(symbols(&securities), vec!["X,Y"]);
    assert_eq!(securities.get("X,Y").unwrap().name, "Some, Name");
}

#[test]
fn import_adds_to_what_is_held() {
    let mut securities = Securities::new();
    securities.insert(security("IBM", "held before", false));
    securities.insert(security("AAPL", "held before", true));
    assert!(securities.import(Exchange::NASDAQ, LISTING.as_bytes()).is_ok());
    assert_eq!(symbols(&securities), vec!["AAPL", "IBM", "MSFT", "QQQ"]);
    assert_eq!(securities.get("AAPL").unwrap().name, "Apple Inc. - Common Stock");
    assert_eq!(securities.get("IBM").unwrap().name, "held before");
}

#[test]
fn import_of_an_empty_listing() {
    let mut securities = Securities::new();
    assert!(securities.import(Exchange::NASDAQ, b"").is_ok());
    assert_eq!(securities.len(), 0);
    assert!(securities
        .import(Exchange::NASDAQ, b"Symbol|Security Name|Market Category|Test Issue|Financial Status|Round Lot Size|ETF\n")
        .is_ok());
    assert_eq!(securities.len(), 0);
}

#[test]
fn import_stops_at_a_row_of_another_length() {
    let mut securities = Securities::new();
    let listing = "\
Symbol|Security Name|Market Category|Test Issue|Financial Status|Round Lot Size|ETF|NextShares
AAPL|Apple Inc. - Common Stock|Q|N|N|100|N|N
BROKEN|Row|Q|N
MSFT|Microsoft Corporation - Common Stock|Q|N|N|100|N|N
";
    let outcome = securities.import(Exchange::NASDAQ, listing.as_bytes());
    assert!(matches!(outcome, Err(ListingError::Malformed(_))));
    assert_eq!(symbols(&securities), vec!["AAPL"]);
}

#[test]
fn import_stops_at_text_that_is_not_utf8() {
    let mut securities = Securities::new();
    let mut listing = b"a|b|c|d|e|f|g\nAAPL|Apple|Q|N|N|100|N\n".to_vec();
    listing.extend_from_slice(b"BAD|\xff\xfe|Q|N|N|100|N\nMSFT|Microsoft|Q|N|N|100|N\n");
    let outcome = securities.import(Exchange::NASDAQ, &listing);
    assert!(matches!(outcome, Err(ListingError::Malformed(_))));
    assert_eq!(symbols(&securities), vec!["AAPL"]);
}

#[test]
fn import_of_a_listing_with_too_few_fields() {
    let mut securities = Securities::new();
    let listing = "Symbol|Security Name|Market Category|Test Issue|Financial Status\nZAZZT|Test|G|Y|N\nAAPL|Apple|Q|N|N\nMSFT|Microsoft|Q|N|N\n";
    let outcome = securities.import(Exchange::NASDAQ, listing.as_bytes());
    assert!(matches!(outcome, Err(ListingError::MissingField)));
    assert_eq!(securities.len(), 0);
}

#[test]
fn add_rows_reads_up_to_the_first_error() {
    let mut securities = Securities::new();
    let rows = vec![
        Ok(row(&["MSFT", "Microsoft", "Q", "N", "N", "100", "N"])),
        Ok(row(&["ZAZZT", "Test", "G", "Y"])),
        Ok(row(&["AAPL", "Apple", "Q", "N", "N", "100", "N"])),
        Err(csv::Error::from(std::io::Error::new(std::io::ErrorKind::Other, "cut off"))),
        Ok(row(&["QQQ", "Invesco", "G", "N", "N", "100", "Y"])),
    ];
    let outcome = securities.add_rows(rows, Exchange::NASDAQ);
    assert!(matches!(outcome, Err(ListingError::Malformed(_))));
    assert_eq!(symbols(&securities), vec!["AAPL", "MSFT"]);
}

#[test]
fn add_rows_stops_at_a_short_row() {
    let mut securities = Securities::new();
    let rows = vec![
        Ok(row(&["MSFT", "Microsoft", "Q", "N", "N", "100", "N"])),
        Ok(row(&["AAPL", "Apple", "Q", "N", "N", "100"])),
        Ok(row(&["QQQ", "Invesco", "G", "N", "N", "100", "Y"])),
    ];
    let outcome = securities.add_rows(rows, Exchange::NASDAQ);
    assert!(matches!(outcome, Err(ListingError::MissingField)));
    assert_eq!(symbols(&securities), vec!["MSFT"]);
}

#[test]
fn add_rows_reads_all_good_rows() {
    let mut securities = Securities::new();
    let rows = vec![
        Ok(row(&["MSFT", "Microsoft", "Q", "N", "N", "100", "N"])),
        Ok(row(&["MSFT", "Microsoft Corporation", "Q", "N", "N", "100", "N"])),
        Ok(row(&["QQQ", "Invesco", "G", "N", "N", "100", "Y"])),
    ];
    assert!(securities.add_rows(rows, Exchange::NASDAQ).is_ok());
    assert_eq!(symbols(&securities), vec!["MSFT", "QQQ"]);
    assert_eq!(securities.get("MSFT").unwrap().name, "Microsoft Corporation");
    assert!(securities.add_rows(Vec::new(), Exchange::NASDAQ).is_ok());
    assert_eq!(securities.len(), 2);
}

#[test]
fn securities_are_handed_out_in_order() {
    let mut securities = Securities::new();
    for symbol in ["MSFT", "AAPL", "QQQ"] {
        securities.insert(security(symbol, symbol, symbol == "QQQ"));
    }
    let mut seen = Vec::new();
    for held in &securities {
        seen.push(held.symbol.clone());
    }
    assert_eq!(seen, vec!["AAPL", "MSFT", "QQQ"]);
    assert_eq!(seen, symbols(&securities));
    assert_eq!((&Securities::new()).into_iter().count(), 0);
}

#[test]
fn securities_clone_holds_the_same_and_stands_alone() {
    let mut securities = Securities::new();
    securities.insert(security("MSFT", "Microsoft", false));
    securities.insert(security("AAPL", "Apple", false));
    let mut copy = securities.clone();
    assert_eq!(symbols(&copy), symbols(&securities));
    assert_eq!(copy.get("AAPL").unwrap().name, "Apple");
    copy.insert(security("QQQ", "Invesco", true));
    copy.insert(security("AAPL", "Apple Inc.", false));
    assert_eq!(copy.len(), 3);
    assert_eq!(securities.len(), 2);
    assert_eq!(securities.get("AAPL").unwrap().name, "Apple");
    assert!(securities.get("QQQ").is_none());
}
