use sim_ledger::cli::{parse, CalendarDate, Command, DraftPosting, ImportSource, ParseError, ReportGroup, YearSelection};
use sim_ledger::model::Amount;

fn args(words: &[&str]) -> Vec<String> {
    words.iter().map(|w| (*w).to_owned()).collect()
}

fn parse_err(words: &[&str]) -> String {
    parse(args(words)).unwrap_err().message()
}

#[test]
fn parses_each_command() {
    assert_eq!(
        parse(args(&["new", "books", "--label", "Household"])).unwrap(),
        Command::New { set_dir: "books".into(), label: "Household".into() }
    );
    assert_eq!(
        parse(args(&["import", "books", "--odb", "ledger-2024.odb", "--year", "2024"])).unwrap(),
        Command::Import { set_dir: "books".into(), source: ImportSource::Odb("ledger-2024.odb".into()), year: 2024 }
    );
    assert_eq!(
        parse(args(&["import", "books", "--year", "2023", "--csv", "export"])).unwrap(),
        Command::Import { set_dir: "books".into(), source: ImportSource::Csv("export".into()), year: 2023 }
    );
    assert_eq!(parse(args(&["years", "books"])).unwrap(), Command::Years { set_dir: "books".into() });
    assert_eq!(
        parse(args(&["report", "books"])).unwrap(),
        Command::Report { set_dir: "books".into(), years: YearSelection::All, group: ReportGroup::Account }
    );
    assert_eq!(
        parse(args(&["report", "books", "--year", "2024", "--by", "sru"])).unwrap(),
        Command::Report { set_dir: "books".into(), years: YearSelection::One(2024), group: ReportGroup::Sru }
    );
    assert_eq!(parse(args(&["close", "books", "--year", "2024"])).unwrap(), Command::Close { set_dir: "books".into(), year: 2024 });
    assert_eq!(
        parse(args(&["statements", "books", "--year", "-1"])).unwrap(),
        Command::Statements { set_dir: "books".into(), year: -1 }
    );
    assert_eq!(
        parse(args(&["sru-compare", "books", "--years", "2023, 2024"])).unwrap(),
        Command::SruCompare { set_dir: "books".into(), years: vec![2023, 2024] }
    );
    assert_eq!(
        parse(args(&["draft-check", "--date", "2024-02-29", "--text", "Lunch", "--posting", "1910:-12.50", "--posting", "5800:12.5"]))
            .unwrap(),
        Command::DraftCheck {
            date: CalendarDate { year: 2024, month: 2, day: 29 },
            text: "Lunch".into(),
            postings: vec![
                DraftPosting { account: 1910, amount: Amount(-1_250) },
                DraftPosting { account: 5800, amount: Amount(1_250) },
            ],
        }
    );
}

#[test]
fn usage_errors_say_what_is_wrong() {
    assert_eq!(parse_err(&[]), "missing command");
    assert_eq!(parse_err(&["frobnicate"]), "unknown command \"frobnicate\"");
    assert_eq!(parse_err(&["new"]), "missing set-dir");
    assert_eq!(parse_err(&["new", "--label", "x"]), "missing set-dir");
    assert_eq!(parse_err(&["new", "books"]), "missing --label");
    assert_eq!(parse_err(&["new", "books", "--label"]), "missing value for --label");
    assert_eq!(parse_err(&["new", "books", "--label", "--year"]), "missing value for --label");
    assert_eq!(parse_err(&["new", "books", "--colour", "red"]), "unknown option \"--colour\"");
    assert_eq!(parse_err(&["import", "books", "--year", "2024"]), "missing --odb or --csv");
    assert_eq!(parse_err(&["import", "books", "--odb", "a.odb"]), "missing --year");
    assert_eq!(parse_err(&["import", "books", "--odb", "a", "--csv", "b"]), "choose exactly one of --odb or --csv");
    assert_eq!(parse_err(&["import", "books", "--odb", "a", "--year", "twenty"]), "invalid year \"twenty\"");
    assert_eq!(parse_err(&["years", "books", "extra"]), "unexpected argument \"extra\"");
    assert_eq!(parse_err(&["report", "books", "--all", "--year", "2024"]), "choose exactly one of --year or --all");
    assert_eq!(parse_err(&["report", "books", "--by", "month"]), "invalid report group \"month\"");
    assert_eq!(parse_err(&["close", "books"]), "missing --year");
    assert_eq!(parse_err(&["sru-compare", "books"]), "missing --years");
    assert_eq!(parse_err(&["sru-compare", "books", "--years", "2023,,2024"]), "empty year in --years");
    assert_eq!(parse_err(&["sru-compare", "books", "--years", "20x3"]), "invalid year \"20x3\"");
    assert_eq!(parse_err(&["draft-check", "--text", "t"]), "missing --date");
    assert_eq!(parse_err(&["draft-check", "--date", "2024-01-01"]), "missing --text");
    assert_eq!(parse_err(&["draft-check", "--date", "2023-02-29"]), "invalid date \"2023-02-29\"");
    assert_eq!(parse_err(&["draft-check", "--date", "2023-01-01-01"]), "invalid date \"2023-01-01-01\"");
    assert_eq!(parse_err(&["draft-check", "--date", "2023-13-01"]), "invalid date \"2023-13-01\"");
    assert_eq!(parse_err(&["draft-check", "--posting", "1910"]), "invalid posting \"1910\"");
    assert_eq!(parse_err(&["draft-check", "--posting", "x:1"]), "invalid posting account \"x\"");
    assert_eq!(
        parse_err(&["draft-check", "--posting", "1910:1.234"]),
        "invalid posting amount \"1.234\": amount has more than two fractional digits"
    );
}

#[test]
fn parse_error_carries_its_message() {
    let e = ParseError("missing command".to_owned());
    assert_eq!(e.message(), "missing command");
}
