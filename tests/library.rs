use cic_accounting::amount::{format_amount, parse_amount};
use cic_accounting::balance::{extract_balance, read_balance_from_csv, BalanceRow};
use cic_accounting::category::Category;
use cic_accounting::date::{is_date_transaction_in_month_year, Date};
use cic_accounting::error::AccountingError;
use cic_accounting::knowledge::{get_category_from_label, get_known_labels_categories_map, KnowledgeBase};
use cic_accounting::label::get_label_without_number;
use cic_accounting::records::{find_column, read_rows, replace_first_line};
use cic_accounting::report::{check_categories, get_sum_all_amounts, get_sum_category};
use cic_accounting::transaction::{read_categorized_entries, categorized_file_rows, AccountingEntry};

fn date(year: i32, month: u32, day: u32) -> Date {
    Date { year, month, day }
}

fn entry(amount: i64, label: &str, category: &str) -> AccountingEntry {
    AccountingEntry {
        date_transaction: date(2019, 12, 5),
        date_effect: "12/05/2019".to_string(),
        amount,
        label: label.to_string(),
        category: category.to_string(),
    }
}

fn kb_of(pairs: &[(&str, &str)]) -> KnowledgeBase {
    let mut kb = KnowledgeBase::new();
    for (k, v) in pairs {
        kb.insert(k.to_string(), v.to_string());
    }
    kb
}

#[test]
fn normalize_removes_every_digit_and_keeps_the_rest() {
    let label = "PAIEMENT CB 0212 PARKING-9 é7".to_string();
    let once = get_label_without_number(&label);
    assert_eq!(once, "PAIEMENT CB  PARKING- é");
    assert_eq!(get_label_without_number(&once), once);
    assert_eq!(get_label_without_number(&"".to_string()), "");
    assert_eq!(get_label_without_number(&"2019".to_string()), "");
}

#[test]
fn guess_is_unknown_without_a_known_label() {
    let kb = kb_of(&[("CARTE  MONOPRIX ", "Courses")]);
    assert_eq!(get_category_from_label(&"CARTE 12 LIDL".to_string(), &kb), "Unknown");
    assert_eq!(get_category_from_label(&"CARTE 1 MONOPRIX 9".to_string(), &kb), "Courses");
}

#[test]
fn guess_collapses_both_withdrawal_aliases() {
    let kb = kb_of(&[("RETRAIT DAB ", "RetraitsP"), ("RETRAIT GAB ", "RetraitsSO")]);
    assert_eq!(get_category_from_label(&"RETRAIT DAB 42".to_string(), &kb), "Retraits");
    assert_eq!(get_category_from_label(&"RETRAIT GAB 7".to_string(), &kb), "Retraits");
}

#[test]
fn knowledge_base_keeps_the_last_category_of_a_label() {
    let first = "Date,Datedevaleur,Montant,Libelle,Category\n\
        01/02/2019,01/02/2019,-1.00,SHOP 1,Courses\n\
        01/03/2019,01/03/2019,-1.00,SHOP 2,Divers\n";
    let second = "Date,Datedevaleur,Montant,Libelle,Category\n\
        02/02/2019,02/02/2019,-1.00,SHOP 3,Loyer\n";
    let kb = get_known_labels_categories_map(&vec![first.to_string()]).unwrap();
    assert_eq!(kb.get("SHOP ").unwrap(), "Divers");
    let kb = get_known_labels_categories_map(&vec![first.to_string(), second.to_string()]).unwrap();
    assert_eq!(kb.get("SHOP ").unwrap(), "Loyer");
    assert!(kb.get("SHOP").is_none());
}

#[test]
fn knowledge_base_fails_on_a_malformed_file() {
    let good = "Date,Datedevaleur,Montant,Libelle,Category\n01/02/2019,x,-1.00,A,Courses\n";
    let bad = "Date,Datedevaleur,Montant,Libelle,Category\n13/45/2019,x,-1.00,A,Courses\n";
    let r = get_known_labels_categories_map(&vec![good.to_string(), bad.to_string()]);
    assert!(matches!(r, Err(AccountingError::DateFormat { ref text }) if text == "13/45/2019"));
}

#[test]
fn window_bounds_of_a_month() {
    assert!(is_date_transaction_in_month_year(date(2019, 6, 2), 6, 2019));
    assert!(is_date_transaction_in_month_year(date(2019, 7, 1), 6, 2019));
    assert!(!is_date_transaction_in_month_year(date(2019, 6, 1), 6, 2019));
    assert!(!is_date_transaction_in_month_year(date(2019, 7, 2), 6, 2019));
    assert!(!is_date_transaction_in_month_year(date(2018, 6, 15), 6, 2019));
}

#[test]
fn window_of_december_ends_in_january() {
    assert!(is_date_transaction_in_month_year(date(2019, 12, 2), 12, 2019));
    assert!(is_date_transaction_in_month_year(date(2019, 12, 31), 12, 2019));
    assert!(is_date_transaction_in_month_year(date(2020, 1, 1), 12, 2019));
    assert!(!is_date_transaction_in_month_year(date(2019, 12, 1), 12, 2019));
    assert!(!is_date_transaction_in_month_year(date(2020, 1, 2), 12, 2019));
    assert!(!is_date_transaction_in_month_year(date(2019, 1, 1), 12, 2019));
}

#[test]
fn sums_of_nothing_are_zero() {
    let none: Vec<AccountingEntry> = Vec::new();
    assert_eq!(get_sum_all_amounts(&none), 0);
    let some = vec![entry(-500, "A", "Courses"), entry(250, "B", "Divers")];
    assert_eq!(get_sum_category(&some, "Loyer"), 0);
    assert_eq!(get_sum_category(&none, "Courses"), 0);
}

#[test]
fn sums_by_category() {
    let v = vec![
        entry(-500, "A", "Courses"),
        entry(250, "B", "Divers"),
        entry(-125, "C", "Courses"),
        entry(-1, "D", "courses"),
    ];
    assert_eq!(get_sum_all_amounts(&v), -376);
    assert_eq!(get_sum_category(&v, "Courses"), -625);
    assert_eq!(get_sum_category(&v, "courses"), -1);
    assert_eq!(get_sum_category(&v, "Divers"), 250);
}

#[test]
fn sums_do_not_overflow() {
    let v = vec![entry(i64::MAX, "A", "Courses"), entry(i64::MAX, "B", "Courses")];
    assert_eq!(get_sum_all_amounts(&v), 2 * (i64::MAX as i128));
    assert_eq!(get_sum_category(&v, "Courses"), 2 * (i64::MAX as i128));
}

#[test]
fn check_categories_accepts_known_ones() {
    let v = vec![entry(1, "A", "Courses"), entry(2, "B", "Unknown"), entry(3, "C", "RetraitsSO")];
    assert!(check_categories(&v).is_ok());
    assert!(check_categories(&Vec::new()).is_ok());
}

#[test]
fn check_categories_names_the_first_unknown_one() {
    let v = vec![entry(1, "A", "Courses"), entry(2, "B", "Groceries"), entry(3, "C", "Food")];
    match check_categories(&v) {
        Err(AccountingError::UnknownCategory { name }) => assert_eq!(name, "Groceries"),
        other => panic!("unexpected {:?}", other),
    }
}

#[test]
fn category_names_round_trip() {
    for c in Category::all() {
        assert_eq!(Category::from_name(&c.name()), Some(c));
    }
    assert_eq!(Category::all().len(), 18);
    assert_eq!(Category::from_name("voiture"), None);
    assert_eq!(Category::Voiture.name(), "Voiture");
}

#[test]
fn amounts_are_read_as_cents() {
    assert_eq!(parse_amount("-1.60"), Some(-160));
    assert_eq!(parse_amount("-1.6"), Some(-160));
    assert_eq!(parse_amount("7737.00"), Some(773700));
    assert_eq!(parse_amount("7738,23"), Some(773823));
    assert_eq!(parse_amount("+12"), Some(1200));
    assert_eq!(parse_amount("0"), Some(0));
    assert_eq!(parse_amount("-0.05"), Some(-5));
    assert_eq!(parse_amount("92233720368547758.07"), Some(i64::MAX));
    assert_eq!(parse_amount("-92233720368547758.07"), Some(-i64::MAX));
    assert_eq!(parse_amount(".5"), Some(50));
    assert_eq!(parse_amount("-,05"), Some(-5));
    assert_eq!(parse_amount("1."), Some(100));
    assert_eq!(parse_amount("1.230"), Some(123));
    assert_eq!(parse_amount("-105.4500"), Some(-10545));
}

#[test]
fn malformed_amounts_are_rejected() {
    assert_eq!(parse_amount(""), None);
    assert_eq!(parse_amount("-"), None);
        assert_eq!(parse_amount("1.234"), None);
    assert_eq!(parse_amount("1.2301"), None);
    assert_eq!(parse_amount("."), None);
    assert_eq!(parse_amount("-."), None);
    assert_eq!(parse_amount("1.2a"), None);
    assert_eq!(parse_amount("1.200x"), None);
    assert_eq!(parse_amount("1 000"), None);
    assert_eq!(parse_amount("12a"), None);
    assert_eq!(parse_amount("--1"), None);
    assert_eq!(parse_amount("1e3"), None);
    assert_eq!(parse_amount("92233720368547758.08"), None);
    assert_eq!(parse_amount("99999999999999999999999"), None);
}

#[test]
fn dates_are_read_month_day_year() {
    assert_eq!(Date::parse("12/01/2019"), Some(date(2019, 12, 1)));
    assert_eq!(Date::parse("1/2/2020"), Some(date(2020, 1, 2)));
    assert_eq!(Date::parse("2019-12-01"), None);
    assert_eq!(Date::parse("02/30/2019"), None);
    assert_eq!(Date::parse("13/01/2019"), None);
    assert_eq!(Date::parse(""), None);
}

#[test]
fn rows_are_read_with_their_header() {
    let rows = read_rows("a,b\n1,2\n\"x,y\",z\n").unwrap();
    assert_eq!(rows.len(), 3);
    assert_eq!(rows[0], vec!["a".to_string(), "b".to_string()]);
    assert_eq!(rows[2], vec!["x,y".to_string(), "z".to_string()]);
    assert_eq!(find_column(&rows[0], "b"), Some(1));
    assert_eq!(find_column(&rows[0], "c"), None);
    let dup = vec!["x".to_string(), "y".to_string(), "x".to_string()];
    assert_eq!(find_column(&dup, "x"), Some(2));
}

#[test]
fn rows_of_unequal_length_are_a_syntax_error() {
    assert!(matches!(read_rows("a,b\n1\n"), Err(AccountingError::CsvSyntax)));
    assert!(matches!(read_categorized_entries("a,b\n1\n"), Err(AccountingError::CsvSyntax)));
}

#[test]
fn first_line_is_replaced_by_the_header() {
    let out = replace_first_line(&b"\xff\xfegarbled\n1,2\n".to_vec()).unwrap();
    assert_eq!(out, b"Date,Datedevaleur,Montant,Libelle,Solde\n1,2\n".to_vec());
    let only = replace_first_line(&b"x\n".to_vec()).unwrap();
    assert_eq!(only, b"Date,Datedevaleur,Montant,Libelle,Solde\n".to_vec());
    assert_eq!(replace_first_line(&b"no newline".to_vec()), None);
}

#[test]
fn categorised_files_keep_their_categories() {
    let text = "Date,Datedevaleur,Montant,Libelle,Category\n\
        11/30/2019,11/30/2019,-2.50,A 1,Divers\n\
        12/31/2019,12/31/2019,10,B 2,GainsSpe\n";
    let v = read_categorized_entries(text).unwrap();
    assert_eq!(v.len(), 2);
    assert_eq!(v[0].category, "Divers");
    assert_eq!(v[0].amount, -250);
    assert_eq!(v[1].date_transaction, date(2019, 12, 31));
    assert_eq!(v[1].amount, 1000);
    assert!(read_categorized_entries("Date,Datedevaleur,Montant,Libelle,Category\n").unwrap().is_empty());
}

#[test]
fn reading_names_the_missing_column() {
    let text = "Date,Datedevaleur,Montant,Libelle\n11/30/2019,11/30/2019,-2.50,A\n";
    match read_categorized_entries(text) {
        Err(AccountingError::MissingColumn { name }) => assert_eq!(name, "Category"),
        other => panic!("unexpected {:?}", other),
    }
}

#[test]
fn reading_names_the_bad_amount() {
    let text = "Date,Datedevaleur,Montant,Libelle,Category\n\
        11/30/2019,11/30/2019,-2.50,A,Divers\n\
        11/30/2019,11/30/2019,abc,A,Divers\n\
        99/30/2019,11/30/2019,xyz,A,Divers\n";
    match read_categorized_entries(text) {
        Err(AccountingError::AmountFormat { text }) => assert_eq!(text, "abc"),
        other => panic!("unexpected {:?}", other),
    }
}

#[test]
fn balance_of_the_last_row_on_the_first_day() {
    let rows = vec![
        BalanceRow { date: date(2019, 12, 3), balance: 10 },
        BalanceRow { date: date(2019, 12, 1), balance: 20 },
        BalanceRow { date: date(2019, 12, 1), balance: 30 },
        BalanceRow { date: date(2019, 11, 30), balance: 40 },
    ];
    assert_eq!(extract_balance(&rows, 12, 2019).unwrap(), 30);
}

#[test]
fn balance_of_the_first_row_after_the_first_day() {
    let rows = vec![
        BalanceRow { date: date(2019, 11, 30), balance: 40 },
        BalanceRow { date: date(2019, 12, 9), balance: 10 },
        BalanceRow { date: date(2019, 12, 2), balance: 20 },
    ];
    assert_eq!(extract_balance(&rows, 12, 2019).unwrap(), 10);
}

#[test]
fn balance_not_found_before_the_month() {
    let rows = vec![BalanceRow { date: date(2019, 11, 30), balance: 40 }];
    assert!(matches!(extract_balance(&rows, 12, 2019), Err(AccountingError::BalanceNotFound)));
    assert!(matches!(extract_balance(&Vec::new(), 12, 2019), Err(AccountingError::BalanceNotFound)));
    let text = "Date,Datedevaleur,Montant,Libelle,Solde\n";
    assert!(matches!(read_balance_from_csv(text, 12, 2019), Err(AccountingError::BalanceNotFound)));
}

#[test]
fn balance_file_errors() {
    let text = "Date,Datedevaleur,Montant,Libelle\n12/01/2019,x,1,A\n";
    match read_balance_from_csv(text, 12, 2019) {
        Err(AccountingError::MissingColumn { name }) => assert_eq!(name, "Solde"),
        other => panic!("unexpected {:?}", other),
    }
    let text = "Date,Solde\n12/01/2019,1.2.3\n";
    match read_balance_from_csv(text, 12, 2019) {
        Err(AccountingError::AmountFormat { text }) => assert_eq!(text, "1.2.3"),
        other => panic!("unexpected {:?}", other),
    }
}

#[test]
fn amounts_are_written_as_the_shortest_decimal() {
    assert_eq!(format_amount(-160), "-1.6");
    assert_eq!(format_amount(-10545), "-105.45");
    assert_eq!(format_amount(773700), "7737");
    assert_eq!(format_amount(10), "0.1");
    assert_eq!(format_amount(773823), "7738.23");
    assert_eq!(format_amount(5), "0.05");
    assert_eq!(format_amount(-5), "-0.05");
    assert_eq!(format_amount(0), "0");
    assert_eq!(format_amount(100000), "1000");
    assert_eq!(format_amount(i64::MAX), "92233720368547758.07");
    assert_eq!(format_amount(i64::MIN), "-92233720368547758.08");
}

#[test]
fn written_amounts_read_back() {
    for c in [-10545i64, -160, -1, 0, 7, 10, 99, 100, 773700, i64::MAX, -i64::MAX] {
        assert_eq!(parse_amount(&format_amount(c)), Some(c));
    }
}

#[test]
fn dates_are_written_month_day_year() {
    assert_eq!(date(2019, 12, 1).format(), Some("12/01/2019".to_string()));
    assert_eq!(date(2020, 1, 31).format(), Some("01/31/2020".to_string()));
    assert_eq!(date(2019, 2, 29).format(), None);
    assert_eq!(date(2019, 13, 1).format(), None);
}

#[test]
fn guessed_file_rows() {
    let v = vec![entry(-160, "PARKING 12", "Voiture"), entry(700, "VIR", "Unknown")];
    let rows = categorized_file_rows(&v).unwrap();
    assert_eq!(rows.len(), 3);
    assert_eq!(rows[0], vec!["Date", "Datedevaleur", "Montant", "Libelle", "Category"]);
    assert_eq!(rows[1], vec!["12/05/2019", "12/05/2019", "-1.6", "PARKING 12", "Voiture"]);
    assert_eq!(rows[2], vec!["12/05/2019", "12/05/2019", "7", "VIR", "Unknown"]);
    let mut bad = entry(1, "X", "Divers");
    bad.date_transaction = date(2019, 4, 31);
    assert_eq!(categorized_file_rows(&vec![bad]), None);
}
