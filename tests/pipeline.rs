use cic_accounting::balance::read_balance_from_csv;
use cic_accounting::knowledge::{get_known_labels_categories_map, KnowledgeBase};
use cic_accounting::records::replace_first_line;
use cic_accounting::report::get_sum_all_amounts;
use cic_accounting::transaction::{guess_accounting_entries_from_csv, AccountingEntry};

const MONTH_TEST: u32 = 12;
const YEAR_TEST: i32 = 2019;

/// A raw export of December 2019: its first line is garbled, and its last row,
/// dated on the first of the month, falls outside the month's window.
const RAW_ACCOUNT_2: &str = "Dat\u{fffd},Date de valeur,Montant,Libell\u{fffd},Solde\n\
12/02/2019,12/03/2019,-1.60,PAIEMENT CB 0212 PARKING GARE 4711,7735.40\n\
12/05/2019,12/05/2019,-20.00,CARTE 0512 MONOPRIX 33,7715.40\n\
12/10/2019,12/10/2019,-50.85,RESTAURANT LE 12,7664.55\n\
12/15/2019,12/16/2019,7.00,VIR REMBOURSEMENT 884,7671.55\n\
12/20/2019,12/20/2019,-40.00,RETRAIT DAB 2012 PARIS 15,7631.55\n\
12/01/2019,12/01/2019,-3.00,PAIEMENT CB 0112 BOULANGERIE,7737.00\n";

/// A raw export of December 2019 with no row on the first of the month.
const RAW_ACCOUNT_3: &str = "Date,Datedevaleur,Montant,Libelle,Solde\n\
11/29/2019,11/29/2019,-10.00,CARTE 2911 MONOPRIX 33,7800.00\n\
12/03/2019,12/03/2019,-61.77,CARTE 0312 MONOPRIX 33,7738.23\n\
12/04/2019,12/04/2019,-38.23,CARTE 0412 MONOPRIX 33,7700.00\n";

/// A file categorised in an earlier month.
const MODIFIED_ACCOUNT: &str = "Date,Datedevaleur,Montant,Libelle,Category\n\
11/02/2019,11/02/2019,-2.40,PAIEMENT CB 1011 PARKING GARE 4712,Voiture\n\
11/05/2019,11/05/2019,-18.00,CARTE 0511 MONOPRIX 97,Courses\n\
11/20/2019,11/20/2019,-60.00,RETRAIT DAB 2011 PARIS 15,RetraitsSO\n";

fn knowledge() -> KnowledgeBase {
    get_known_labels_categories_map(&vec![MODIFIED_ACCOUNT.to_string()]).unwrap()
}

fn repaired(raw: &str) -> String {
    let bytes = replace_first_line(&raw.as_bytes().to_vec()).unwrap();
    String::from_utf8(bytes).unwrap()
}

fn get_test_accountings() -> Vec<AccountingEntry> {
    let text = repaired(RAW_ACCOUNT_2);
    guess_accounting_entries_from_csv(&text, MONTH_TEST, YEAR_TEST, &knowledge()).unwrap()
}

#[test]
fn test_acquisition() {
    let accountings = get_test_accountings();
    let accounting_entry = &accountings[0];
    assert_eq!(accounting_entry.amount, -160);
}

#[test]
fn test_length() {
    // the last entry is not in the selected month, so it is left out
    let accountings = get_test_accountings();
    assert_eq!(accountings.len(), 5);
}

#[test]
fn test_auto_categories() {
    let accountings = get_test_accountings();
    let accounting_entry = &accountings[0];
    assert_eq!(accounting_entry.category, "Voiture");
}

#[test]
fn test_auto_categories_modified() {
    let accountings = get_test_accountings();
    let accounting_entry = &accountings[4];
    assert_eq!(accounting_entry.category, "Retraits");
}

#[test]
fn test_sum() {
    let accountings = get_test_accountings();
    assert_eq!(get_sum_all_amounts(&accountings), -10545);
}

#[test]
fn main_test_acquisition() {
    let accountings = get_test_accountings();
    assert_eq!(accountings[0].amount, -160);
    assert_eq!(accountings[0].label, "PAIEMENT CB 0212 PARKING GARE 4711");
    assert_eq!(accountings[0].date_effect, "12/03/2019");
}

#[test]
fn main_test_length() {
    let accountings = get_test_accountings();
    assert_eq!(accountings.len(), 5);
}

#[test]
fn main_test_auto_categories() {
    let accountings = get_test_accountings();
    assert_eq!(accountings[0].category, "Voiture");
    assert_eq!(accountings[1].category, "Courses");
    assert_eq!(accountings[2].category, "Unknown");
}

#[test]
fn main_test_auto_categories_modified() {
    let accountings = get_test_accountings();
    assert_eq!(accountings[4].category, "Retraits");
}

#[test]
fn main_test_sum() {
    let accountings = get_test_accountings();
    assert_eq!(get_sum_all_amounts(&accountings), -10545);
}

#[test]
fn test_balance_with_first_day_of_month() {
    let balance = read_balance_from_csv(&repaired(RAW_ACCOUNT_2), MONTH_TEST, YEAR_TEST).unwrap();
    assert_eq!(balance, 773700);
}

#[test]
fn test_balance_without_first_day_of_month() {
    let balance = read_balance_from_csv(RAW_ACCOUNT_3, MONTH_TEST, YEAR_TEST).unwrap();
    assert_eq!(balance, 773823);
}
