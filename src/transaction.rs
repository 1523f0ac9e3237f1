//! Transactions, and how they are read from the records of the bank's files.
use vstd::prelude::*;
use crate::amount::{amount_text, amount_value, format_amount, parse_amount};
use crate::date::{
    formatted_date_of, in_window_spec, is_date_transaction_in_month_year, parsed_date_of, Date,
    DATE_FORMAT,
};
use crate::error::AccountingError;
use crate::knowledge::{get_category_from_label, guessed_category, KnowledgeBase};
use crate::records::{column_of, csv_records_of, find_column, read_rows, rows_view};

verus! {

/// One transaction of an account.
#[derive(Debug)]
pub struct AccountingEntry {
    /// When the transaction took place.
    pub date_transaction: Date,
    /// When it took effect, as the file writes it.
    pub date_effect: String,
    /// Its amount in cents: a credit is positive, a debit negative.
    pub amount: i64,
    /// The bank's description of it.
    pub label: String,
    /// Its spending category.
    pub category: String,
}

/// A transaction as mathematical values.
pub struct EntryModel {
    pub date: (int, int, int),
    pub date_effect: Seq<char>,
    pub amount: int,
    pub label: Seq<char>,
    pub category: Seq<char>,
}

impl View for AccountingEntry {
    type V = EntryModel;

    open spec fn view(&self) -> EntryModel {
        EntryModel {
            date: self.date_transaction@,
            date_effect: self.date_effect@,
            amount: self.amount as int,
            label: self.label@,
            category: self.category@,
        }
    }
}

/// The transactions of a sequence, as mathematical values.
pub open spec fn models(v: Seq<AccountingEntry>) -> Seq<EntryModel> {
    v.map_values(|e: AccountingEntry| e@)
}

/// Where the fields of a transaction stand in a record.
#[derive(Clone, Copy, Debug, PartialEq, Eq, Structural)]
pub struct Columns {
    pub date: usize,
    pub value_date: usize,
    pub amount: usize,
    pub label: usize,
    /// Present for files whose transactions are already categorised.
    pub category: Option<usize>,
}

impl Columns {
    /// Every column lies in a record of `n` fields.
    pub open spec fn fit(self, n: int) -> bool {
        &&& self.date < n
        &&& self.value_date < n
        &&& self.amount < n
        &&& self.label < n
        &&& self.category matches Some(c) ==> c < n
    }
}

/// The columns of a header, the category's only for categorised files.
pub open spec fn columns_in(header: Seq<Seq<char>>, categorized: bool) -> Columns {
    Columns {
        date: column_of(header, "Date"@)->0 as usize,
        value_date: column_of(header, "Datedevaleur"@)->0 as usize,
        amount: column_of(header, "Montant"@)->0 as usize,
        label: column_of(header, "Libelle"@)->0 as usize,
        category: if categorized {
            Some(column_of(header, "Category"@)->0 as usize)
        } else {
            None
        },
    }
}

/// The first column, in the order date, value date, amount, label and
/// category, that a header lacks.
pub open spec fn first_missing_column(header: Seq<Seq<char>>, categorized: bool) -> Option<
    Seq<char>,
> {
    if column_of(header, "Date"@) is None {
        Some("Date"@)
    } else if column_of(header, "Datedevaleur"@) is None {
        Some("Datedevaleur"@)
    } else if column_of(header, "Montant"@) is None {
        Some("Montant"@)
    } else if column_of(header, "Libelle"@) is None {
        Some("Libelle"@)
    } else if categorized && column_of(header, "Category"@) is None {
        Some("Category"@)
    } else {
        None
    }
}

/// The date of a record.
pub open spec fn row_date(cols: Columns, row: Seq<Seq<char>>) -> Option<(int, int, int)> {
    parsed_date_of(row[cols.date as int], DATE_FORMAT@)
}

/// The amount of a record.
pub open spec fn row_amount(cols: Columns, row: Seq<Seq<char>>) -> Option<int> {
    amount_value(row[cols.amount as int])
}

/// A record whose date and amount can be read.
pub open spec fn row_ok(cols: Columns, row: Seq<Seq<char>>) -> bool {
    row_date(cols, row) is Some && row_amount(cols, row) is Some
}

/// The transaction of a record: its category is guessed where a knowledge base
/// is given, and read from the record otherwise.
pub open spec fn row_model(
    cols: Columns,
    row: Seq<Seq<char>>,
    kb: Option<Map<Seq<char>, Seq<char>>>,
) -> EntryModel {
    EntryModel {
        date: row_date(cols, row)->0,
        date_effect: row[cols.value_date as int],
        amount: row_amount(cols, row)->0,
        label: row[cols.label as int],
        category: match kb {
            Some(m) => guessed_category(m, row[cols.label as int]),
            None => row[cols.category->0 as int],
        },
    }
}

/// The error that a record gives, if any: its date is read first.
pub open spec fn row_error_matches(cols: Columns, row: Seq<Seq<char>>, e: AccountingError) -> bool {
    match e {
        AccountingError::DateFormat { text } => row_date(cols, row) is None && text@
            == row[cols.date as int],
        AccountingError::AmountFormat { text } => row_date(cols, row) is Some && row_amount(
            cols,
            row,
        ) is None && text@ == row[cols.amount as int],
        _ => false,
    }
}

/// Reads the date of a record.
fn get_date_from_record(cols: &Columns, row: &Vec<String>) -> (r: Result<Date, AccountingError>)
    requires
        cols.fit(row@.len() as int),
    ensures
        match r {
            Ok(d) => row_date(*cols, row@.map_values(|f: String| f@)) == Some(d@),
            Err(e) => row_error_matches(*cols, row@.map_values(|f: String| f@), e),
        },
{
    let ghost rv = row@.map_values(|f: String| f@);
    assert(rv[cols.date as int] == row@[cols.date as int]@);
    match Date::parse(row[cols.date].as_str()) {
        Some(d) => Ok(d),
        None => Err(AccountingError::DateFormat { text: row[cols.date].clone() }),
    }
}

/// Reads the amount of a record.
fn get_amount_from_record(cols: &Columns, row: &Vec<String>) -> (r: Result<i64, AccountingError>)
    requires
        cols.fit(row@.len() as int),
    ensures
        match r {
            Ok(a) => row_amount(*cols, row@.map_values(|f: String| f@)) == Some(a as int),
            Err(e) => row_amount(*cols, row@.map_values(|f: String| f@)) is None && (e
                matches AccountingError::AmountFormat { text } && text@ == row@[cols.amount as int]@),
        },
{
    let ghost rv = row@.map_values(|f: String| f@);
    assert(rv[cols.amount as int] == row@[cols.amount as int]@);
    match parse_amount(row[cols.amount].as_str()) {
        Some(a) => Ok(a),
        None => Err(AccountingError::AmountFormat { text: row[cols.amount].clone() }),
    }
}

/// The transaction of a record of a raw file, its category guessed from its
/// label.
pub fn build_accounting_entry_from_raw_csv_record(
    cols: &Columns,
    row: &Vec<String>,
    kb: &KnowledgeBase,
) -> (r: Result<AccountingEntry, AccountingError>)
    requires
        cols.fit(row@.len() as int),
        kb.wf(),
    ensures
        match r {
            Ok(e) => row_ok(*cols, row@.map_values(|f: String| f@)) && e@ == row_model(
                *cols,
                row@.map_values(|f: String| f@),
                Some(kb@),
            ),
            Err(e) => row_error_matches(*cols, row@.map_values(|f: String| f@), e),
        },
{
    let ghost rv = row@.map_values(|f: String| f@);
    let date_transaction = get_date_from_record(cols, row)?;
    let amount = get_amount_from_record(cols, row)?;
    assert(rv[cols.value_date as int] == row@[cols.value_date as int]@);
    assert(rv[cols.label as int] == row@[cols.label as int]@);
    Ok(
        AccountingEntry {
            date_transaction,
            date_effect: row[cols.value_date].clone(),
            amount,
            label: row[cols.label].clone(),
            category: get_category_from_label(&row[cols.label], kb),
        },
    )
}

/// The transaction of a record of a categorised file, its category read from
/// the record.
pub fn build_accounting_entry_from_csv_record_with_categories(
    cols: &Columns,
    row: &Vec<String>,
    category: usize,
) -> (r: Result<AccountingEntry, AccountingError>)
    requires
        cols.fit(row@.len() as int),
        cols.category == Some(category),
    ensures
        match r {
            Ok(e) => row_ok(*cols, row@.map_values(|f: String| f@)) && e@ == row_model(
                *cols,
                row@.map_values(|f: String| f@),
                None,
            ),
            Err(e) => row_error_matches(*cols, row@.map_values(|f: String| f@), e),
        },
{
    let ghost rv = row@.map_values(|f: String| f@);
    let date_transaction = get_date_from_record(cols, row)?;
    let amount = get_amount_from_record(cols, row)?;
    assert(rv[cols.value_date as int] == row@[cols.value_date as int]@);
    assert(rv[cols.label as int] == row@[cols.label as int]@);
    assert(rv[category as int] == row@[category as int]@);
    Ok(
        AccountingEntry {
            date_transaction,
            date_effect: row[cols.value_date].clone(),
            amount,
            label: row[cols.label].clone(),
            category: row[category].clone(),
        },
    )
}

} // verus!

verus! {

/// The knowledge base that guesses categories, if one is given.
pub open spec fn kb_view(kb: Option<&KnowledgeBase>) -> Option<Map<Seq<char>, Seq<char>>> {
    match kb {
        Some(k) => Some(k@),
        None => None,
    }
}

/// The transactions that a month's window keeps, in their order; all of them
/// where no month is given.
pub open spec fn select(models: Seq<EntryModel>, window: Option<(u32, i32)>) -> Seq<EntryModel> {
    match window {
        Some(w) => models.filter(|e: EntryModel| in_window_spec(e.date, w.0 as int, w.1 as int)),
        None => models,
    }
}

/// Every record after the header has a date and an amount that can be read.
pub open spec fn all_rows_ok(t: Seq<Seq<Seq<char>>>, cols: Columns) -> bool {
    forall|i: int| 1 <= i < t.len() ==> row_ok(cols, #[trigger] t[i])
}

/// The transactions of the records after the header.
pub open spec fn table_models(
    t: Seq<Seq<Seq<char>>>,
    kb: Option<Map<Seq<char>, Seq<char>>>,
) -> Seq<EntryModel> {
    t.subrange(1, t.len() as int).map_values(
        |row: Seq<Seq<char>>| row_model(columns_in(t[0], kb is None), row, kb),
    )
}

/// Reading a file succeeds: its text is well delimited and, where it has
/// records, its header has every column and every record can be read.
pub open spec fn table_ok(t: Seq<Seq<Seq<char>>>, categorized: bool) -> bool {
    t.len() == 1 || (first_missing_column(t[0], categorized) is None && all_rows_ok(
        t,
        columns_in(t[0], categorized),
    ))
}

/// What reading a file gives: its transactions, those of the month's window
/// where a month is given; `None` where reading fails.
pub open spec fn read_spec(
    text: Seq<char>,
    window: Option<(u32, i32)>,
    kb: Option<Map<Seq<char>, Seq<char>>>,
) -> Option<Seq<EntryModel>> {
    match csv_records_of(text) {
        Some(t) => if t.len() >= 1 && table_ok(t, kb is None) {
            Some(select(table_models(t, kb), window))
        } else {
            None
        },
        None => None,
    }
}

/// The error that reading a file gives: a malformed text, then a missing
/// column, then the first record whose date or amount cannot be read.
pub open spec fn read_error_matches(text: Seq<char>, categorized: bool, e: AccountingError) -> bool {
    match csv_records_of(text) {
        None => e is CsvSyntax,
        Some(t) => t.len() > 1 && match e {
            AccountingError::MissingColumn { name } => first_missing_column(t[0], categorized)
                == Some(name@),
            _ => first_missing_column(t[0], categorized) is None && exists|i: int|
                1 <= i < t.len() && (forall|j: int|
                    1 <= j < i ==> row_ok(columns_in(t[0], categorized), #[trigger] t[j]))
                    && row_error_matches(columns_in(t[0], categorized), t[i], e),
        },
    }
}

proof fn lemma_select_push(s: Seq<EntryModel>, x: EntryModel, window: Option<(u32, i32)>)
    ensures
        select(s.push(x), window) == match window {
            Some(w) => if in_window_spec(x.date, w.0 as int, w.1 as int) {
                select(s, window).push(x)
            } else {
                select(s, window)
            },
            None => s.push(x),
        },
{
    reveal(Seq::filter);
    assert(s.push(x).drop_last() =~= s);
}

/// Finds the columns of a header.
fn locate_columns(header: &Vec<String>, categorized: bool) -> (r: Result<Columns, AccountingError>)
    ensures
        match r {
            Ok(c) => first_missing_column(header@.map_values(|f: String| f@), categorized) is None
                && c == columns_in(header@.map_values(|f: String| f@), categorized) && c.fit(
                header@.len() as int,
            ),
            Err(e) => e matches AccountingError::MissingColumn { name } && first_missing_column(
                header@.map_values(|f: String| f@),
                categorized,
            ) == Some(name@),
        },
{
    let date = match find_column(header, "Date") {
        Some(i) => i,
        None => return Err(AccountingError::MissingColumn { name: "Date".to_owned() }),
    };
    let value_date = match find_column(header, "Datedevaleur") {
        Some(i) => i,
        None => return Err(AccountingError::MissingColumn { name: "Datedevaleur".to_owned() }),
    };
    let amount = match find_column(header, "Montant") {
        Some(i) => i,
        None => return Err(AccountingError::MissingColumn { name: "Montant".to_owned() }),
    };
    let label = match find_column(header, "Libelle") {
        Some(i) => i,
        None => return Err(AccountingError::MissingColumn { name: "Libelle".to_owned() }),
    };
    let category = if categorized {
        match find_column(header, "Category") {
            Some(i) => Some(i),
            None => return Err(AccountingError::MissingColumn { name: "Category".to_owned() }),
        }
    } else {
        None
    };
    Ok(Columns { date, value_date, amount, label, category })
}

/// Reads the transactions of a file: those of the window of `month` of `year`
/// where a month is given, in the file's order. Categories are guessed with
/// `kb` where it is given, and read from the file's category column otherwise.
pub fn read_accounting_entries(
    text: &str,
    window: Option<(u32, i32)>,
    kb: Option<&KnowledgeBase>,
) -> (r: Result<Vec<AccountingEntry>, AccountingError>)
    requires
        window matches Some(w) ==> 1 <= w.0 <= 12,
        kb matches Some(k) ==> k.wf(),
    ensures
        match r {
            Ok(v) => read_spec(text@, window, kb_view(kb)) == Some(models(v@)),
            Err(e) => read_spec(text@, window, kb_view(kb)) is None && read_error_matches(
                text@,
                kb is None,
                e,
            ),
        },
{
    let rows = read_rows(text)?;
    let ghost t = rows_view(rows@);
    let ghost categorized = kb is None;
    let ghost kbv = kb_view(kb);
    assert(t[0] == rows@[0]@.map_values(|f: String| f@));
    if rows.len() == 1 {
        let none: Vec<AccountingEntry> = Vec::new();
        proof {
            reveal(Seq::filter);
            assert(table_models(t, kbv) =~= Seq::empty());
            assert(models(none@) =~= Seq::empty());
        }
        return Ok(none);
    }
    let cols = locate_columns(&rows[0], kb.is_none())?;
    let mut out: Vec<AccountingEntry> = Vec::new();
    let mut i: usize = 1;
    proof {
        reveal(Seq::filter);
        assert(t.subrange(1, 1).map_values(|row: Seq<Seq<char>>| row_model(cols, row, kbv))
            =~= Seq::empty());
        assert(models(out@) =~= Seq::empty());
    }
    while i < rows.len()
        invariant
            1 <= i <= rows@.len(),
            t == rows_view(rows@),
            csv_records_of(text@) == Some(t),
            first_missing_column(t[0], categorized) is None,
            t.len() == rows@.len(),
            forall|j: int| 0 <= j < rows@.len() ==> #[trigger] rows@[j]@.len() == rows@[0]@.len(),
            cols == columns_in(t[0], categorized),
            cols.fit(rows@[0]@.len() as int),
            categorized == (kb is None),
            categorized == (cols.category is Some),
            kbv == kb_view(kb),
            kb matches Some(k) ==> k.wf(),
            window matches Some(w) ==> 1 <= w.0 <= 12,
            forall|j: int| 1 <= j < i ==> row_ok(cols, #[trigger] t[j]),
            models(out@) == select(
                t.subrange(1, i as int).map_values(
                    |row: Seq<Seq<char>>| row_model(cols, row, kbv),
                ),
                window,
            ),
        decreases rows@.len() - i,
    {
        let row = &rows[i];
        assert(t[i as int] == row@.map_values(|f: String| f@));
        let built = match kb {
            Some(k) => build_accounting_entry_from_raw_csv_record(&cols, row, k),
            None => build_accounting_entry_from_csv_record_with_categories(
                &cols,
                row,
                cols.category.unwrap(),
            ),
        };
        let entry = match built {
            Ok(e) => e,
            Err(e) => {
                proof {
                    // the record's error rules out the record, hence the whole file
                    assert(row_error_matches(cols, t[i as int], e));
                    assert(!all_rows_ok(t, cols));
                    assert(t.len() > 1);
                }
                return Err(e);
            },
        };
        let ghost prefix = t.subrange(1, i as int).map_values(
            |row: Seq<Seq<char>>| row_model(cols, row, kbv),
        );
        proof {
            assert(t.subrange(1, i + 1).map_values(
                |row: Seq<Seq<char>>| row_model(cols, row, kbv),
            ) =~= prefix.push(entry@));
            lemma_select_push(prefix, entry@, window);
        }
        let keep = match window {
            Some(w) => is_date_transaction_in_month_year(entry.date_transaction, w.0, w.1),
            None => true,
        };
        if keep {
            let ghost before = out@;
            out.push(entry);
            assert(models(out@) =~= models(before).push(out@[out@.len() - 1]@));
        }
        i = i + 1;
    }
    proof {
        assert(t.subrange(1, i as int) == t.subrange(1, t.len() as int));
    }
    Ok(out)
}

/// The transactions of a raw file that fall in the window of `month` of `year`,
/// each with the category guessed from its label.
pub fn guess_accounting_entries_from_csv(
    text: &str,
    month: u32,
    year: i32,
    kb: &KnowledgeBase,
) -> (r: Result<Vec<AccountingEntry>, AccountingError>)
    requires
        1 <= month <= 12,
        kb.wf(),
    ensures
        match r {
            Ok(v) => read_spec(text@, Some((month, year)), Some(kb@)) == Some(models(v@)),
            Err(e) => read_spec(text@, Some((month, year)), Some(kb@)) is None
                && read_error_matches(text@, false, e),
        },
{
    read_accounting_entries(text, Some((month, year)), Some(kb))
}

/// Every transaction of a categorised file, with the category that it records.
pub fn read_categorized_entries(text: &str) -> (r: Result<Vec<AccountingEntry>, AccountingError>)
    ensures
        match r {
            Ok(v) => read_spec(text@, None, None) == Some(models(v@)),
            Err(e) => read_spec(text@, None, None) is None && read_error_matches(text@, true, e),
        },
{
    read_accounting_entries(text, None, None)
}

/// The header of a categorised file.
pub open spec fn categorized_header() -> Seq<Seq<char>> {
    seq!["Date"@, "Datedevaleur"@, "Montant"@, "Libelle"@, "Category"@]
}

/// The record of a transaction in a categorised file, where its date exists.
pub open spec fn categorized_record(e: EntryModel) -> Seq<Seq<char>> {
    seq![
        formatted_date_of(e.date, DATE_FORMAT@)->0,
        e.date_effect,
        amount_text(e.amount),
        e.label,
        e.category,
    ]
}

/// The rows of the categorised file of transactions, header first; `None`
/// where the date of one of them does not exist.
pub fn categorized_file_rows(accountings: &Vec<AccountingEntry>) -> (r: Option<
    Vec<Vec<String>>,
>)
    ensures
        match r {
            Some(rows) => rows@.len() == accountings@.len() + 1 && rows_view(rows@)[0]
                == categorized_header() && forall|i: int|
                0 <= i < accountings@.len() ==> formatted_date_of(
                    (#[trigger] accountings@[i])@.date,
                    DATE_FORMAT@,
                ) is Some && rows_view(rows@)[i + 1] == categorized_record(accountings@[i]@),
            None => exists|i: int|
                0 <= i < accountings@.len() && formatted_date_of(
                    (#[trigger] accountings@[i])@.date,
                    DATE_FORMAT@,
                ) is None,
        },
{
    let header = vec![
        "Date".to_owned(),
        "Datedevaleur".to_owned(),
        "Montant".to_owned(),
        "Libelle".to_owned(),
        "Category".to_owned(),
    ];
    let mut rows: Vec<Vec<String>> = vec![header];
    proof {
        assert(rows_view(rows@)[0] =~= categorized_header());
    }
    let mut i: usize = 0;
    while i < accountings.len()
        invariant
            i <= accountings@.len(),
            rows@.len() == i + 1,
            rows_view(rows@)[0] == categorized_header(),
            forall|j: int|
                0 <= j < i ==> formatted_date_of((#[trigger] accountings@[j])@.date, DATE_FORMAT@)
                    is Some && rows_view(rows@)[j + 1] == categorized_record(accountings@[j]@),
        decreases accountings@.len() - i,
    {
        let e = &accountings[i];
        let date = match e.date_transaction.format() {
            Some(d) => d,
            None => return None,
        };
        let record = vec![
            date,
            e.date_effect.clone(),
            format_amount(e.amount),
            e.label.clone(),
            e.category.clone(),
        ];
        let ghost before = rows@;
        proof {
            assert(record@.map_values(|f: String| f@) =~= categorized_record(e@));
        }
        rows.push(record);
        proof {
            assert forall|j: int| 0 <= j < i + 2 implies #[trigger] rows_view(rows@)[j] == if j
                < i + 1 {
                rows_view(before)[j]
            } else {
                categorized_record(e@)
            } by {}
        }
        i = i + 1;
    }
    Some(rows)
}

} // verus!
