//! The running balance of an account at the start of a month.
use vstd::prelude::*;
use crate::amount::{amount_value, parse_amount};
use crate::date::{date_le, parsed_date_of, Date, DATE_FORMAT};
use crate::error::AccountingError;
use crate::records::{column_of, csv_records_of, find_column, read_rows, rows_view};

verus! {

/// A row of a file with balances: its date and the balance after it, in cents.
#[derive(Clone, Copy, Debug, PartialEq, Eq, Structural)]
pub struct BalanceRow {
    pub date: Date,
    pub balance: i64,
}

impl View for BalanceRow {
    type V = ((int, int, int), int);

    open spec fn view(&self) -> ((int, int, int), int) {
        (self.date@, self.balance as int)
    }
}

/// Rows with balances, as mathematical values.
pub open spec fn balance_models(rows: Seq<BalanceRow>) -> Seq<((int, int, int), int)> {
    rows.map_values(|r: BalanceRow| r@)
}

/// `b` is the balance of the month that starts on `first`: that of the last
/// row dated `first` where there is one, and otherwise that of the first row
/// dated after `first`.
pub open spec fn balance_found(rows: Seq<((int, int, int), int)>, first: (int, int, int), b: int) -> bool {
    ||| exists|i: int|
        0 <= i < rows.len() && rows[i].0 == first && rows[i].1 == b && forall|k: int|
            i < k < rows.len() ==> (#[trigger] rows[k]).0 != first
    ||| (forall|k: int| 0 <= k < rows.len() ==> (#[trigger] rows[k]).0 != first) && exists|i: int|
        0 <= i < rows.len() && date_le(first, rows[i].0) && rows[i].1 == b && forall|k: int|
            0 <= k < i ==> !date_le(first, (#[trigger] rows[k]).0)
}

/// No row is dated on or after `first`.
pub open spec fn no_balance(rows: Seq<((int, int, int), int)>, first: (int, int, int)) -> bool {
    forall|k: int| 0 <= k < rows.len() ==> !date_le(first, (#[trigger] rows[k]).0)
}

/// The balance at the start of `month` of `year`, scanning the rows in their
/// order.
pub fn extract_balance(rows: &Vec<BalanceRow>, month: u32, year: i32) -> (r: Result<
    i64,
    AccountingError,
>)
    requires
        1 <= month <= 12,
    ensures
        match r {
            Ok(b) => balance_found(balance_models(rows@), (year as int, month as int, 1), b as int),
            Err(e) => e is BalanceNotFound && no_balance(
                balance_models(rows@),
                (year as int, month as int, 1),
            ),
        },
{
    let first = Date { year, month, day: 1 };
    let ghost f = first@;
    let mut balance: Option<i64> = None;
    let ghost mut g: int = 0;
    let mut i: usize = 0;
    while i < rows.len()
        invariant
            i <= rows@.len(),
            f == first@,
            balance is None <==> forall|k: int|
                0 <= k < i ==> !date_le(f, (#[trigger] rows@[k]).date@),
            balance matches Some(b) ==> 0 <= g < i && rows@[g].balance == b && ((rows@[g].date@
                == f && forall|k: int| g < k < i ==> (#[trigger] rows@[k]).date@ != f) || ((forall|
                k: int,
            | 0 <= k < i ==> (#[trigger] rows@[k]).date@ != f) && date_le(f, rows@[g].date@)
                && forall|k: int| 0 <= k < g ==> !date_le(f, (#[trigger] rows@[k]).date@))),
        decreases rows@.len() - i,
    {
        let row = rows[i];
        if row.date == first {
            balance = Some(row.balance);
            proof {
                g = i as int;
            }
        } else if first.is_on_or_before(&row.date) && balance.is_none() {
            balance = Some(row.balance);
            proof {
                g = i as int;
            }
        }
        i = i + 1;
    }
    let ghost m = balance_models(rows@);
    assert forall|k: int| 0 <= k < rows@.len() implies #[trigger] m[k] == rows@[k]@ by {}
    match balance {
        Some(b) => {
            assert(m[g] == rows@[g]@);
            Ok(b)
        },
        None => Err(AccountingError::BalanceNotFound),
    }
}

} // verus!

verus! {

/// The first of the two columns, date and balance, that a header lacks.
pub open spec fn first_missing_balance_column(header: Seq<Seq<char>>) -> Option<Seq<char>> {
    if column_of(header, "Date"@) is None {
        Some("Date"@)
    } else if column_of(header, "Solde"@) is None {
        Some("Solde"@)
    } else {
        None
    }
}

/// The date of a record of a file with balances.
pub open spec fn balance_row_date(header: Seq<Seq<char>>, row: Seq<Seq<char>>) -> Option<
    (int, int, int),
> {
    parsed_date_of(row[column_of(header, "Date"@)->0], DATE_FORMAT@)
}

/// The balance of a record of a file with balances.
pub open spec fn balance_row_value(header: Seq<Seq<char>>, row: Seq<Seq<char>>) -> Option<int> {
    amount_value(row[column_of(header, "Solde"@)->0])
}

/// A record whose date and balance can be read.
pub open spec fn balance_row_ok(header: Seq<Seq<char>>, row: Seq<Seq<char>>) -> bool {
    balance_row_date(header, row) is Some && balance_row_value(header, row) is Some
}

/// The records of a file with balances, after the header, as date and balance.
pub open spec fn balance_rows(t: Seq<Seq<Seq<char>>>) -> Seq<((int, int, int), int)> {
    t.subrange(1, t.len() as int).map_values(
        |row: Seq<Seq<char>>|
            (balance_row_date(t[0], row)->0, balance_row_value(t[0], row)->0),
    )
}

/// Every record of a file with balances can be read.
pub open spec fn balance_table_ok(t: Seq<Seq<Seq<char>>>) -> bool {
    t.len() == 1 || (first_missing_balance_column(t[0]) is None && forall|i: int|
        1 <= i < t.len() ==> balance_row_ok(t[0], #[trigger] t[i]))
}

/// The balance at the start of `month` of `year`, read from the text of a file
/// with balances.
pub fn read_balance_from_csv(text: &str, month: u32, year: i32) -> (r: Result<
    i64,
    AccountingError,
>)
    requires
        1 <= month <= 12,
    ensures
        match r {
            Ok(b) => csv_records_of(text@) matches Some(t) && balance_table_ok(t) && balance_found(
                balance_rows(t),
                (year as int, month as int, 1),
                b as int,
            ),
            Err(e) => match csv_records_of(text@) {
                None => e is CsvSyntax,
                Some(t) => match e {
                    AccountingError::BalanceNotFound => balance_table_ok(t) && no_balance(
                        balance_rows(t),
                        (year as int, month as int, 1),
                    ),
                    AccountingError::MissingColumn { name } => t.len() > 1
                        && first_missing_balance_column(t[0]) == Some(name@),
                    AccountingError::DateFormat { text } => t.len() > 1
                        && first_missing_balance_column(t[0]) is None && exists|i: int|
                        1 <= i < t.len() && (forall|j: int|
                            1 <= j < i ==> balance_row_ok(t[0], #[trigger] t[j])) && balance_row_date(
                            t[0],
                            t[i],
                        ) is None && text@ == t[i][column_of(t[0], "Date"@)->0],
                    AccountingError::AmountFormat { text } => t.len() > 1
                        && first_missing_balance_column(t[0]) is None && exists|i: int|
                        1 <= i < t.len() && (forall|j: int|
                            1 <= j < i ==> balance_row_ok(t[0], #[trigger] t[j])) && balance_row_date(
                            t[0],
                            t[i],
                        ) is Some && balance_row_value(t[0], t[i]) is None && text@ == t[i][column_of(
                            t[0],
                            "Solde"@,
                        )->0],
                    _ => false,
                },
            },
        },
{
    let rows = read_rows(text)?;
    let ghost t = rows_view(rows@);
    let mut parsed: Vec<BalanceRow> = Vec::new();
    if rows.len() > 1 {
        let ghost h = t[0];
        assert(h == rows@[0]@.map_values(|f: String| f@));
        let date_col = match find_column(&rows[0], "Date") {
            Some(c) => c,
            None => return Err(AccountingError::MissingColumn { name: "Date".to_owned() }),
        };
        let balance_col = match find_column(&rows[0], "Solde") {
            Some(c) => c,
            None => return Err(AccountingError::MissingColumn { name: "Solde".to_owned() }),
        };
        let mut i: usize = 1;
        proof {
            assert(balance_models(parsed@) =~= t.subrange(1, 1).map_values(
                |row: Seq<Seq<char>>|
                    (balance_row_date(h, row)->0, balance_row_value(h, row)->0),
            ));
        }
        while i < rows.len()
            invariant
                1 <= i <= rows@.len(),
                t == rows_view(rows@),
                csv_records_of(text@) == Some(t),
                t.len() == rows@.len(),
                h == t[0],
                forall|j: int|
                    0 <= j < rows@.len() ==> #[trigger] rows@[j]@.len() == rows@[0]@.len(),
                column_of(h, "Date"@) == Some(date_col as int),
                column_of(h, "Solde"@) == Some(balance_col as int),
                date_col < rows@[0]@.len(),
                balance_col < rows@[0]@.len(),
                forall|j: int| 1 <= j < i ==> balance_row_ok(h, #[trigger] t[j]),
                balance_models(parsed@) == t.subrange(1, i as int).map_values(
                    |row: Seq<Seq<char>>|
                        (balance_row_date(h, row)->0, balance_row_value(h, row)->0),
                ),
            decreases rows@.len() - i,
        {
            let row = &rows[i];
            let ghost rv = row@.map_values(|f: String| f@);
            assert(t[i as int] == rv);
            assert(rv[date_col as int] == row@[date_col as int]@);
            assert(rv[balance_col as int] == row@[balance_col as int]@);
            let date = match Date::parse(row[date_col].as_str()) {
                Some(d) => d,
                None => {
                    proof {
                        assert(first_missing_balance_column(h) is None);
                        assert(balance_row_date(t[0], t[i as int]) is None);
                        assert(1 <= i < t.len() && (forall|j: int|
                            1 <= j < i ==> balance_row_ok(t[0], #[trigger] t[j])));
                    }
                    return Err(AccountingError::DateFormat { text: row[date_col].clone() });
                },
            };
            let balance = match parse_amount(row[balance_col].as_str()) {
                Some(b) => b,
                None => {
                    proof {
                        assert(first_missing_balance_column(h) is None);
                        assert(balance_row_date(t[0], t[i as int]) is Some);
                        assert(balance_row_value(t[0], t[i as int]) is None);
                        assert(1 <= i < t.len() && (forall|j: int|
                            1 <= j < i ==> balance_row_ok(t[0], #[trigger] t[j])));
                    }
                    return Err(AccountingError::AmountFormat { text: row[balance_col].clone() });
                },
            };
            let ghost before = parsed@;
            parsed.push(BalanceRow { date, balance });
            proof {
                assert(balance_models(parsed@) =~= balance_models(before).push(
                    (date@, balance as int),
                ));
                assert(t.subrange(1, i + 1).map_values(
                    |row: Seq<Seq<char>>|
                        (balance_row_date(h, row)->0, balance_row_value(h, row)->0),
                ) =~= t.subrange(1, i as int).map_values(
                    |row: Seq<Seq<char>>|
                        (balance_row_date(h, row)->0, balance_row_value(h, row)->0),
                ).push((date@, balance as int)));
            }
            i = i + 1;
        }
        proof {
            assert(t.subrange(1, i as int) == t.subrange(1, t.len() as int));
        }
    } else {
        proof {
            assert(balance_models(parsed@) =~= balance_rows(t));
        }
    }
    extract_balance(&parsed, month, year)
}

} // verus!
