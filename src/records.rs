//! The delimited text of the bank's files, read as a header and records of
//! fields, and the columns that records are read by.
use vstd::prelude::*;
use vstd::string::StringSliceAdditionalSpecFns;
use crate::error::AccountingError;
use crate::text::same_text;

verus! {

/// What csv reads from a text: the header first, then each record, as fields.
pub uninterp spec fn csv_records_of(text: Seq<char>) -> Option<Seq<Seq<Seq<char>>>>;

/// Rows of fields, as texts.
pub open spec fn rows_view(rows: Seq<Vec<String>>) -> Seq<Seq<Seq<char>>> {
    rows.map_values(|row: Vec<String>| row@.map_values(|f: String| f@))
}

#[verifier::external_type_specification]
#[verifier::external_body]
pub struct ExCsvError(csv::Error);

/// Relies on csv's `Reader` with its default settings: `headers` gives the first
/// record (empty where the text is), `records` each later one, and a record whose
/// number of fields differs from the first record's is an error.
#[verifier::external_body]
fn read_csv_rows(text: &str) -> (r: Result<Vec<Vec<String>>, csv::Error>)
    ensures
        match r {
            Ok(rows) => csv_records_of(text@) == Some(rows_view(rows@)) && rows@.len() >= 1
                && forall|i: int| 0 <= i < rows@.len() ==> #[trigger] rows@[i]@.len() == rows@[0]@.len(),
            Err(_) => csv_records_of(text@) is None,
        },
{
    let mut reader = csv::Reader::from_reader(text.as_bytes());
    let mut rows = vec![reader.headers()?.iter().map(String::from).collect()];
    for record in reader.records() {
        rows.push(record?.iter().map(String::from).collect());
    }
    Ok(rows)
}

/// The rows of a delimited text, the header first; every row has as many
/// fields as the header.
pub fn read_rows(text: &str) -> (r: Result<Vec<Vec<String>>, AccountingError>)
    ensures
        match r {
            Ok(rows) => csv_records_of(text@) == Some(rows_view(rows@)) && rows@.len() >= 1
                && forall|i: int| 0 <= i < rows@.len() ==> #[trigger] rows@[i]@.len() == rows@[0]@.len(),
            Err(e) => csv_records_of(text@) is None && e is CsvSyntax,
        },
{
    match read_csv_rows(text) {
        Ok(rows) => Ok(rows),
        Err(_) => Err(AccountingError::CsvSyntax),
    }
}

/// The column of `name` in a header: the last one of that name.
pub open spec fn column_of(header: Seq<Seq<char>>, name: Seq<char>) -> Option<int>
    decreases header.len(),
{
    if header.len() == 0 {
        None
    } else if header.last() == name {
        Some(header.len() - 1)
    } else {
        column_of(header.drop_last(), name)
    }
}

/// A column found by `column_of` lies in the header and has that name.
pub proof fn lemma_column_of(header: Seq<Seq<char>>, name: Seq<char>)
    ensures
        match column_of(header, name) {
            Some(i) => 0 <= i < header.len() && header[i] == name,
            None => true,
        },
    decreases header.len(),
{
    if header.len() > 0 && header.last() != name {
        lemma_column_of(header.drop_last(), name);
    }
}

/// Finds the column of `name` in a header.
pub fn find_column(header: &Vec<String>, name: &str) -> (r: Option<usize>)
    ensures
        match r {
            Some(i) => column_of(header@.map_values(|f: String| f@), name@) == Some(i as int)
                && i < header@.len(),
            None => column_of(header@.map_values(|f: String| f@), name@) is None,
        },
{
    let ghost h = header@.map_values(|f: String| f@);
    let mut i: usize = header.len();
    assert(h.subrange(0, i as int) =~= h);
    while i > 0
        invariant
            i <= header@.len(),
            h == header@.map_values(|f: String| f@),
            column_of(h, name@) == column_of(h.subrange(0, i as int), name@),
        decreases i,
    {
        let ghost prefix = h.subrange(0, i as int);
        assert(prefix.drop_last() =~= h.subrange(0, i - 1));
        assert(prefix.last() == header@[i - 1]@);
        if same_text(header[i - 1].as_str(), name) {
            return Some(i - 1);
        }
        i = i - 1;
    }
    assert(h.subrange(0, 0) =~= Seq::<Seq<char>>::empty());
    None
}

/// The header that the bank's files are given in place of their first line.
pub const RAW_HEADER: &'static str = "Date,Datedevaleur,Montant,Libelle,Solde\n";

/// The index of the first line feed of `content`.
pub open spec fn first_newline(content: Seq<u8>) -> Option<int>
    decreases content.len(),
{
    if content.len() == 0 {
        None
    } else {
        match first_newline(content.drop_last()) {
            Some(i) => Some(i),
            None => if content.last() == 10u8 {
                Some(content.len() - 1)
            } else {
                None
            },
        }
    }
}

/// `content` with its first line, line feed included, replaced by the header
/// of the bank's files; `None` where it has no line feed.
pub fn replace_first_line(content: &Vec<u8>) -> (r: Option<Vec<u8>>)
    ensures
        match r {
            Some(v) => first_newline(content@) matches Some(i) && v@ == RAW_HEADER.spec_bytes()
                + content@.subrange(i + 1, content@.len() as int),
            None => first_newline(content@) is None,
        },
{
    let mut i: usize = 0;
    while i < content.len()
        invariant
            i <= content@.len(),
            first_newline(content@.subrange(0, i as int)) is None,
        decreases content@.len() - i,
    {
        assert(content@.subrange(0, i + 1).drop_last() =~= content@.subrange(0, i as int));
        if content[i] == 10u8 {
            proof {
                lemma_first_newline_prefix(content@, i + 1);
            }
            let mut out: Vec<u8> = vstd::slice::slice_to_vec(RAW_HEADER.as_bytes());
            let mut j: usize = i + 1;
            let ghost head = out@;
            while j < content.len()
                invariant
                    i + 1 <= j <= content@.len(),
                    out@ == head + content@.subrange(i + 1, j as int),
                decreases content@.len() - j,
            {
                out.push(content[j]);
                j = j + 1;
                assert(out@ =~= head + content@.subrange(i + 1, j as int));
            }
            return Some(out);
        }
        i = i + 1;
    }
    assert(content@.subrange(0, content@.len() as int) =~= content@);
    None
}

/// Where a prefix of `content` has a line feed, it is the first of `content`.
proof fn lemma_first_newline_prefix(content: Seq<u8>, k: int)
    requires
        0 <= k <= content.len(),
        first_newline(content.subrange(0, k)) is Some,
    ensures
        first_newline(content) == first_newline(content.subrange(0, k)),
    decreases content.len() - k,
{
    if k < content.len() {
        assert(content.subrange(0, k + 1).drop_last() =~= content.subrange(0, k));
        lemma_first_newline_prefix(content, k + 1);
    } else {
        assert(content.subrange(0, k) =~= content);
    }
}

} // verus!
