//! Label normalisation: the key under which a label is learnt and looked up.
use vstd::prelude::*;

verus! {

/// An ASCII digit, `0` to `9`.
pub open spec fn is_ascii_digit(c: char) -> bool {
    '0' <= c && c <= '9'
}

/// A label with every ASCII digit removed, the other characters kept in order.
pub open spec fn without_digits(s: Seq<char>) -> Seq<char> {
    s.filter(|c: char| !is_ascii_digit(c))
}

/// Relies on regex's `Regex::replace_all`: with the pattern `[0-9]` and an empty
/// replacement, every ASCII digit is removed and nothing else changes.
#[verifier::external_body]
fn remove_ascii_digits(label: &str) -> (r: String)
    ensures
        r@ == without_digits(label@),
{
    let digit = regex::Regex::new(r"[0-9]").unwrap();
    digit.replace_all(label, "").into_owned()
}

/// The normalised form of a label: the label without its digits.
pub fn get_label_without_number(label: &String) -> (r: String)
    ensures
        r@ == without_digits(label@),
{
    remove_ascii_digits(label.as_str())
}

/// Normalising twice gives what normalising once gives, and the normalised
/// label holds no digit.
pub proof fn lemma_normalize_idempotent(s: Seq<char>)
    ensures
        without_digits(without_digits(s)) == without_digits(s),
        forall|i: int|
            0 <= i < without_digits(s).len() ==> !is_ascii_digit(#[trigger] without_digits(s)[i]),
    decreases s.len(),
{
    reveal(Seq::filter);
    broadcast use Seq::lemma_filter_pred;
    if s.len() > 0 {
        lemma_normalize_idempotent(s.drop_last());
        let p = |c: char| !is_ascii_digit(c);
        let rest = s.drop_last().filter(p);
        if p(s.last()) {
            assert(rest.push(s.last()).drop_last() == rest);
        }
    }
}

} // verus!
