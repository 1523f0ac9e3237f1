//! Sums of amounts, and the check that every category is a known one.
use vstd::prelude::*;
use crate::category::{is_category_name, Category};
use crate::error::AccountingError;
use crate::transaction::{models, AccountingEntry, EntryModel};

verus! {

/// The sum of the amounts of transactions, in cents.
pub open spec fn sum_amounts(s: Seq<EntryModel>) -> int
    decreases s.len(),
{
    if s.len() == 0 {
        0
    } else {
        sum_amounts(s.drop_last()) + s.last().amount
    }
}

/// The sum of the amounts of the transactions of category `c`, in cents.
pub open spec fn sum_in_category(s: Seq<EntryModel>, c: Seq<char>) -> int
    decreases s.len(),
{
    if s.len() == 0 {
        0
    } else if s.last().category == c {
        sum_in_category(s.drop_last(), c) + s.last().amount
    } else {
        sum_in_category(s.drop_last(), c)
    }
}

/// 2 to the 63rd: no amount is further from zero.
pub open spec fn amount_bound() -> int {
    0x8000_0000_0000_0000
}

proof fn lemma_sum_fits(i: int, sum: int, a: int)
    requires
        0 <= i < usize::MAX,
        -(i * amount_bound()) <= sum <= i * amount_bound(),
        -amount_bound() <= a < amount_bound(),
    ensures
        -((i + 1) * amount_bound()) <= sum + a <= (i + 1) * amount_bound(),
        i128::MIN <= sum + a <= i128::MAX,
{
    assert(usize::MAX <= u64::MAX);
    assert((i + 1) * amount_bound() <= 0xffff_ffff_ffff_ffff * amount_bound()) by (nonlinear_arith)
        requires
            i + 1 <= 0xffff_ffff_ffff_ffff,
            amount_bound() == 0x8000_0000_0000_0000,
    ;
    assert((i + 1) * amount_bound() == i * amount_bound() + amount_bound()) by (nonlinear_arith);
}

/// The sum of the amounts of all transactions, in cents.
pub fn get_sum_all_amounts(accountings: &Vec<AccountingEntry>) -> (r: i128)
    ensures
        r == sum_amounts(models(accountings@)),
{
    let mut sum: i128 = 0;
    let mut i: usize = 0;
    while i < accountings.len()
        invariant
            i <= accountings@.len(),
            sum == sum_amounts(models(accountings@.subrange(0, i as int))),
            -(i * amount_bound()) <= sum <= i * amount_bound(),
        decreases accountings@.len() - i,
    {
        let a = accountings[i].amount;
        proof {
            lemma_sum_fits(i as int, sum as int, a as int);
            assert(models(accountings@.subrange(0, i + 1)).drop_last() =~= models(
                accountings@.subrange(0, i as int),
            ));
        }
        sum = sum + a as i128;
        i = i + 1;
    }
    assert(accountings@.subrange(0, i as int) =~= accountings@);
    sum
}

/// The sum of the amounts of the transactions of a category, in cents; the
/// category is compared as text, case included.
pub fn get_sum_category(accountings: &Vec<AccountingEntry>, category: &str) -> (r: i128)
    ensures
        r == sum_in_category(models(accountings@), category@),
{
    let mut sum: i128 = 0;
    let mut i: usize = 0;
    while i < accountings.len()
        invariant
            i <= accountings@.len(),
            sum == sum_in_category(models(accountings@.subrange(0, i as int)), category@),
            -(i * amount_bound()) <= sum <= i * amount_bound(),
        decreases accountings@.len() - i,
    {
        let a = accountings[i].amount;
        proof {
            lemma_sum_fits(i as int, sum as int, a as int);
            lemma_sum_fits(i as int, sum as int, 0);
            assert(models(accountings@.subrange(0, i + 1)).drop_last() =~= models(
                accountings@.subrange(0, i as int),
            ));
        }
        if crate::text::same_text(accountings[i].category.as_str(), category) {
            sum = sum + a as i128;
        }
        i = i + 1;
    }
    assert(accountings@.subrange(0, i as int) =~= accountings@);
    sum
}

/// Fails on the first transaction whose category is not a known one, naming
/// that category.
pub fn check_categories(accountings: &Vec<AccountingEntry>) -> (r: Result<(), AccountingError>)
    ensures
        r is Ok <==> forall|i: int|
            0 <= i < accountings@.len() ==> is_category_name(#[trigger] accountings@[i].category@),
        match r {
            Ok(_) => true,
            Err(e) => e matches AccountingError::UnknownCategory { name } && exists|i: int|
                0 <= i < accountings@.len() && !is_category_name(accountings@[i].category@)
                    && name@ == accountings@[i].category@ && forall|j: int|
                    0 <= j < i ==> is_category_name(#[trigger] accountings@[j].category@),
        },
{
    let mut i: usize = 0;
    while i < accountings.len()
        invariant
            i <= accountings@.len(),
            forall|j: int| 0 <= j < i ==> is_category_name(#[trigger] accountings@[j].category@),
        decreases accountings@.len() - i,
    {
        match Category::from_name(accountings[i].category.as_str()) {
            Some(_) => {},
            None => {
                return Err(AccountingError::UnknownCategory { name: accountings[i].category.clone() });
            },
        }
        i = i + 1;
    }
    Ok(())
}

/// No transactions sum to zero, overall and in every category.
pub proof fn lemma_sums_of_nothing(c: Seq<char>)
    ensures
        sum_amounts(Seq::<EntryModel>::empty()) == 0,
        sum_in_category(Seq::<EntryModel>::empty(), c) == 0,
{
}

/// Transactions of which none has category `c` sum to zero in `c`.
pub proof fn lemma_sum_of_absent_category(s: Seq<EntryModel>, c: Seq<char>)
    requires
        forall|i: int| 0 <= i < s.len() ==> (#[trigger] s[i]).category != c,
    ensures
        sum_in_category(s, c) == 0,
    decreases s.len(),
{
    if s.len() > 0 {
        let t = s.drop_last();
        assert forall|i: int| 0 <= i < t.len() implies (#[trigger] t[i]).category != c by {
            assert(t[i] == s[i]);
        }
        lemma_sum_of_absent_category(t, c);
        assert(s.last() == s[s.len() - 1]);
    }
}

} // verus!
