//! What earlier categorised files taught: the category of each normalised label.
use vstd::prelude::*;
use crate::category::Category;
use crate::label::{get_label_without_number, without_digits};
use crate::error::AccountingError;
use crate::text::same_text;
use crate::transaction::{models, read_categorized_entries, read_error_matches, read_spec, AccountingEntry, EntryModel};

verus! {

/// A map from normalised label to category, in which a later entry for a label
/// replaces an earlier one.
pub struct KnowledgeBase {
    entries: Vec<(String, String)>,
    map: Ghost<Map<Seq<char>, Seq<char>>>,
}

impl View for KnowledgeBase {
    type V = Map<Seq<char>, Seq<char>>;

    closed spec fn view(&self) -> Map<Seq<char>, Seq<char>> {
        self.map@
    }
}

impl KnowledgeBase {
    /// Each label stands once, and the map holds exactly the pairs of `entries`.
    pub closed spec fn wf(&self) -> bool {
        &&& forall|i: int, j: int|
            0 <= i < j < self.entries@.len() ==> self.entries@[i].0@ != self.entries@[j].0@
        &&& forall|i: int|
            0 <= i < self.entries@.len() ==> #[trigger] self.map@.contains_key(self.entries@[i].0@)
                && self.map@[self.entries@[i].0@] == self.entries@[i].1@
        &&& forall|k: Seq<char>|
            #[trigger] self.map@.contains_key(k) ==> exists|i: int|
                0 <= i < self.entries@.len() && self.entries@[i].0@ == k
    }

    /// A knowledge base that knows no label.
    pub fn new() -> (r: KnowledgeBase)
        ensures
            r.wf(),
            r@ == Map::<Seq<char>, Seq<char>>::empty(),
    {
        KnowledgeBase { entries: Vec::new(), map: Ghost(Map::empty()) }
    }

    /// Where `key` stands in the entries, if it does.
    fn position(&self, key: &str) -> (r: Option<usize>)
        requires
            self.wf(),
        ensures
            match r {
                Some(i) => i < self.entries@.len() && self.entries@[i as int].0@ == key@,
                None => !self@.contains_key(key@),
            },
    {
        let mut i: usize = 0;
        while i < self.entries.len()
            invariant
                i <= self.entries@.len(),
                forall|j: int| 0 <= j < i ==> self.entries@[j].0@ != key@,
            decreases self.entries@.len() - i,
        {
            if same_text(self.entries[i].0.as_str(), key) {
                return Some(i);
            }
            i = i + 1;
        }
        None
    }

    /// The category known for a normalised label.
    pub fn get(&self, key: &str) -> (r: Option<&String>)
        requires
            self.wf(),
        ensures
            match r {
                Some(v) => self@.contains_key(key@) && self@[key@] == v@,
                None => !self@.contains_key(key@),
            },
    {
        match self.position(key) {
            Some(i) => {
                assert(self.map@.contains_key(self.entries@[i as int].0@));
                Some(&self.entries[i].1)
            },
            None => None,
        }
    }

    /// Records `value` as the category of `key`, replacing what was known of it.
    pub fn insert(&mut self, key: String, value: String)
        requires
            old(self).wf(),
        ensures
            final(self).wf(),
            final(self)@ == old(self)@.insert(key@, value@),
    {
        let ghost old_map = self.map@;
        match self.position(key.as_str()) {
            Some(i) => {
                let ghost k = key@;
                self.entries.set(i, (key, value));
                self.map = Ghost(old_map.insert(k, value@));
                assert forall|j: int|
                    0 <= j < self.entries@.len() implies #[trigger] self.entries@[j].0@ == old(
                    self,
                ).entries@[j].0@ by {}
                assert forall|j: int| 0 <= j < self.entries@.len() implies #[trigger]
                    self.map@.contains_key(self.entries@[j].0@) && self.map@[self.entries@[j].0@]
                    == self.entries@[j].1@ by {
                    if j != i {
                        assert(old(self).map@.contains_key(old(self).entries@[j].0@));
                    }
                }
                assert forall|q: Seq<char>| #[trigger] self.map@.contains_key(q) implies exists|
                    j: int,
                | 0 <= j < self.entries@.len() && self.entries@[j].0@ == q by {
                    if q != k {
                        let j = choose|j: int|
                            0 <= j < old(self).entries@.len() && old(self).entries@[j].0@ == q;
                        assert(self.entries@[j].0@ == q);
                    } else {
                        assert(self.entries@[i as int].0@ == q);
                    }
                }
            },
            None => {
                let ghost k = key@;
                self.entries.push((key, value));
                self.map = Ghost(old_map.insert(k, value@));
                let ghost n = old(self).entries@.len();
                assert forall|j: int| 0 <= j < n implies #[trigger] self.entries@[j].0@ != k by {
                    assert(old(self).map@.contains_key(old(self).entries@[j].0@));
                }
                assert forall|j: int| 0 <= j < self.entries@.len() implies #[trigger]
                    self.map@.contains_key(self.entries@[j].0@) && self.map@[self.entries@[j].0@]
                    == self.entries@[j].1@ by {
                    if j < n {
                        assert(old(self).map@.contains_key(old(self).entries@[j].0@));
                    }
                }
                assert forall|q: Seq<char>| #[trigger] self.map@.contains_key(q) implies exists|
                    j: int,
                | 0 <= j < self.entries@.len() && self.entries@[j].0@ == q by {
                    if q != k {
                        let j = choose|j: int|
                            0 <= j < old(self).entries@.len() && old(self).entries@[j].0@ == q;
                        assert(self.entries@[j].0@ == q);
                    } else {
                        assert(self.entries@[self.entries@.len() - 1].0@ == q);
                    }
                }
            },
        }
        assert(self.map@ =~= old(self)@.insert(key@, value@));
    }
}

/// What a knowledge base knows after learning transactions in their order: the
/// category of each one's normalised label, a later one replacing an earlier.
pub open spec fn learned(m: Map<Seq<char>, Seq<char>>, s: Seq<EntryModel>) -> Map<
    Seq<char>,
    Seq<char>,
>
    decreases s.len(),
{
    if s.len() == 0 {
        m
    } else {
        learned(m, s.drop_last()).insert(without_digits(s.last().label), s.last().category)
    }
}

/// What is known after learning the transactions of categorised files, in
/// their order, each of which can be read.
pub open spec fn learned_from_files(files: Seq<Seq<char>>) -> Map<Seq<char>, Seq<char>>
    decreases files.len(),
{
    if files.len() == 0 {
        Map::empty()
    } else {
        learned(learned_from_files(files.drop_last()), read_spec(files.last(), None, None)->0)
    }
}

impl KnowledgeBase {
    /// Learns the category of each transaction's normalised label, in order.
    pub fn learn(&mut self, entries: &Vec<AccountingEntry>)
        requires
            old(self).wf(),
        ensures
            final(self).wf(),
            final(self)@ == learned(old(self)@, models(entries@)),
    {
        let mut i: usize = 0;
        while i < entries.len()
            invariant
                i <= entries@.len(),
                self.wf(),
                self@ == learned(old(self)@, models(entries@.subrange(0, i as int))),
            decreases entries@.len() - i,
        {
            let ghost before = models(entries@.subrange(0, i as int));
            assert(models(entries@.subrange(0, i + 1)).drop_last() =~= before);
            let key = get_label_without_number(&entries[i].label);
            self.insert(key, entries[i].category.clone());
            i = i + 1;
        }
        assert(entries@.subrange(0, i as int) =~= entries@);
    }
}

/// The knowledge base taught by the texts of categorised files, in their order;
/// fails with the error of the first file that cannot be read.
pub fn get_known_labels_categories_map(files: &Vec<String>) -> (r: Result<
    KnowledgeBase,
    AccountingError,
>)
    ensures
        match r {
            Ok(kb) => kb.wf() && (forall|i: int|
                0 <= i < files@.len() ==> read_spec(#[trigger] files@[i]@, None, None) is Some)
                && kb@ == learned_from_files(files@.map_values(|f: String| f@)),
            Err(e) => exists|i: int|
                0 <= i < files@.len() && (forall|j: int|
                    0 <= j < i ==> read_spec(#[trigger] files@[j]@, None, None) is Some)
                    && read_spec(files@[i]@, None, None) is None && read_error_matches(
                    files@[i]@,
                    true,
                    e,
                ),
        },
{
    let mut kb = KnowledgeBase::new();
    let mut i: usize = 0;
    while i < files.len()
        invariant
            i <= files@.len(),
            kb.wf(),
            forall|j: int| 0 <= j < i ==> read_spec(#[trigger] files@[j]@, None, None) is Some,
            kb@ == learned_from_files(files@.subrange(0, i as int).map_values(|f: String| f@)),
        decreases files@.len() - i,
    {
        let entries = match read_categorized_entries(files[i].as_str()) {
            Ok(v) => v,
            Err(e) => return Err(e),
        };
        let ghost fs = files@.subrange(0, i + 1).map_values(|f: String| f@);
        assert(fs.drop_last() =~= files@.subrange(0, i as int).map_values(|f: String| f@));
        assert(fs.last() == files@[i as int]@);
        kb.learn(&entries);
        i = i + 1;
    }
    assert(files@.subrange(0, i as int) =~= files@);
    Ok(kb)
}

/// The category that a label gets from what is known: `Unknown` where its
/// normalised form is not known, `Retraits` where it is known as one of the two
/// sub-kinds of withdrawals, and the known category otherwise.
pub open spec fn guessed_category(kb: Map<Seq<char>, Seq<char>>, label: Seq<char>) -> Seq<char> {
    let key = without_digits(label);
    if !kb.contains_key(key) {
        "Unknown"@
    } else if kb[key] == "RetraitsSO"@ || kb[key] == "RetraitsP"@ {
        "Retraits"@
    } else {
        kb[key]
    }
}

/// The category guessed for a label.
pub fn get_category_from_label(label: &String, kb: &KnowledgeBase) -> (r: String)
    requires
        kb.wf(),
    ensures
        r@ == guessed_category(kb@, label@),
{
    let key = get_label_without_number(label);
    match kb.get(key.as_str()) {
        None => Category::Unknown.name(),
        Some(category) => {
            if same_text(category.as_str(), Category::RetraitsSO.as_str()) || same_text(
                category.as_str(),
                Category::RetraitsP.as_str(),
            ) {
                Category::Retraits.name()
            } else {
                category.clone()
            }
        },
    }
}

/// A label gets `Unknown` exactly when its normalised form is not known, for
/// every knowledge base that does not itself record `Unknown` for that form.
pub proof fn lemma_unknown_iff_not_known(kb: Map<Seq<char>, Seq<char>>, label: Seq<char>)
    requires
        !(kb.contains_key(without_digits(label)) && kb[without_digits(label)] == "Unknown"@),
    ensures
        guessed_category(kb, label) == "Unknown"@ <==> !kb.contains_key(without_digits(label)),
{
    reveal_strlit("Unknown");
    reveal_strlit("Retraits");
    assert("Retraits"@[0] != "Unknown"@[0]);
}

/// A label known under either sub-kind of withdrawals gets `Retraits`, never the
/// sub-kind.
pub proof fn lemma_withdrawal_aliases_collapse(kb: Map<Seq<char>, Seq<char>>, label: Seq<char>)
    requires
        kb.contains_key(without_digits(label)),
        kb[without_digits(label)] == "RetraitsSO"@ || kb[without_digits(label)] == "RetraitsP"@,
    ensures
        guessed_category(kb, label) == "Retraits"@,
        guessed_category(kb, label) != "RetraitsSO"@,
        guessed_category(kb, label) != "RetraitsP"@,
{
    reveal_strlit("Retraits");
    reveal_strlit("RetraitsSO");
    reveal_strlit("RetraitsP");
    assert("Retraits"@.len() != "RetraitsSO"@.len());
    assert("Retraits"@.len() != "RetraitsP"@.len());
}

} // verus!
