//! The closed set of spending categories.
use vstd::prelude::*;
use crate::text::same_text;

verus! {

/// A spending category.
#[derive(Clone, Copy, Debug, PartialEq, Eq, Structural)]
pub enum Category {
    Salaire,
    Loyer,
    Courses,
    RE,
    Fixes,
    Divers,
    Restaurants,
    Voiture,
    RATP,
    SNCF,
    Retraits,
    RetraitsSO,
    RetraitsP,
    Impots,
    DepensesSpe,
    GainsSpe,
    VirComptes,
    Unknown,
}

impl Category {
    /// The name under which the category is written in files.
    pub open spec fn spec_name(self) -> Seq<char> {
        match self {
            Category::Salaire => "Salaire"@,
            Category::Loyer => "Loyer"@,
            Category::Courses => "Courses"@,
            Category::RE => "RE"@,
            Category::Fixes => "Fixes"@,
            Category::Divers => "Divers"@,
            Category::Restaurants => "Restaurants"@,
            Category::Voiture => "Voiture"@,
            Category::RATP => "RATP"@,
            Category::SNCF => "SNCF"@,
            Category::Retraits => "Retraits"@,
            Category::RetraitsSO => "RetraitsSO"@,
            Category::RetraitsP => "RetraitsP"@,
            Category::Impots => "Impots"@,
            Category::DepensesSpe => "DepensesSpe"@,
            Category::GainsSpe => "GainsSpe"@,
            Category::VirComptes => "VirComptes"@,
            Category::Unknown => "Unknown"@,
        }
    }

    /// The text of the category's name.
    pub fn as_str(&self) -> (r: &'static str)
        ensures
            r@ == self.spec_name(),
    {
        match self {
            Category::Salaire => "Salaire",
            Category::Loyer => "Loyer",
            Category::Courses => "Courses",
            Category::RE => "RE",
            Category::Fixes => "Fixes",
            Category::Divers => "Divers",
            Category::Restaurants => "Restaurants",
            Category::Voiture => "Voiture",
            Category::RATP => "RATP",
            Category::SNCF => "SNCF",
            Category::Retraits => "Retraits",
            Category::RetraitsSO => "RetraitsSO",
            Category::RetraitsP => "RetraitsP",
            Category::Impots => "Impots",
            Category::DepensesSpe => "DepensesSpe",
            Category::GainsSpe => "GainsSpe",
            Category::VirComptes => "VirComptes",
            Category::Unknown => "Unknown",
        }
    }

    /// The category's name as an owned text.
    pub fn name(&self) -> (r: String)
        ensures
            r@ == self.spec_name(),
    {
        self.as_str().to_owned()
    }

    /// Every category, in the order of reports.
    pub fn all() -> (r: Vec<Category>)
        ensures
            r@ == seq![
                Category::Salaire,
                Category::Loyer,
                Category::Courses,
                Category::RE,
                Category::Fixes,
                Category::Divers,
                Category::Restaurants,
                Category::Voiture,
                Category::RATP,
                Category::SNCF,
                Category::Retraits,
                Category::RetraitsSO,
                Category::RetraitsP,
                Category::Impots,
                Category::DepensesSpe,
                Category::GainsSpe,
                Category::VirComptes,
                Category::Unknown,
            ],
            forall|c: Category| #[trigger] r@.contains(c),
    {
        let r = vec![
            Category::Salaire,
            Category::Loyer,
            Category::Courses,
            Category::RE,
            Category::Fixes,
            Category::Divers,
            Category::Restaurants,
            Category::Voiture,
            Category::RATP,
            Category::SNCF,
            Category::Retraits,
            Category::RetraitsSO,
            Category::RetraitsP,
            Category::Impots,
            Category::DepensesSpe,
            Category::GainsSpe,
            Category::VirComptes,
            Category::Unknown,
        ];
        assert forall|c: Category| #[trigger] r@.contains(c) by {
            match c {
                Category::Salaire => assert(r@[0] == c),
                Category::Loyer => assert(r@[1] == c),
                Category::Courses => assert(r@[2] == c),
                Category::RE => assert(r@[3] == c),
                Category::Fixes => assert(r@[4] == c),
                Category::Divers => assert(r@[5] == c),
                Category::Restaurants => assert(r@[6] == c),
                Category::Voiture => assert(r@[7] == c),
                Category::RATP => assert(r@[8] == c),
                Category::SNCF => assert(r@[9] == c),
                Category::Retraits => assert(r@[10] == c),
                Category::RetraitsSO => assert(r@[11] == c),
                Category::RetraitsP => assert(r@[12] == c),
                Category::Impots => assert(r@[13] == c),
                Category::DepensesSpe => assert(r@[14] == c),
                Category::GainsSpe => assert(r@[15] == c),
                Category::VirComptes => assert(r@[16] == c),
                Category::Unknown => assert(r@[17] == c),
            }
        }
        assert(r@ =~= seq![
            Category::Salaire,
            Category::Loyer,
            Category::Courses,
            Category::RE,
            Category::Fixes,
            Category::Divers,
            Category::Restaurants,
            Category::Voiture,
            Category::RATP,
            Category::SNCF,
            Category::Retraits,
            Category::RetraitsSO,
            Category::RetraitsP,
            Category::Impots,
            Category::DepensesSpe,
            Category::GainsSpe,
            Category::VirComptes,
            Category::Unknown,
        ]);
        r
    }

    /// The category of a name; `None` where no category has that name.
    pub fn from_name(name: &str) -> (r: Option<Category>)
        ensures
            match r {
                Some(c) => c.spec_name() == name@,
                None => !is_category_name(name@),
            },
    {
        let all = Category::all();
        let mut i: usize = 0;
        while i < all.len()
            invariant
                forall|c: Category| #[trigger] all@.contains(c),
                i <= all@.len(),
                forall|j: int| 0 <= j < i ==> (#[trigger] all@[j]).spec_name() != name@,
            decreases all@.len() - i,
        {
            if same_text(all[i].as_str(), name) {
                return Some(all[i]);
            }
            i = i + 1;
        }
        assert forall|c: Category| c.spec_name() != name@ by {
            assert(all@.contains(c));
        }
        None
    }
}

/// `s` names a category.
pub open spec fn is_category_name(s: Seq<char>) -> bool {
    exists|c: Category| c.spec_name() == s
}

} // verus!
