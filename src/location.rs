use vstd::prelude::*;

verus! {

/// The category an addon belongs to, each mapped to a conventional folder.
#[derive(Clone, Debug, PartialEq, Eq, PartialOrd, Ord, Hash)]
pub enum AddonLocation {
    Addons,
    Optionals,
    Compats,
    Custom(String),
}

impl AddonLocation {
    /// Name of the folder holding the addons of this category.
    pub open spec fn folder(self) -> Seq<char> {
        match self {
            AddonLocation::Addons => seq!['a', 'd', 'd', 'o', 'n', 's'],
            AddonLocation::Optionals => seq!['o', 'p', 't', 'i', 'o', 'n', 'a', 'l', 's'],
            AddonLocation::Compats => seq!['c', 'o', 'm', 'p', 'a', 't', 's'],
            AddonLocation::Custom(name) => name@,
        }
    }

    /// The locations searched when an addon is looked up, in priority order.
    pub open spec fn first_class_spec() -> Seq<AddonLocation> {
        seq![AddonLocation::Addons, AddonLocation::Optionals, AddonLocation::Compats]
    }

    /// The locations searched when an addon is looked up, in priority order.
    pub fn first_class() -> (r: Vec<AddonLocation>)
        ensures
            r@ == Self::first_class_spec(),
    {
        let r = vec![AddonLocation::Addons, AddonLocation::Optionals, AddonLocation::Compats];
        assert(r@ =~= Self::first_class_spec());
        r
    }

    /// The `i`-th location of `first_class`.
    pub fn first_class_at(i: usize) -> (r: AddonLocation)
        requires
            i < 3,
        ensures
            r == Self::first_class_spec()[i as int],
    {
        if i == 0 {
            AddonLocation::Addons
        } else if i == 1 {
            AddonLocation::Optionals
        } else {
            AddonLocation::Compats
        }
    }

    /// The folder name of this category.
    pub fn to_string(&self) -> (r: String)
        ensures
            r@ == self.folder(),
    {
        match self {
            AddonLocation::Addons => {
                proof { reveal_strlit("addons"); }
                String::from_str("addons")
            },
            AddonLocation::Optionals => {
                proof { reveal_strlit("optionals"); }
                String::from_str("optionals")
            },
            AddonLocation::Compats => {
                proof { reveal_strlit("compats"); }
                String::from_str("compats")
            },
            AddonLocation::Custom(name) => name.clone(),
        }
    }
}

} // verus!
