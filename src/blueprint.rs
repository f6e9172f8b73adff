//! What kind of entity a blueprint string holds.

use vstd::prelude::*;

verus! {

/// The label of a book or a blueprint.
pub struct Labelled {
    pub label: String,
}

/// The keys of a blueprint string's JSON that tell its kind: a book under
/// `blueprint_book`, a blueprint under `blueprint`, planners under
/// `upgrade_planner` and `deconstruction_planner`.
pub struct UnknownBlueprintType {
    pub blueprint_book: Option<Labelled>,
    pub blueprint: Option<Labelled>,
    pub upgrade_planner: Option<Labelled>,
    pub deconstruction_planner: Option<Labelled>,
}

/// The kind of a blueprint string, with the label of what it holds.
#[derive(Debug)]
pub enum BlueprintType {
    Invalid,
    Book(String),
    Blueprint(String),
    UpgradePlanner(String),
    DeconPlanner(String),
}

impl BlueprintType {
    /// The first kind whose key is present, in the order book, blueprint,
    /// upgrade planner, deconstruction planner; invalid where none is.
    pub fn classify(given_bp: &UnknownBlueprintType) -> (r: BlueprintType)
        ensures
            match given_bp.blueprint_book {
                Some(b) => r matches BlueprintType::Book(l) && l@ == b.label@,
                None => match given_bp.blueprint {
                    Some(b) => r matches BlueprintType::Blueprint(l) && l@ == b.label@,
                    None => match given_bp.upgrade_planner {
                        Some(b) => r matches BlueprintType::UpgradePlanner(l) && l@ == b.label@,
                        None => match given_bp.deconstruction_planner {
                            Some(b) => r matches BlueprintType::DeconPlanner(l) && l@ == b.label@,
                            None => r is Invalid,
                        },
                    },
                },
            },
    {
        if let Some(book) = &given_bp.blueprint_book {
            return BlueprintType::Book(book.label.clone());
        }
        if let Some(bp) = &given_bp.blueprint {
            return BlueprintType::Blueprint(bp.label.clone());
        }
        if let Some(planner) = &given_bp.upgrade_planner {
            return BlueprintType::UpgradePlanner(planner.label.clone());
        }
        match &given_bp.deconstruction_planner {
            Some(planner) => BlueprintType::DeconPlanner(planner.label.clone()),
            None => BlueprintType::Invalid,
        }
    }

    /// The key under which the entity stands in JSON, if any.
    pub fn key(&self) -> (r: Option<&'static str>)
        ensures
            match self {
                BlueprintType::Invalid => r is None,
                BlueprintType::Book(_) => r matches Some(k) && k@ == "blueprint_book"@,
                BlueprintType::Blueprint(_) => r matches Some(k) && k@ == "blueprint"@,
                BlueprintType::UpgradePlanner(_) => r matches Some(k) && k@ == "upgrade_planner"@,
                BlueprintType::DeconPlanner(_) => r matches Some(k) && k@
                    == "deconstruction_planner"@,
            },
    {
        match self {
            BlueprintType::Invalid => None,
            BlueprintType::Book(_) => Some("blueprint_book"),
            BlueprintType::Blueprint(_) => Some("blueprint"),
            BlueprintType::UpgradePlanner(_) => Some("upgrade_planner"),
            BlueprintType::DeconPlanner(_) => Some("deconstruction_planner"),
        }
    }
}

} // verus!
