use vstd::prelude::*;
use vstd::string::*;

verus! {

/// The outcomes of a player command that are not a success, plus one
/// category for inconsistencies of the simulation state itself.
#[derive(Debug, Clone, PartialEq, Eq)]
pub enum DrugWarsError {
    AlreadyRegistered,
    DealerNotFound(String),
    DealerNotAvailable(String, String),
    ElementNotFound(String),
    ElementAmbiguous(String),
    NotEnoughMoney,
    InvalidElement(String),
    /// The shared state contradicts itself (a flight naming an unknown
    /// dealer, a location without data): a bug, not a user error.
    InternalFault(String),
}

pub open spec fn error_text(e: DrugWarsError) -> Seq<char> {
    match e {
        DrugWarsError::AlreadyRegistered => "You are already playing you donut"@,
        DrugWarsError::DealerNotFound(n) => "Dealer "@ + n@ + " not found."@,
        DrugWarsError::DealerNotAvailable(n, why) => "Dealer "@ + n@ + " not available -> "@
            + why@,
        DrugWarsError::ElementNotFound(n) => "couldn't find "@ + n@,
        DrugWarsError::ElementAmbiguous(n) => n@ + " is too ambiguous. try to be more precise"@,
        DrugWarsError::NotEnoughMoney => "you don't have enough money you broke ass punk"@,
        DrugWarsError::InvalidElement(n) => "Invalid element "@ + n@,
        DrugWarsError::InternalFault(n) => "internal fault: "@ + n@,
    }
}

impl DrugWarsError {
    /// The sentence shown to the player.
    pub fn message(&self) -> (r: String)
        ensures
            r@ == error_text(*self),
    {
        match self {
            DrugWarsError::AlreadyRegistered => String::from_str("You are already playing you donut"),
            DrugWarsError::DealerNotFound(n) => {
                let s = String::from_str("Dealer ").concat(n.as_str());
                s.concat(" not found.")
            },
            DrugWarsError::DealerNotAvailable(n, why) => {
                let s = String::from_str("Dealer ").concat(n.as_str());
                s.concat(" not available -> ").concat(why.as_str())
            },
            DrugWarsError::ElementNotFound(n) => String::from_str("couldn't find ").concat(
                n.as_str(),
            ),
            DrugWarsError::ElementAmbiguous(n) => n.clone().concat(
                " is too ambiguous. try to be more precise",
            ),
            DrugWarsError::NotEnoughMoney => String::from_str(
                "you don't have enough money you broke ass punk",
            ),
            DrugWarsError::InvalidElement(n) => String::from_str("Invalid element ").concat(
                n.as_str(),
            ),
            DrugWarsError::InternalFault(n) => String::from_str("internal fault: ").concat(
                n.as_str(),
            ),
        }
    }
}

} // verus!
