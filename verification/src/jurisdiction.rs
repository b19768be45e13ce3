//! The jurisdictions and special categories a SIN's leading digit may
//! indicate.

use vstd::prelude::*;

verus! {

/// Types of SINs: all the provinces, plus some other categories.
#[derive(Debug, Copy, Clone, PartialEq, Eq)]
#[non_exhaustive]
pub enum SINType {
    /// CRA-assigned Individual Tax Numbers, Temporary Tax Numbers and
    /// Adoption Tax Numbers. These are currently only assigned to natural
    /// people.
    CRAAssigned,
    TemporaryResident,
    /// Business numbers and SINs share the same namespace.
    BusinessNumber,
    /// Military forces abroad.
    OverseasForces,
    Alberta,
    BritishColumbia,
    Manitoba,
    NewBrunswick,
    NewfoundlandLabrador,
    NorthwestTerritories,
    NovaScotia,
    Nunavut,
    Ontario,
    PrinceEdwardIsland,
    Quebec,
    Saskatchewan,
    Yukon,
}

/// The ordered list of jurisdictions and categories a SIN whose leading
/// digit is `d` may belong to. Several jurisdictions share a leading
/// digit, so the list often holds more than one tag; it is never empty.
pub open spec fn types_for_leading_digit(d: u8) -> Seq<SINType> {
    if d == 0 {
        seq![SINType::CRAAssigned]
    } else if d == 1 {
        seq![
            SINType::NovaScotia,
            SINType::NewBrunswick,
            SINType::PrinceEdwardIsland,
            SINType::NewfoundlandLabrador,
        ]
    } else if d == 2 || d == 3 {
        seq![SINType::Quebec]
    } else if d == 4 || d == 5 {
        seq![SINType::Ontario, SINType::OverseasForces]
    } else if d == 6 {
        seq![
            SINType::Ontario,
            SINType::Manitoba,
            SINType::Saskatchewan,
            SINType::Alberta,
            SINType::NorthwestTerritories,
            SINType::Nunavut,
        ]
    } else if d == 7 {
        seq![SINType::BritishColumbia, SINType::Yukon, SINType::BusinessNumber]
    } else if d == 8 {
        seq![SINType::BusinessNumber]
    } else {
        seq![SINType::TemporaryResident]
    }
}

/// Whatever the leading digit, at least one jurisdiction tag is plausible:
/// the classification table is total and every row is non-empty.
pub proof fn lemma_types_nonempty(d: u8)
    ensures
        types_for_leading_digit(d).len() >= 1,
{
}

impl SINType {
    /// Does this tag stand for one of the provinces or territories that
    /// issue SINs?
    pub open spec fn spec_is_province(self) -> bool {
        self is Alberta || self is BritishColumbia || self is Manitoba
            || self is NewBrunswick || self is NewfoundlandLabrador
            || self is NorthwestTerritories || self is NovaScotia || self is Nunavut
            || self is Ontario || self is PrinceEdwardIsland || self is Quebec
            || self is Saskatchewan || self is Yukon
    }

    /// Does the SIN represent someone in a province?
    pub fn is_province(self) -> (r: bool)
        ensures
            r == self.spec_is_province(),
    {
        matches!(
            self,
            SINType::Alberta
                | SINType::BritishColumbia
                | SINType::Manitoba
                | SINType::NewBrunswick
                | SINType::NewfoundlandLabrador
                | SINType::NorthwestTerritories
                | SINType::NovaScotia
                | SINType::Nunavut
                | SINType::Ontario
                | SINType::PrinceEdwardIsland
                | SINType::Quebec
                | SINType::Saskatchewan
                | SINType::Yukon
        )
    }

    /// Does the SIN represent a human? Currently only business numbers are
    /// assigned to non-humans.
    pub fn is_human(self) -> (r: bool)
        ensures
            r == !(self is BusinessNumber),
    {
        !matches!(self, SINType::BusinessNumber)
    }
}

} // verus!
