//! The type codes that RGB-121 schemata give to metadata fields, owned
//! rights and state transitions.

use vstd::prelude::*;
use vstd::std_specs::convert::FromSpecImpl;

verus! {

/// Field types for RGB-121 schemata.
#[derive(Clone, Copy, Debug, PartialEq, Eq, PartialOrd, Ord, Hash, Structural)]
pub enum FieldType {
    /// Asset name.
    Name,
    /// Text of the asset contract.
    RicardianContract,
    /// Asset description.
    Description,
    /// Asset data.
    Data,
    /// Asset data format.
    DataFormat,
    /// Decimal precision.
    Precision,
    /// Supply issued with the genesis.
    IssuedSupply,
    /// Timestamp for genesis.
    Timestamp,
    /// Asset parent id.
    ParentId,
}

impl FieldType {
    /// The numeric code of the field type.
    pub open spec fn spec_code(self) -> u16 {
        match self {
            FieldType::Name => 0x01,
            FieldType::RicardianContract => 0x02,
            FieldType::Precision => 0x03,
            FieldType::Timestamp => 0x04,
            FieldType::Description => 0x05,
            FieldType::Data => 0x10,
            FieldType::DataFormat => 0x11,
            FieldType::IssuedSupply => 0xA0,
            FieldType::ParentId => 0xC3,
        }
    }

    /// The field type that `code` stands for, if any.
    pub open spec fn spec_from_code(code: u16) -> Option<FieldType> {
        if code == 0x01 {
            Some(FieldType::Name)
        } else if code == 0x02 {
            Some(FieldType::RicardianContract)
        } else if code == 0x03 {
            Some(FieldType::Precision)
        } else if code == 0x04 {
            Some(FieldType::Timestamp)
        } else if code == 0x05 {
            Some(FieldType::Description)
        } else if code == 0x10 {
            Some(FieldType::Data)
        } else if code == 0x11 {
            Some(FieldType::DataFormat)
        } else if code == 0xA0 {
            Some(FieldType::IssuedSupply)
        } else if code == 0xC3 {
            Some(FieldType::ParentId)
        } else {
            None
        }
    }

    /// The numeric code of the field type.
    #[verifier::when_used_as_spec(spec_code)]
    pub fn code(self) -> (r: u16)
        ensures
            r == self.spec_code(),
    {
        match self {
            FieldType::Name => 0x01,
            FieldType::RicardianContract => 0x02,
            FieldType::Precision => 0x03,
            FieldType::Timestamp => 0x04,
            FieldType::Description => 0x05,
            FieldType::Data => 0x10,
            FieldType::DataFormat => 0x11,
            FieldType::IssuedSupply => 0xA0,
            FieldType::ParentId => 0xC3,
        }
    }

    /// The field type that `code` stands for, if any.
    pub fn from_code(code: u16) -> (r: Option<FieldType>)
        ensures
            r == Self::spec_from_code(code),
    {
        if code == 0x01 {
            Some(FieldType::Name)
        } else if code == 0x02 {
            Some(FieldType::RicardianContract)
        } else if code == 0x03 {
            Some(FieldType::Precision)
        } else if code == 0x04 {
            Some(FieldType::Timestamp)
        } else if code == 0x05 {
            Some(FieldType::Description)
        } else if code == 0x10 {
            Some(FieldType::Data)
        } else if code == 0x11 {
            Some(FieldType::DataFormat)
        } else if code == 0xA0 {
            Some(FieldType::IssuedSupply)
        } else if code == 0xC3 {
            Some(FieldType::ParentId)
        } else {
            None
        }
    }
}

impl From<FieldType> for u16 {
    fn from(ft: FieldType) -> (r: u16) {
        ft.code()
    }
}

impl FromSpecImpl<FieldType> for u16 {
    open spec fn obeys_from_spec() -> bool {
        true
    }

    open spec fn from_spec(ft: FieldType) -> u16 {
        ft.spec_code()
    }
}

/// Owned right types used by RGB-121 schemata.
#[derive(Clone, Copy, Debug, PartialEq, Eq, PartialOrd, Ord, Hash, Structural)]
pub enum OwnedRightType {
    /// Asset ownership right.
    Assets,
    /// Asset engraving right.
    Engraving,
}

impl OwnedRightType {
    /// The numeric code of the right type.
    pub open spec fn spec_code(self) -> u16 {
        match self {
            OwnedRightType::Assets => 0xA1,
            OwnedRightType::Engraving => 0xA2,
        }
    }

    /// The right type that `code` stands for, if any.
    pub open spec fn spec_from_code(code: u16) -> Option<OwnedRightType> {
        if code == 0xA1 {
            Some(OwnedRightType::Assets)
        } else if code == 0xA2 {
            Some(OwnedRightType::Engraving)
        } else {
            None
        }
    }

    /// The numeric code of the right type.
    #[verifier::when_used_as_spec(spec_code)]
    pub fn code(self) -> (r: u16)
        ensures
            r == self.spec_code(),
    {
        match self {
            OwnedRightType::Assets => 0xA1,
            OwnedRightType::Engraving => 0xA2,
        }
    }

    /// The right type that `code` stands for, if any.
    pub fn from_code(code: u16) -> (r: Option<OwnedRightType>)
        ensures
            r == Self::spec_from_code(code),
    {
        if code == 0xA1 {
            Some(OwnedRightType::Assets)
        } else if code == 0xA2 {
            Some(OwnedRightType::Engraving)
        } else {
            None
        }
    }
}

impl From<OwnedRightType> for u16 {
    fn from(t: OwnedRightType) -> (r: u16) {
        t.code()
    }
}

impl FromSpecImpl<OwnedRightType> for u16 {
    open spec fn obeys_from_spec() -> bool {
        true
    }

    open spec fn from_spec(t: OwnedRightType) -> u16 {
        t.spec_code()
    }
}

/// State transition types defined by RGB-121 schemata.
#[derive(Clone, Copy, Debug, PartialEq, Eq, PartialOrd, Ord, Hash, Structural)]
pub enum TransitionType {
    /// Secondary issuance.
    Issue,
    /// Asset transfer.
    Transfer,
    /// Asset engraving.
    Engraving,
}

impl TransitionType {
    /// The numeric code of the transition type.
    pub open spec fn spec_code(self) -> u16 {
        match self {
            TransitionType::Transfer => 0x0000,
            TransitionType::Engraving => 0x10A4,
            TransitionType::Issue => 0x10AF,
        }
    }

    /// The transition type that `code` stands for, if any.
    pub open spec fn spec_from_code(code: u16) -> Option<TransitionType> {
        if code == 0x0000 {
            Some(TransitionType::Transfer)
        } else if code == 0x10A4 {
            Some(TransitionType::Engraving)
        } else if code == 0x10AF {
            Some(TransitionType::Issue)
        } else {
            None
        }
    }

    /// The numeric code of the transition type.
    #[verifier::when_used_as_spec(spec_code)]
    pub fn code(self) -> (r: u16)
        ensures
            r == self.spec_code(),
    {
        match self {
            TransitionType::Transfer => 0x0000,
            TransitionType::Engraving => 0x10A4,
            TransitionType::Issue => 0x10AF,
        }
    }

    /// The transition type that `code` stands for, if any.
    pub fn from_code(code: u16) -> (r: Option<TransitionType>)
        ensures
            r == Self::spec_from_code(code),
    {
        if code == 0x0000 {
            Some(TransitionType::Transfer)
        } else if code == 0x10A4 {
            Some(TransitionType::Engraving)
        } else if code == 0x10AF {
            Some(TransitionType::Issue)
        } else {
            None
        }
    }
}

impl From<TransitionType> for u16 {
    fn from(t: TransitionType) -> (r: u16) {
        t.code()
    }
}

impl FromSpecImpl<TransitionType> for u16 {
    open spec fn obeys_from_spec() -> bool {
        true
    }

    open spec fn from_spec(t: TransitionType) -> u16 {
        t.spec_code()
    }
}

/// Every variant is found again from its code, and a code that names a
/// variant is the code of that variant: the two tables are inverse to each
/// other.
pub proof fn law_codes_bidirectional(
    ft: FieldType,
    rt: OwnedRightType,
    tt: TransitionType,
    code: u16,
)
    ensures
        FieldType::spec_from_code(ft.spec_code()) == Some(ft),
        OwnedRightType::spec_from_code(rt.spec_code()) == Some(rt),
        TransitionType::spec_from_code(tt.spec_code()) == Some(tt),
        FieldType::spec_from_code(code) matches Some(f) ==> f.spec_code() == code,
        OwnedRightType::spec_from_code(code) matches Some(r) ==> r.spec_code() == code,
        TransitionType::spec_from_code(code) matches Some(t) ==> t.spec_code() == code,
{
}

} // verus!
