use crate::error::DecodeError;
use vstd::prelude::*;

verus! {

/// A DNS record type (the closed set of wire values 1 through 16).
#[derive(Debug, Clone, Copy, PartialEq, Eq, Structural)]
pub enum QType {
    A,
    NS,
    MD,
    MF,
    CNAME,
    SOA,
    MB,
    MG,
    MR,
    NULL,
    WKS,
    PTR,
    HINFO,
    MINFO,
    MX,
    TXT,
}

/// A DNS record class (the closed set of wire values 1 through 4).
#[derive(Debug, Clone, Copy, PartialEq, Eq, Structural)]
pub enum Class {
    IN,
    CS,
    CH,
    HS,
}

impl QType {
    /// The 16-bit wire value of this record type.
    pub open spec fn wire(self) -> u16 {
        match self {
            QType::A => 1,
            QType::NS => 2,
            QType::MD => 3,
            QType::MF => 4,
            QType::CNAME => 5,
            QType::SOA => 6,
            QType::MB => 7,
            QType::MG => 8,
            QType::MR => 9,
            QType::NULL => 10,
            QType::WKS => 11,
            QType::PTR => 12,
            QType::HINFO => 13,
            QType::MINFO => 14,
            QType::MX => 15,
            QType::TXT => 16,
        }
    }

    pub fn to_u16(self) -> (r: u16)
        ensures
            r == self.wire(),
    {
        match self {
            QType::A => 1,
            QType::NS => 2,
            QType::MD => 3,
            QType::MF => 4,
            QType::CNAME => 5,
            QType::SOA => 6,
            QType::MB => 7,
            QType::MG => 8,
            QType::MR => 9,
            QType::NULL => 10,
            QType::WKS => 11,
            QType::PTR => 12,
            QType::HINFO => 13,
            QType::MINFO => 14,
            QType::MX => 15,
            QType::TXT => 16,
        }
    }

    pub fn from_u16(value: u16) -> (r: Result<QType, DecodeError>)
        ensures
            r == spec_qtype_from_u16(value),
    {
        match value {
            1 => Ok(QType::A),
            2 => Ok(QType::NS),
            3 => Ok(QType::MD),
            4 => Ok(QType::MF),
            5 => Ok(QType::CNAME),
            6 => Ok(QType::SOA),
            7 => Ok(QType::MB),
            8 => Ok(QType::MG),
            9 => Ok(QType::MR),
            10 => Ok(QType::NULL),
            11 => Ok(QType::WKS),
            12 => Ok(QType::PTR),
            13 => Ok(QType::HINFO),
            14 => Ok(QType::MINFO),
            15 => Ok(QType::MX),
            16 => Ok(QType::TXT),
            _ => Err(DecodeError::UnknownField),
        }
    }
}

/// The record type denoted by a wire value, or `UnknownField` for any
/// value outside the enumerated set.
pub open spec fn spec_qtype_from_u16(value: u16) -> Result<QType, DecodeError> {
    if value == 1 {
        Ok(QType::A)
    } else if value == 2 {
        Ok(QType::NS)
    } else if value == 3 {
        Ok(QType::MD)
    } else if value == 4 {
        Ok(QType::MF)
    } else if value == 5 {
        Ok(QType::CNAME)
    } else if value == 6 {
        Ok(QType::SOA)
    } else if value == 7 {
        Ok(QType::MB)
    } else if value == 8 {
        Ok(QType::MG)
    } else if value == 9 {
        Ok(QType::MR)
    } else if value == 10 {
        Ok(QType::NULL)
    } else if value == 11 {
        Ok(QType::WKS)
    } else if value == 12 {
        Ok(QType::PTR)
    } else if value == 13 {
        Ok(QType::HINFO)
    } else if value == 14 {
        Ok(QType::MINFO)
    } else if value == 15 {
        Ok(QType::MX)
    } else if value == 16 {
        Ok(QType::TXT)
    } else {
        Err(DecodeError::UnknownField)
    }
}

/// Decoding is the exact inverse of encoding on every record type.
pub proof fn lemma_qtype_round_trip(q: QType)
    ensures
        spec_qtype_from_u16(q.wire()) == Ok::<QType, DecodeError>(q),
{
}

impl Class {
    /// The 16-bit wire value of this record class.
    pub open spec fn wire(self) -> u16 {
        match self {
            Class::IN => 1,
            Class::CS => 2,
            Class::CH => 3,
            Class::HS => 4,
        }
    }

    pub fn to_u16(self) -> (r: u16)
        ensures
            r == self.wire(),
    {
        match self {
            Class::IN => 1,
            Class::CS => 2,
            Class::CH => 3,
            Class::HS => 4,
        }
    }

    pub fn from_u16(value: u16) -> (r: Result<Class, DecodeError>)
        ensures
            r == spec_class_from_u16(value),
    {
        match value {
            1 => Ok(Class::IN),
            2 => Ok(Class::CS),
            3 => Ok(Class::CH),
            4 => Ok(Class::HS),
            _ => Err(DecodeError::UnknownField),
        }
    }
}

/// The record class denoted by a wire value, or `UnknownField` for any
/// value outside the enumerated set.
pub open spec fn spec_class_from_u16(value: u16) -> Result<Class, DecodeError> {
    if value == 1 {
        Ok(Class::IN)
    } else if value == 2 {
        Ok(Class::CS)
    } else if value == 3 {
        Ok(Class::CH)
    } else if value == 4 {
        Ok(Class::HS)
    } else {
        Err(DecodeError::UnknownField)
    }
}

/// Decoding is the exact inverse of encoding on every record class.
pub proof fn lemma_class_round_trip(c: Class)
    ensures
        spec_class_from_u16(c.wire()) == Ok::<Class, DecodeError>(c),
{
}

} // verus!
