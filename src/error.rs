use vstd::prelude::*;
use vstd::string::*;

verus! {

/// The failures that parsing a physical quantity can report.
#[derive(Clone, Debug, PartialEq, Eq)]
pub enum PhysicError {
    BothPlusAndMinusSymbols,
    MultipleMinusSymbols,
    MultiplePlusSymbols,
    MultipleDecimalPoints,
    ErrNotANumber,
    ErrOverFlowsInt64Negative,
    ErrOverFlowsInt64,
    UnexpectedEndOfString(String),
    NotUnitErr(String),
    IncorrectUnitErr(String),
    UnknownUnitPrefixErr(String, String),
    MaxValueErr(String),
    MinValueErr(String),
    NotNumberUnitErr(String),
    Null,
}

/// The mathematical model of a `PhysicError`: every text payload as its characters.
pub enum PhysicErrorView {
    BothPlusAndMinusSymbols,
    MultipleMinusSymbols,
    MultiplePlusSymbols,
    MultipleDecimalPoints,
    ErrNotANumber,
    ErrOverFlowsInt64Negative,
    ErrOverFlowsInt64,
    UnexpectedEndOfString(Seq<char>),
    NotUnitErr(Seq<char>),
    IncorrectUnitErr(Seq<char>),
    UnknownUnitPrefixErr(Seq<char>, Seq<char>),
    MaxValueErr(Seq<char>),
    MinValueErr(Seq<char>),
    NotNumberUnitErr(Seq<char>),
    Null,
}

impl View for PhysicError {
    type V = PhysicErrorView;

    open spec fn view(&self) -> PhysicErrorView {
        match self {
            PhysicError::BothPlusAndMinusSymbols => PhysicErrorView::BothPlusAndMinusSymbols,
            PhysicError::MultipleMinusSymbols => PhysicErrorView::MultipleMinusSymbols,
            PhysicError::MultiplePlusSymbols => PhysicErrorView::MultiplePlusSymbols,
            PhysicError::MultipleDecimalPoints => PhysicErrorView::MultipleDecimalPoints,
            PhysicError::ErrNotANumber => PhysicErrorView::ErrNotANumber,
            PhysicError::ErrOverFlowsInt64Negative => PhysicErrorView::ErrOverFlowsInt64Negative,
            PhysicError::ErrOverFlowsInt64 => PhysicErrorView::ErrOverFlowsInt64,
            PhysicError::UnexpectedEndOfString(s) => PhysicErrorView::UnexpectedEndOfString(s@),
            PhysicError::NotUnitErr(s) => PhysicErrorView::NotUnitErr(s@),
            PhysicError::IncorrectUnitErr(s) => PhysicErrorView::IncorrectUnitErr(s@),
            PhysicError::UnknownUnitPrefixErr(a, b) => PhysicErrorView::UnknownUnitPrefixErr(
                a@,
                b@,
            ),
            PhysicError::MaxValueErr(s) => PhysicErrorView::MaxValueErr(s@),
            PhysicError::MinValueErr(s) => PhysicErrorView::MinValueErr(s@),
            PhysicError::NotNumberUnitErr(s) => PhysicErrorView::NotNumberUnitErr(s@),
            PhysicError::Null => PhysicErrorView::Null,
        }
    }
}

impl PhysicError {
    /// The sentence that describes the error to a user.
    pub open spec fn message_text(&self) -> Seq<char> {
        match self {
            PhysicError::BothPlusAndMinusSymbols => "contains both plus and minus symbol"@,
            PhysicError::ErrNotANumber => "Err Not a Number"@,
            PhysicError::ErrOverFlowsInt64 => "Err Over Flows Int64"@,
            PhysicError::ErrOverFlowsInt64Negative => "Err Over Flows Int64 Negative"@,
            PhysicError::IncorrectUnitErr(unit) => "unknown unit provided; need "@ + unit@,
            PhysicError::MaxValueErr(max_val) => "maximum value is "@ + max_val@,
            PhysicError::MinValueErr(min_val) => "minimum value is "@ + min_val@,
            PhysicError::MultipleDecimalPoints => "contains multiple decimal points"@,
            PhysicError::MultipleMinusSymbols => "contains multiple minus symbols"@,
            PhysicError::MultiplePlusSymbols => "contains multiple plus symbols"@,
            PhysicError::NotNumberUnitErr(unit) => "does not contain number or unit "@ + unit@,
            PhysicError::NotUnitErr(unit) => "no unit provided; need "@ + unit@,
            PhysicError::Null => ""@,
            PhysicError::UnexpectedEndOfString(rest) => "unexpected end of string -> "@ + rest@,
            PhysicError::UnknownUnitPrefixErr(provide, need) => "unknown unit prefix; valid prefixes for "@
                + provide@ + " are "@ + need@,
        }
    }

    /// The sentence that describes the error to a user.
    pub fn message(&self) -> (r: String)
        ensures
            r@ == self.message_text(),
    {
        match self {
            PhysicError::BothPlusAndMinusSymbols => String::from_str(
                "contains both plus and minus symbol",
            ),
            PhysicError::ErrNotANumber => String::from_str("Err Not a Number"),
            PhysicError::ErrOverFlowsInt64 => String::from_str("Err Over Flows Int64"),
            PhysicError::ErrOverFlowsInt64Negative => String::from_str(
                "Err Over Flows Int64 Negative",
            ),
            PhysicError::IncorrectUnitErr(unit) => {
                let mut r = String::from_str("unknown unit provided; need ");
                r.append(unit.as_str());
                r
            },
            PhysicError::MaxValueErr(max_val) => {
                let mut r = String::from_str("maximum value is ");
                r.append(max_val.as_str());
                r
            },
            PhysicError::MinValueErr(min_val) => {
                let mut r = String::from_str("minimum value is ");
                r.append(min_val.as_str());
                r
            },
            PhysicError::MultipleDecimalPoints => String::from_str(
                "contains multiple decimal points",
            ),
            PhysicError::MultipleMinusSymbols => String::from_str(
                "contains multiple minus symbols",
            ),
            PhysicError::MultiplePlusSymbols => String::from_str("contains multiple plus symbols"),
            PhysicError::NotNumberUnitErr(unit) => {
                let mut r = String::from_str("does not contain number or unit ");
                r.append(unit.as_str());
                r
            },
            PhysicError::NotUnitErr(unit) => {
                let mut r = String::from_str("no unit provided; need ");
                r.append(unit.as_str());
                r
            },
            PhysicError::Null => {
                proof {
                    reveal_strlit("");
                }
                String::new()
            },
            PhysicError::UnexpectedEndOfString(rest) => {
                let mut r = String::from_str("unexpected end of string -> ");
                r.append(rest.as_str());
                r
            },
            PhysicError::UnknownUnitPrefixErr(provide, need) => {
                let mut r = String::from_str("unknown unit prefix; valid prefixes for ");
                r.append(provide.as_str());
                r.append(" are ");
                r.append(need.as_str());
                r
            },
        }
    }
}

} // verus!
