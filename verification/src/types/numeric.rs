use vstd::prelude::*;

verus! {

/// A numeric object: an integer, or a real number kept as the literal text
/// that denotes it (digits with one decimal point and an optional sign).
#[derive(Debug, PartialEq, Clone)]
pub enum Numeric {
    Integer(i64),
    Real(Vec<u8>),
}

/// The mathematical value of a [`Numeric`].
pub enum NumericModel {
    Integer(int),
    Real(Seq<u8>),
}

impl View for Numeric {
    type V = NumericModel;

    open spec fn view(&self) -> NumericModel {
        match self {
            Numeric::Integer(i) => NumericModel::Integer(*i as int),
            Numeric::Real(t) => NumericModel::Real(t@),
        }
    }
}

} // verus!
