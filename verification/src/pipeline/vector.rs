use imbl::Vector;
use vstd::multiset::Multiset;
use vstd::prelude::*;

use crate::evaluate::shared::DataType;
use crate::evaluate::shared::Expr;
use crate::evaluate::shared::models_of;

verus! {

/// A persistent vector (imbl's `Vector`), held opaquely.
#[derive(Debug, Eq, PartialEq, Ord, PartialOrd, Hash)]
#[verifier::external_body]
#[verifier::reject_recursive_types(A)]
pub struct PersistentVec<A> {
    vector: Vector<A>,
}

/// The data types that a persistent vector holds, in order.
pub uninterp spec fn datatypes(v: PersistentVec<DataType>) -> Seq<DataType>;

/// The expressions that a persistent vector holds, in order.
pub uninterp spec fn exprs(v: PersistentVec<Expr>) -> Seq<Expr>;

/// The text that the `Debug` format of a persistent vector of data types
/// gives for its elements.
pub uninterp spec fn datatypes_debug(s: Seq<DataType>) -> Seq<char>;

/// The sequence that sorting a vector of data types gives: the elements of
/// the multiset in ascending order.
pub uninterp spec fn sorted_datatypes(m: Multiset<DataType>) -> Seq<DataType>;

impl PersistentVec<DataType> {
    /// `Vector::from(Vec)`: the same elements in the same order.
    #[verifier::external_body]
    pub fn from_vec(v: Vec<DataType>) -> (r: Self)
        ensures
            datatypes(r) == v@,
    {
        PersistentVec { vector: Vector::from(v) }
    }

    /// `GenericVector::iter` collected into a `Vec`: the elements in order
    /// (the elements' `Clone` gives equal values).
    #[verifier::external_body]
    pub fn to_vec(&self) -> (r: Vec<DataType>)
        ensures
            r@ == datatypes(*self),
    {
        self.vector.iter().cloned().collect()
    }

    /// `GenericVector::len`: the number of elements.
    #[verifier::external_body]
    pub fn len(&self) -> (n: usize)
        ensures
            n == datatypes(*self).len(),
    {
        self.vector.len()
    }

    /// `GenericVector::clone`: a vector with the same elements (the
    /// elements' `Clone` gives equal values).
    #[verifier::external_body]
    pub(crate) fn duplicate(&self) -> (r: Self)
        ensures
            datatypes(r) == datatypes(*self),
    {
        PersistentVec { vector: self.vector.clone() }
    }

    /// `GenericVector::sort`: rearranges the elements in ascending order of
    /// the derived `Ord` of `DataType`. Elements that compare equal under that
    /// order are equal, so the outcome is fixed by the multiset of elements.
    #[verifier::external_body]
    pub(crate) fn sort(&mut self)
        ensures
            datatypes(*final(self)).to_multiset() == datatypes(*old(self)).to_multiset(),
            datatypes(*final(self)) == sorted_datatypes(datatypes(*old(self)).to_multiset()),
    {
        self.vector.sort()
    }

    /// The `Debug` format (`{:?}`) of the vector: its elements in brackets.
    #[verifier::external_body]
    pub(crate) fn debug_text(&self) -> (r: String)
        ensures
            r@ == datatypes_debug(datatypes(*self)),
    {
        format!("{:?}", self.vector)
    }

    /// `PartialEq::eq` of `GenericVector`: equal lengths and pointwise equal
    /// elements under the derived (structural) equality of `DataType`.
    #[verifier::external_body]
    pub(crate) fn equals(&self, other: &Self) -> (r: bool)
        ensures
            r == (datatypes(*self) == datatypes(*other)),
    {
        self.vector == other.vector
    }
}

impl PersistentVec<Expr> {
    /// `Vector::from(Vec)`: the same elements in the same order.
    #[verifier::external_body]
    pub fn from_vec(v: Vec<Expr>) -> (r: Self)
        ensures
            exprs(r) == v@,
    {
        PersistentVec { vector: Vector::from(v) }
    }

    /// `GenericVector::clone`: a vector with the same elements (an inline
    /// vector clones each element, whose `Clone` keeps its model; a larger
    /// one shares them).
    #[verifier::external_body]
    pub(crate) fn duplicate(&self) -> (r: Self)
        ensures
            models_of(exprs(r)) == models_of(exprs(*self)),
    {
        PersistentVec { vector: self.vector.clone() }
    }

    /// `GenericVector::len`: the number of elements.
    #[verifier::external_body]
    pub fn len(&self) -> (n: usize)
        ensures
            n == exprs(*self).len(),
    {
        self.vector.len()
    }

    /// `Index::index` of `GenericVector`: the element at position `i`.
    #[verifier::external_body]
    pub fn at(&self, i: usize) -> (e: &Expr)
        requires
            i < exprs(*self).len(),
        ensures
            *e == exprs(*self)[i as int],
    {
        &self.vector[i]
    }
}

} // verus!
