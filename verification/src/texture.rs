//! Textures: surfaces whose material depends on the point that is hit.

use vstd::prelude::*;
use crate::scalar::Scalar;

verus! {

/// A surface of one material throughout.
#[derive(Debug, PartialEq, Eq)]
pub struct Solid<M>(pub M);

/// A surface of two textures that take turns in space, in cubes.
#[derive(Debug, PartialEq, Eq)]
pub struct Checkerd<E, O> {
    even: E,
    odd: O,
}

/// One of the two textures of a chequered surface.
#[derive(Debug, PartialEq, Eq)]
pub enum Field<'a, E, O> {
    Even(&'a E),
    Odd(&'a O),
}

impl<E, O> Checkerd<E, O> {
    pub closed spec fn spec_even(&self) -> &E {
        &self.even
    }

    pub closed spec fn spec_odd(&self) -> &O {
        &self.odd
    }

    /// The surface that shows `t0` on its even fields and `t1` on the odd
    /// ones.
    pub fn new(t0: E, t1: O) -> (r: Self)
        ensures
            *r.even() == t0,
            *r.odd() == t1,
    {
        Self { even: t0, odd: t1 }
    }

    #[verifier::when_used_as_spec(spec_even)]
    pub fn even(&self) -> (r: &E)
        ensures
            r == self.spec_even(),
    {
        &self.even
    }

    #[verifier::when_used_as_spec(spec_odd)]
    pub fn odd(&self) -> (r: &O)
        ensures
            r == self.spec_odd(),
    {
        &self.odd
    }

    /// The texture at a point. `sines` is the product of the sines of the
    /// point's three coordinates, each times the frequency of the pattern:
    /// the field is odd where that product is negative.
    pub fn scatter(&self, sines: Scalar) -> (r: Field<'_, E, O>)
        ensures
            r == if sines.lt(Scalar::zero()) {
                Field::<E, O>::Odd(self.odd())
            } else {
                Field::<E, O>::Even(self.even())
            },
    {
        if sines.lt(Scalar::zero()) {
            Field::Odd(&self.odd)
        } else {
            Field::Even(&self.even)
        }
    }
}

} // verus!
