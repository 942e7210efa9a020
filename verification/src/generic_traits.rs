//! The two builder capabilities: turning a string into a structure, and
//! turning a structure into an output (plot data or a string rendering).
//! Each implementor supplies spec functions that pin down what its `new`,
//! `build` and `get_structure` do.

use vstd::prelude::*;
use crate::errors::LibError;

verus! {

/// Builds an in-memory structure from string input.  `build` runs once on a
/// freshly created builder; `get_structure` hands out the result.
pub trait String2StructureBuilder: Sized {
    type Input;

    type Out;

    /// The state a fresh builder starts in.
    spec fn init(&self) -> bool;

    /// What a caller owes `build`: the builder's invariant and any machine
    /// limits on the input's size.
    spec fn build_req(&self, input: &Self::Input) -> bool;

    /// What `build` did: relates the builder before and after, the input
    /// before and after, and the returned result.
    spec fn build_rel(
        pre: &Self,
        post: &Self,
        input_pre: &Self::Input,
        input_post: &Self::Input,
        r: Result<(), LibError>,
    ) -> bool;

    /// When the built structure may be asked for.
    spec fn get_req(&self) -> bool;

    /// How the returned structure relates to the builder.
    spec fn structure_rel(&self, out: &Self::Out) -> bool;

    fn new() -> (s: Self)
        ensures
            s.init(),
    ;

    fn get_structure(&self) -> (out: Self::Out)
        requires
            self.get_req(),
        ensures
            self.structure_rel(&out),
    ;

    fn build(&mut self, input: &mut Self::Input) -> (r: Result<(), LibError>)
        requires
            old(self).build_req(&*old(input)),
        ensures
            Self::build_rel(&*old(self), &*final(self), &*old(input), &*final(input), r),
    ;
}

/// Builds an output (plot data, a string rendering) from a structure made by
/// a `String2StructureBuilder`.
pub trait Structure2PlotBuilder<T>: Sized {
    /// What the handed-over structure must satisfy.
    spec fn new_req(structure: &T) -> bool;

    /// How a fresh builder relates to the structure it was made from.
    spec fn made_from(&self, structure: &T) -> bool;

    /// What `build` did: relates the builder before and after and the result.
    spec fn build_rel(pre: &Self, post: &Self, r: Result<(), LibError>) -> bool;

    /// What a caller owes `build`: normally the state `new` left behind.
    spec fn build_req(&self) -> bool;

    fn new(structure: T) -> (s: Self)
        requires
            Self::new_req(&structure),
        ensures
            s.made_from(&structure),
    ;

    fn build(&mut self) -> (r: Result<(), LibError>)
        requires
            old(self).build_req(),
        ensures
            Self::build_rel(&*old(self), &*final(self), r),
    ;
}

} // verus!
