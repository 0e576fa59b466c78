use vstd::prelude::*;

use crate::color::RgbContainer;

verus! {

/// Something that produces frames: the colors of a fixed list of points, one
/// list per call, each call advancing its state.
pub trait Effect<U: RgbContainer>: Sized {
    /// The effect can produce its next frame.
    spec fn ready(&self) -> bool;

    /// How many frames have been produced, up to a fixed offset.
    spec fn frame_count(&self) -> int;

    /// The number of points in every frame.
    spec fn num_points(&self) -> nat;

    /// `next` and `frame` are one possible outcome of producing a frame from
    /// `self`.
    spec fn advances(&self, next: Self, frame: Seq<U>) -> bool;

    fn get_frame(&mut self) -> (r: Vec<U>)
        requires
            old(self).ready(),
        ensures
            old(self).advances(*final(self), r@),
            final(self).frame_count() == old(self).frame_count() + 1,
            final(self).num_points() == old(self).num_points(),
            r@.len() == old(self).num_points(),
    ;
}

/// Frames of an effect handed out one at a time, without end. Each call of
/// `next` advances the effect; there is no way back.
pub struct EffectIterator<U: RgbContainer, E: Effect<U>> {
    effect: E,
    color: std::marker::PhantomData<U>,
}

impl<U: RgbContainer, E: Effect<U>> EffectIterator<U, E> {
    pub closed spec fn effect(&self) -> E {
        self.effect
    }

    pub fn new(effect: E) -> (r: Self)
        ensures
            r.effect() == effect,
    {
        EffectIterator { effect, color: std::marker::PhantomData }
    }

    /// The next frame of the effect: always present.
    pub fn next(&mut self) -> (r: Option<Vec<U>>)
        requires
            old(self).effect().ready(),
        ensures
            r matches Some(frame) && old(self).effect().advances(final(self).effect(), frame@),
            final(self).effect().frame_count() == old(self).effect().frame_count() + 1,
    {
        Some(self.effect.get_frame())
    }

    pub fn into_inner(self) -> (r: E)
        ensures
            r == self.effect(),
    {
        self.effect
    }
}

} // verus!
