//! A module that shows its newest sample: the processor, memory, the graphics.
use crate::modules::card::{blocks, Line, LineView};
use vstd::prelude::*;

verus! {

/// A sample that a popup shows.
pub trait Measured: Sized {
    /// What the popup shows of it.
    spec fn shows(&self) -> Seq<Seq<LineView>>;

    fn card(&self) -> (r: Vec<Vec<Line>>)
        ensures
            blocks(r@) == self.shows(),
    ;
}

#[derive(Debug)]
pub struct State<S> {
    pub sample: Option<S>,
}

impl<S> State<S> {
    pub fn new() -> (r: State<S>)
        ensures
            r.sample is None,
    {
        State { sample: None }
    }

    pub fn update(&mut self, sample: S)
        ensures
            final(self).sample == Some(sample),
    {
        self.sample = Some(sample);
    }

    /// Whether there is a popup.
    pub open spec fn pops_up(self) -> bool {
        self.sample is Some
    }

    pub fn has_popup(&self) -> (r: bool)
        ensures
            r == self.pops_up(),
    {
        self.sample.is_some()
    }
}

impl<S: Measured> State<S> {
    /// What the popup shows.
    pub fn popup(&self) -> (r: Option<Vec<Vec<Line>>>)
        ensures
            r is Some <==> self.pops_up(),
            r matches Some(card) ==> blocks(card@) == self.sample->0.shows(),
    {
        match &self.sample {
            Some(sample) => Some(sample.card()),
            None => None,
        }
    }
}

} // verus!
