//! Debug drawing requests, queued during a turn and drawn afterwards.
use std::collections::VecDeque;
use vstd::prelude::*;

verus! {

#[derive(Debug, Copy, Clone, PartialEq, Eq, Structural)]
pub enum Draw {
    Point(i32, i32),
}

pub struct DrawCalls {
    draw_calls: VecDeque<Draw>,
}

impl DrawCalls {
    /// The queued draws, oldest first.
    pub closed spec fn view(&self) -> Seq<Draw> {
        self.draw_calls@
    }

    pub fn new() -> (d: Self)
        ensures
            d.view() == Seq::<Draw>::empty(),
    {
        DrawCalls { draw_calls: VecDeque::new() }
    }

    /// Queues a draw.
    pub fn push(&mut self, draw_call: Draw)
        ensures
            final(self).view() == old(self).view().push(draw_call),
    {
        self.draw_calls.push_back(draw_call);
    }

    /// Drops every queued draw.
    pub fn clear(&mut self)
        ensures
            final(self).view() == Seq::<Draw>::empty(),
    {
        self.draw_calls.clear();
    }

    /// The number of queued draws.
    pub fn len(&self) -> (n: usize)
        ensures
            n == self.view().len(),
    {
        self.draw_calls.len()
    }

    /// The `i`-th queued draw, oldest first.
    pub fn get(&self, i: usize) -> (d: Draw)
        requires
            i < self.view().len(),
        ensures
            d == self.view()[i as int],
    {
        self.draw_calls[i]
    }
}

} // verus!
