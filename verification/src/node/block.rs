use crate::buffer::message::{Message, MessageBuffer};
use vstd::prelude::*;

verus! {

/// What a node does next while it works through a block.
pub enum Step<'a, T> {
    /// Render this many frames with the state as it is.
    Render(usize),
    /// Apply this message to the state.
    Apply(&'a Message<T>),
    /// The block is done.
    Done,
}

/// A step of a plan: render so many frames, or apply the message of that index.
pub enum PlanStep {
    Render(usize),
    Apply(int),
}

/// How a node works through a block of `frames` frames with the timed
/// messages `items`, once `rendered` frames are rendered and the messages
/// before index `next` are applied: each message that lies inside the block is
/// applied at its frame, after the frames before it were rendered, and
/// messages of one frame are applied in order; the frames after the last
/// message are rendered at the end. A message at or past the end of the block
/// ends the messages.
pub open spec fn plan<T>(frames: usize, items: Seq<(usize, Message<T>)>, rendered: usize, next: int) -> Seq<PlanStep>
    decreases items.len() - next, frames - rendered,
{
    if 0 <= next < items.len() && items[next].0 < frames {
        if rendered < items[next].0 {
            seq![PlanStep::Render((items[next].0 - rendered) as usize)] + plan(frames, items, items[next].0, next)
        } else {
            seq![PlanStep::Apply(next)] + plan(frames, items, rendered, next + 1)
        }
    } else if rendered < frames {
        seq![PlanStep::Render((frames - rendered) as usize)]
    } else {
        Seq::empty()
    }
}

/// The number of frames that the steps render.
pub open spec fn frames_rendered(steps: Seq<PlanStep>) -> int
    decreases steps.len(),
{
    if steps.len() == 0 {
        0
    } else {
        frames_rendered(steps.drop_first()) + match steps[0] {
            PlanStep::Render(n) => n as int,
            PlanStep::Apply(_) => 0,
        }
    }
}

/// A plan renders every frame of the block that is not rendered yet, no more and no less.
pub proof fn law_plan_renders_the_block<T>(frames: usize, items: Seq<(usize, Message<T>)>, rendered: usize, next: int)
    requires
        rendered <= frames,
    ensures
        frames_rendered(plan(frames, items, rendered, next)) == frames - rendered,
    decreases items.len() - next, frames - rendered,
{
    let steps = plan(frames, items, rendered, next);
    if 0 <= next < items.len() && items[next].0 < frames {
        if rendered < items[next].0 {
            law_plan_renders_the_block(frames, items, items[next].0, next);
            assert(steps[0] == PlanStep::Render((items[next].0 - rendered) as usize));
            assert(steps.drop_first() =~= plan(frames, items, items[next].0, next));
        } else {
            law_plan_renders_the_block(frames, items, rendered, next + 1);
            assert(steps[0] == PlanStep::Apply(next));
            assert(steps.drop_first() =~= plan(frames, items, rendered, next + 1));
        }
    } else if rendered < frames {
        assert(steps[0] == PlanStep::Render((frames - rendered) as usize));
        assert(steps.drop_first() =~= Seq::<PlanStep>::empty());
        assert(frames_rendered(steps.drop_first()) == 0);
    } else {
    }
}

/// A node's way through one block: which frames to render and which message
/// to apply, step by step.
pub struct BlockWalk<'a, T> {
    messages: &'a MessageBuffer<T>,
    frames: usize,
    rendered: usize,
    next: usize,
}

impl<'a, T> BlockWalk<'a, T> {
    #[verifier::type_invariant]
    spec fn inside(self) -> bool {
        self.rendered <= self.frames && self.next <= self.messages.items().len()
    }

    /// The steps that are still to come.
    pub closed spec fn pending(&self) -> Seq<PlanStep> {
        plan(self.frames, self.messages.items(), self.rendered, self.next as int)
    }

    /// The messages that the walk goes through.
    pub closed spec fn items(&self) -> Seq<(usize, Message<T>)> {
        self.messages.items()
    }

    /// The start of a block of `frames` frames with the messages `messages`.
    pub fn new(frames: usize, messages: &'a MessageBuffer<T>) -> (walk: Self)
        ensures
            walk.items() == messages.items(),
            walk.pending() == plan(frames, messages.items(), 0, 0),
    {
        BlockWalk { messages, frames, rendered: 0, next: 0 }
    }

    /// The next step, and on to the one after it.
    pub fn next(&mut self) -> (step: Step<'a, T>)
        ensures
            final(self).items() == old(self).items(),
            old(self).pending().len() == 0 ==> step is Done && final(self).pending() == old(self).pending(),
            old(self).pending().len() > 0 ==> {
                &&& final(self).pending() == old(self).pending().drop_first()
                &&& match old(self).pending()[0] {
                    PlanStep::Render(n) => step matches Step::Render(m) && m == n,
                    PlanStep::Apply(i) => step matches Step::Apply(message) && 0 <= i < old(self).items().len()
                        && *message == old(self).items()[i].1,
                }
            },
    {
        proof {
            use_type_invariant(&*self);
        }
        let messages: &'a MessageBuffer<T> = self.messages;
        let ghost before = self.pending();
        let count = messages.len();
        match messages.get(self.next) {
            Some((frame, message)) => {
                if *frame < self.frames {
                    if self.rendered < *frame {
                        let todo = *frame - self.rendered;
                        self.rendered = *frame;
                        assert(before.drop_first() =~= self.pending());
                        return Step::Render(todo);
                    } else {
                        assert(self.next < count);
                        self.next = self.next + 1;
                        assert(before.drop_first() =~= self.pending());
                        return Step::Apply(message);
                    }
                }
            },
            None => {},
        }
        if self.rendered < self.frames {
            let todo = self.frames - self.rendered;
            self.rendered = self.frames;
            self.next = count;
            assert(before.drop_first() =~= Seq::<PlanStep>::empty());
            assert(self.pending() =~= Seq::<PlanStep>::empty());
            Step::Render(todo)
        } else {
            Step::Done
        }
    }
}

} // verus!
