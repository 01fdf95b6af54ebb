//! The work of the tagger on a list of images, step by step.

use vstd::prelude::*;

verus! {

/// How a run of the tagger ends.
#[derive(Clone, Copy, Debug, PartialEq, Eq, Structural)]
pub enum TagEnd {
    /// Every image was looked at.
    Done,
    /// The user stopped it.
    Cancelled,
    /// The model could not be loaded, or an image could not be looked at.
    Failed,
}

/// What is to be done next to tag images.
#[derive(Clone, Copy, Debug, PartialEq, Eq, Structural)]
pub enum TagStep {
    /// Load the model.
    Load,
    /// Look whether the user wants to stop.
    Ask { done: usize },
    /// Look at the image with the number `done`, and hand its predictions over.
    Predict { done: usize },
    /// Report that `done` images were looked at.
    Report { done: usize },
    /// Say how it ended.
    End(TagEnd),
}

/// What is to be done after a step that went well or, where the user was asked,
/// did not stop it, and after one that did not.
pub open spec fn tag_next(step: TagStep, good: bool, total: nat) -> TagStep {
    match step {
        TagStep::Load => if !good {
            TagStep::End(TagEnd::Failed)
        } else {
            from_image(0, total)
        },
        TagStep::Ask { done } => if good {
            TagStep::Predict { done }
        } else {
            TagStep::End(TagEnd::Cancelled)
        },
        TagStep::Predict { done } => if good {
            TagStep::Report { done: (done + 1) as usize }
        } else {
            TagStep::End(TagEnd::Failed)
        },
        TagStep::Report { done } => from_image(done, total),
        TagStep::End(end) => TagStep::End(end),
    }
}

/// What is to be done when `done` images were looked at.
pub open spec fn from_image(done: usize, total: nat) -> TagStep {
    if done < total {
        TagStep::Ask { done }
    } else {
        TagStep::End(TagEnd::Done)
    }
}

/// Whether a step can occur in a run on `total` images.
pub open spec fn is_step_of(step: TagStep, total: nat) -> bool {
    match step {
        TagStep::Ask { done } => done < total,
        TagStep::Predict { done } => done < total,
        TagStep::Report { done } => 0 < done <= total,
        _ => true,
    }
}

fn go_on(done: usize, total: usize) -> (step: TagStep)
    ensures
        step == from_image(done, total as nat),
{
    if done < total {
        TagStep::Ask { done }
    } else {
        TagStep::End(TagEnd::Done)
    }
}

impl TagStep {
    /// What is to be done after this step, in a run on `total` images.
    pub fn next(self, good: bool, total: usize) -> (step: TagStep)
        requires
            is_step_of(self, total as nat),
        ensures
            step == tag_next(self, good, total as nat),
            is_step_of(step, total as nat),
    {
        match self {
            TagStep::Load => {
                if good {
                    go_on(0, total)
                } else {
                    TagStep::End(TagEnd::Failed)
                }
            },
            TagStep::Ask { done } => {
                if good {
                    TagStep::Predict { done }
                } else {
                    TagStep::End(TagEnd::Cancelled)
                }
            },
            TagStep::Predict { done } => {
                if good {
                    TagStep::Report { done: done + 1 }
                } else {
                    TagStep::End(TagEnd::Failed)
                }
            },
            TagStep::Report { done } => go_on(done, total),
            TagStep::End(end) => TagStep::End(end),
        }
    }
}

/// How many images were looked at before a step.
pub open spec fn looked_at(step: TagStep) -> Option<nat> {
    match step {
        TagStep::Load => Some(0),
        TagStep::Ask { done } => Some(done as nat),
        TagStep::Predict { done } => Some(done as nat),
        TagStep::Report { done } => Some(done as nat),
        TagStep::End(_) => None,
    }
}

/// How many steps a run has left at most.
pub open spec fn steps_ahead(step: TagStep, total: nat) -> int {
    match step {
        TagStep::Load => (3 * total + 1) as int,
        TagStep::Ask { done } => 3 * (total - done),
        TagStep::Predict { done } => 3 * (total - done) - 1,
        TagStep::Report { done } => 3 * (total - done) + 1,
        TagStep::End(_) => 0,
    }
}

/// A run looks at the images one after the other, asks before each of them, and
/// comes to its end; it ends as done only when every image was looked at, and
/// as stopped only when the user was asked.
pub proof fn law_images_are_tagged_in_turn(step: TagStep, good: bool, total: nat)
    requires
        total <= usize::MAX,
        is_step_of(step, total),
    ensures
        ({
            let next = tag_next(step, good, total);
            &&& is_step_of(next, total)
            &&& step !is End ==> steps_ahead(next, total) < steps_ahead(step, total)
            &&& steps_ahead(next, total) >= 0
            &&& next is Predict ==> step is Ask && good && looked_at(next) == looked_at(step)
            &&& next is Report ==> step is Predict && good && looked_at(next) == Some(
                looked_at(step).unwrap() + 1,
            )
            &&& next is Ask ==> looked_at(next) == looked_at(step)
            &&& step !is End && next == TagStep::End(TagEnd::Done) ==> looked_at(step) == Some(total)
            &&& step !is End && next == TagStep::End(TagEnd::Cancelled) ==> step is Ask && !good
        }),
{
}

} // verus!
