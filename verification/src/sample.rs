//! The bookkeeping of the samples of an image.
//!
//! The samples are rendered independently and then added up, pixel by
//! pixel; the sum is divided by the number of samples that were rendered.
//! A sample whose turn comes after the rendering was called off is not
//! rendered: it adds nothing to the sum and is not counted.

use vstd::prelude::*;

verus! {

/// How many samples a sum of samples holds.
#[derive(Clone, Copy, Debug, PartialEq, Eq, Structural)]
pub struct Tally {
    pub rendered: u64,
}

impl Tally {
    /// The tally of the sum of both.
    pub open spec fn spec_combine(self, other: Tally) -> Tally {
        Tally { rendered: (self.rendered + other.rendered) as u64 }
    }

    /// The number to divide the sum by, unless nothing was rendered.
    pub open spec fn spec_divisor(self) -> Option<u64> {
        if self.rendered == 0 {
            None
        } else {
            Some(self.rendered)
        }
    }

    /// The tally of one sample.
    pub open spec fn spec_of_sample(running: bool) -> Tally {
        Tally { rendered: if running {
            1
        } else {
            0
        } }
    }

    /// The tally of the empty sum.
    pub fn neutral() -> (r: Tally)
        ensures
            r.rendered == 0,
    {
        Tally { rendered: 0 }
    }

    /// The tally of one sample, given what the signal to go on said when
    /// the sample's turn came: the sample is rendered, and counts, where it
    /// said to go on.
    #[verifier::when_used_as_spec(spec_of_sample)]
    pub fn of_sample(running: bool) -> (r: Tally)
        ensures
            r == Tally::spec_of_sample(running),
    {
        if running {
            Tally { rendered: 1 }
        } else {
            Tally { rendered: 0 }
        }
    }

    /// Whether the sample of this tally is to be rendered.
    pub fn renders(&self) -> (r: bool)
        ensures
            r == (self.rendered > 0),
    {
        self.rendered > 0
    }

    /// The tally of the sum of both.
    #[verifier::when_used_as_spec(spec_combine)]
    pub fn combine(self, other: Tally) -> (r: Tally)
        requires
            self.rendered + other.rendered <= u64::MAX,
        ensures
            r == self.spec_combine(other),
            r.rendered == self.rendered + other.rendered,
    {
        Tally { rendered: self.rendered + other.rendered }
    }

    /// The number to divide the sum by: the number of samples rendered.
    /// Where none was rendered there is no image, and nothing to divide.
    #[verifier::when_used_as_spec(spec_divisor)]
    pub fn divisor(self) -> (r: Option<u64>)
        ensures
            r == self.spec_divisor(),
            r is None <==> self.rendered == 0,
    {
        if self.rendered == 0 {
            None
        } else {
            Some(self.rendered)
        }
    }
}

/// The tally of a sum does not depend on the order in which the samples
/// are added, nor on how they are grouped, and the empty sum changes
/// nothing.
pub proof fn lemma_combine_is_a_sum(a: Tally, b: Tally, c: Tally)
    requires
        a.rendered + b.rendered + c.rendered <= u64::MAX,
    ensures
        a.combine(b) == b.combine(a),
        a.combine(b).combine(c) == a.combine(b.combine(c)),
        a.combine(Tally { rendered: 0 }) == a,
{
}

/// The tally of the sum of all samples, where `running` tells what the
/// signal said at each sample's turn.
pub open spec fn tally_of(running: Seq<bool>) -> Tally
    decreases running.len(),
{
    if running.len() == 0 {
        Tally { rendered: 0 }
    } else {
        tally_of(running.drop_last()).combine(Tally::spec_of_sample(running.last()))
    }
}

/// No more samples are counted than there are.
pub proof fn lemma_tally_is_bounded(running: Seq<bool>)
    requires
        running.len() <= u64::MAX,
    ensures
        tally_of(running).rendered <= running.len(),
    decreases running.len(),
{
    if running.len() > 0 {
        lemma_tally_is_bounded(running.drop_last());
    }
}

/// There is something to divide by as soon as one sample was rendered, and
/// only then: where the rendering was called off before the first sample,
/// nothing is counted, and there is no divisor.
pub proof fn lemma_divisor_needs_a_sample(running: Seq<bool>)
    requires
        running.len() <= u64::MAX,
    ensures
        tally_of(running).divisor() is None <==> forall|k: int|
            0 <= k < running.len() ==> !running[k],
    decreases running.len(),
{
    if running.len() > 0 {
        let before = running.drop_last();
        lemma_divisor_needs_a_sample(before);
        lemma_tally_is_bounded(before);
        if forall|k: int| 0 <= k < running.len() ==> !running[k] {
            assert forall|k: int| 0 <= k < before.len() implies !before[k] by {
                assert(before[k] == running[k]);
            }
        } else {
            let k = choose|k: int| 0 <= k < running.len() && running[k];
            if k < before.len() {
                assert(before[k]);
            }
        }
        if tally_of(running).divisor() is None {
            assert forall|k: int| 0 <= k < running.len() implies !running[k] by {
                if k < before.len() {
                    assert(before[k] == running[k]);
                }
            }
        }
    }
}

} // verus!
