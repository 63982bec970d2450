//! When the sending rate changes, and toward what.

use vstd::prelude::*;

verus! {

/// How bad the loss of data is.
#[derive(Debug, Clone, Copy, PartialEq, Eq, Structural)]
pub enum LossLevel {
    /// No loss rate is known.
    Unknown,
    /// The loss rate is below the limit up to which the path counts as not full.
    Low,
    /// The loss rate is at that limit or above, and something arrives.
    High,
    /// Everything is lost.
    Total,
}

impl LossLevel {
    /// Whether what is sent is limited by the application and not by the path.
    pub open spec fn spec_is_application_limited(self) -> bool {
        self == LossLevel::Unknown || self == LossLevel::Low
    }

    /// Whether what is sent is limited by the application and not by the path: the path is not
    /// known to be full.
    pub fn is_application_limited(self) -> (limited: bool)
        ensures
            limited == self.spec_is_application_limited(),
    {
        match self {
            LossLevel::Unknown | LossLevel::Low => true,
            LossLevel::High | LossLevel::Total => false,
        }
    }

    /// Whether the sending rate starts anew, which it does when everything is lost.
    pub fn restarts_send_rate(self) -> (restarts: bool)
        ensures
            restarts == (self == LossLevel::Total),
    {
        match self {
            LossLevel::Total => true,
            LossLevel::Unknown | LossLevel::Low | LossLevel::High => false,
        }
    }
}

/// Only a loss that is known, and not below the limit, shows that the path is full.
pub proof fn law_full_path_is_not_application_limited(loss: LossLevel)
    ensures
        loss.spec_is_application_limited() <==> !(loss == LossLevel::High || loss
            == LossLevel::Total),
{
}

/// The rate starts anew exactly when everything is lost, and never while the application limits
/// what is sent.
pub proof fn law_only_total_loss_restarts(loss: LossLevel, restarts: bool)
    requires
        call_ensures(LossLevel::restarts_send_rate, (loss,), restarts),
    ensures
        restarts <==> loss is Total,
        restarts ==> !loss.spec_is_application_limited(),
{
}

/// What is known of a sample of the delivery rate.
#[derive(Debug, Clone, Copy, PartialEq, Eq, Structural)]
pub struct SampleFacts {
    /// The sample was taken while the application limited what was sent.
    pub is_app_limited: bool,
    /// The rate with which to probe, which is the delivery rate and a share of it on top, is
    /// less than the current sending rate.
    pub probe_is_slower: bool,
}

/// What happens to the sending rate.
#[derive(Debug, Clone, Copy, PartialEq, Eq, Structural)]
pub enum RateChange {
    /// The rate stays as it is.
    Keep,
    /// The rate moves toward the rate with which to probe.
    TowardProbe,
    /// The rate moves toward the delivery rate.
    TowardDelivery,
}

/// What a sample, if there is one, does to the sending rate. A sample that the application
/// limited never makes the rate fall: it may be less than what the path carries.
pub fn rate_change(sample: Option<SampleFacts>) -> (change: RateChange)
    ensures
        change == RateChange::TowardDelivery <==> (sample matches Some(facts)
            && !facts.is_app_limited),
        change == RateChange::TowardProbe <==> (sample matches Some(facts) && facts.is_app_limited
            && !facts.probe_is_slower),
        change == RateChange::Keep <==> (sample matches Some(facts) ==> facts.is_app_limited
            && facts.probe_is_slower),
{
    match sample {
        None => RateChange::Keep,
        Some(facts) => if facts.is_app_limited {
            if facts.probe_is_slower {
                RateChange::Keep
            } else {
                RateChange::TowardProbe
            }
        } else {
            RateChange::TowardDelivery
        },
    }
}

/// Whatever a sample says, it does one thing. One that the application limited never moves the
/// rate toward the delivery rate, and one that it did not limit always does. Without a sample the
/// rate stays.
pub proof fn law_sample_moves_rate(sample: Option<SampleFacts>, change: RateChange)
    requires
        call_ensures(rate_change, (sample,), change),
    ensures
        sample is None ==> change == RateChange::Keep,
        sample matches Some(facts) ==> {
            &&& !facts.is_app_limited ==> change == RateChange::TowardDelivery
            &&& facts.is_app_limited && facts.probe_is_slower ==> change == RateChange::Keep
            &&& facts.is_app_limited && !facts.probe_is_slower ==> change
                == RateChange::TowardProbe
        },
{
}

} // verus!
