use vstd::prelude::*;

verus! {

/// Something that can deliver a text message.
pub trait Messenger {
    fn send(&self, msg: &str);
}

/// How far a tracked value has gone towards its quota.
#[derive(Clone, Copy, Debug, PartialEq, Eq, Structural)]
pub enum QuotaAlert {
    /// At three quarters of the quota or more.
    Warning,
    /// At nine tenths of the quota or more.
    Urgent,
    /// At the quota or beyond it.
    Over,
}

/// The alert owed for `value` against a quota of `max`, by the ratio
/// `value / max`. A quota of zero is exceeded by any positive value; a zero
/// value against it raises nothing.
pub open spec fn alert_for(value: nat, max: nat) -> Option<QuotaAlert> {
    if max == 0 {
        if value > 0 {
            Some(QuotaAlert::Over)
        } else {
            None
        }
    } else if value >= max {
        Some(QuotaAlert::Over)
    } else if 10 * value >= 9 * max {
        Some(QuotaAlert::Urgent)
    } else if 4 * value >= 3 * max {
        Some(QuotaAlert::Warning)
    } else {
        None
    }
}

/// Decides which alert, if any, `value` raises against the quota `max`.
pub fn quota_alert(value: usize, max: usize) -> (r: Option<QuotaAlert>)
    ensures
        r == alert_for(value as nat, max as nat),
{
    let v = value as u128;
    let m = max as u128;
    if max == 0 {
        if value > 0 {
            Some(QuotaAlert::Over)
        } else {
            None
        }
    } else if value >= max {
        Some(QuotaAlert::Over)
    } else if 10 * v >= 9 * m {
        Some(QuotaAlert::Urgent)
    } else if 4 * v >= 3 * m {
        Some(QuotaAlert::Warning)
    } else {
        None
    }
}

impl QuotaAlert {
    /// The text sent for this alert.
    pub fn message(&self) -> (r: &'static str)
        ensures
            *self == QuotaAlert::Over ==> r@ == "Error: You are over your quota!"@,
            *self == QuotaAlert::Urgent ==> r@ == "Urgent warning: You've used up over 90% of your quota!"@,
            *self == QuotaAlert::Warning ==> r@ == "Warning: You've used up over 75% of your quota!"@,
    {
        match self {
            QuotaAlert::Over => "Error: You are over your quota!",
            QuotaAlert::Urgent => "Urgent warning: You've used up over 90% of your quota!",
            QuotaAlert::Warning => "Warning: You've used up over 75% of your quota!",
        }
    }
}

/// Tracks a value against a quota and reports, through a messenger, how close
/// the value has come to it.
pub struct LimitTracker<'a, T: Messenger> {
    messenger: &'a T,
    value: usize,
    max: usize,
}

impl<'a, T: Messenger> LimitTracker<'a, T> {
    /// The value last set.
    pub closed spec fn current(&self) -> usize {
        self.value
    }

    /// The quota.
    pub closed spec fn quota(&self) -> usize {
        self.max
    }

    /// The messenger alerts go to.
    pub closed spec fn target(&self) -> &'a T {
        self.messenger
    }

    /// A tracker at zero, against the quota `max`.
    pub fn new(messenger: &'a T, max: usize) -> (r: LimitTracker<'a, T>)
        ensures
            r.current() == 0,
            r.quota() == max,
            r.target() == messenger,
    {
        LimitTracker { messenger, value: 0, max }
    }

    /// Records `value` and sends the message of the alert it raises, if any.
    pub fn set_value(&mut self, value: usize)
        ensures
            final(self).current() == value,
            final(self).quota() == old(self).quota(),
            final(self).target() == old(self).target(),
    {
        self.value = value;
        match quota_alert(self.value, self.max) {
            Some(alert) => self.messenger.send(alert.message()),
            None => {},
        }
    }
}

} // verus!
