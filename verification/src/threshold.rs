//! How good a measured value is: good, allowed, a warning, or bad.
use vstd::prelude::*;
use crate::aggregate::{PassAggregate, ResponseAggregate};
use crate::messages::Messages;

verus! {

/// The grades a value can get, from best to worst.
#[derive(Debug, Clone, Copy, PartialEq, Eq, PartialOrd, Ord, Hash, Structural)]
pub enum Classification {
    Good,
    Allow,
    Warn,
    Bad,
}

/// A value together with its grade.
#[derive(Debug, Clone, PartialEq, Eq, Hash)]
pub struct Classified<T>(pub Classification, pub T);

impl<T> Classified<T> {
    /// The grade.
    pub fn class(&self) -> (c: Classification)
        ensures
            c == self.0,
    {
        self.0
    }

    /// The graded value.
    pub fn value(&self) -> (v: &T)
        ensures
            *v == self.1,
    {
        &self.1
    }
}

/// Something that can be graded.
pub trait Classify: Sized {
    /// The grade of `self`.
    spec fn classification(&self) -> Classification;

    fn classify(&self) -> (c: Classification)
        ensures
            c == self.classification(),
    ;

    /// `self` together with its grade.
    fn classified(self) -> (res: Classified<Self>)
        ensures
            res.0 == self.classification(),
            res.1 == self,
    {
        let c = self.classify();
        Classified(c, self)
    }
}

/// The grade of a pass rate of `pass` out of `count`: good when all passed, allowed above
/// 80%, a warning above 50%, else bad.
pub open spec fn pass_class(pass: nat, count: nat) -> Classification {
    if pass == count {
        Classification::Good
    } else if 5 * pass > 4 * count {
        Classification::Allow
    } else if 2 * pass > count {
        Classification::Warn
    } else {
        Classification::Bad
    }
}

impl Classify for PassAggregate {
    open spec fn classification(&self) -> Classification {
        pass_class(self.pass as nat, self.count as nat)
    }

    fn classify(&self) -> (c: Classification) {
        if self.pass == self.count {
            Classification::Good
        } else if 5 * (self.pass as u128) > 4 * (self.count as u128) {
            Classification::Allow
        } else if 2 * (self.pass as u128) > self.count as u128 {
            Classification::Warn
        } else {
            Classification::Bad
        }
    }
}

impl Classify for ResponseAggregate {
    open spec fn classification(&self) -> Classification {
        Classification::Good
    }

    fn classify(&self) -> (c: Classification) {
        Classification::Good
    }
}

impl<M> Classify for Messages<M> {
    open spec fn classification(&self) -> Classification {
        if self@.len() == 0 { Classification::Good } else { Classification::Warn }
    }

    fn classify(&self) -> (c: Classification) {
        if self.is_empty() { Classification::Good } else { Classification::Warn }
    }
}

/// A span of time in microseconds, as latencies are summed up.
#[derive(Debug, Clone, Copy, PartialEq, Eq, PartialOrd, Ord, Hash, Structural)]
pub struct Micros(pub u64);

/// The grade of a latency of `micros`: bad above 3 s, a warning above 1 s, allowed above
/// 200 ms, else good.
pub open spec fn latency_class(micros: u64) -> Classification {
    if micros > 3_000_000 {
        Classification::Bad
    } else if micros > 1_000_000 {
        Classification::Warn
    } else if micros > 200_000 {
        Classification::Allow
    } else {
        Classification::Good
    }
}

impl Classify for Micros {
    open spec fn classification(&self) -> Classification {
        latency_class(self.0)
    }

    fn classify(&self) -> (c: Classification) {
        if self.0 > 3_000_000 {
            Classification::Bad
        } else if self.0 > 1_000_000 {
            Classification::Warn
        } else if self.0 > 200_000 {
            Classification::Allow
        } else {
            Classification::Good
        }
    }
}

/// The rank of a grade, 0 for good up to 3 for bad.
pub open spec fn rank(c: Classification) -> nat {
    match c {
        Classification::Good => 0,
        Classification::Allow => 1,
        Classification::Warn => 2,
        Classification::Bad => 3,
    }
}

} // verus!
