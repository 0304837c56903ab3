//! Time, as milliseconds since the Unix epoch.

use vstd::prelude::*;

use crate::error::{ErrorCode, SysboostError};

verus! {

/// A point in time.
#[derive(Clone, Copy, Debug, PartialEq, Eq, Structural)]
pub struct Timestamp {
    pub millis: u128,
}

impl Timestamp {
    pub fn from_unix_millis(millis: u128) -> (r: Timestamp)
        ensures
            r.millis == millis,
    {
        Timestamp { millis }
    }

    pub fn as_unix_millis(&self) -> (r: u128)
        ensures
            r == self.millis,
    {
        self.millis
    }
}

/// Where the time comes from.
pub trait Clock {
    /// Whether the clock may give an answer. A clock that does not say may give any.
    open spec fn may_tell(&self, reply: Result<Timestamp, crate::error::ErrorView>) -> bool {
        true
    }

    fn now(&self) -> (r: Result<Timestamp, SysboostError>)
        ensures
            self.may_tell(crate::error::plain(r)),
    ;
}

/// A clock that hands every question on to another.
pub struct Relay<'a, C: Clock + ?Sized> {
    clock: &'a C,
}

impl<'a, C: Clock + ?Sized> Relay<'a, C> {
    pub fn new(clock: &'a C) -> (r: Self)
        ensures
            forall|told: Result<Timestamp, crate::error::ErrorView>| #[trigger]
                r.may_tell(told) == clock.may_tell(told),
    {
        Relay { clock }
    }
}

impl<'a, C: Clock + ?Sized> Clock for Relay<'a, C> {
    closed spec fn may_tell(&self, reply: Result<Timestamp, crate::error::ErrorView>) -> bool {
        self.clock.may_tell(reply)
    }

    fn now(&self) -> (r: Result<Timestamp, SysboostError>) {
        self.clock.now()
    }
}

/// Whether all this may have come from a clock.
pub open spec fn heard_from<C: Clock + ?Sized>(
    clock: &C,
    told: Set<Result<Timestamp, crate::error::ErrorView>>,
) -> bool {
    forall|time: Result<Timestamp, crate::error::ErrorView>| #[trigger]
        told.contains(time) ==> clock.may_tell(time)
}

pub(crate) proof fn lemma_times<C: Clock + ?Sized>(clock: &C)
    ensures
        heard_from(clock, times(clock)),
        forall|time: Result<Timestamp, crate::error::ErrorView>| #[trigger]
            clock.may_tell(time) ==> times(clock).contains(time),
{
}

/// What came from a relay came from the clock behind it.
pub(crate) proof fn lemma_relayed<C: Clock + ?Sized, D: Clock + ?Sized>(
    clock: &C,
    relay: &D,
    told: Set<Result<Timestamp, crate::error::ErrorView>>,
)
    requires
        heard_from(relay, told),
        forall|time: Result<Timestamp, crate::error::ErrorView>| #[trigger]
            relay.may_tell(time) == clock.may_tell(time),
    ensures
        told.subset_of(times(clock)),
{
}

/// What a clock may tell.
pub open spec fn times<C: Clock + ?Sized>(clock: &C) -> Set<Result<Timestamp, crate::error::ErrorView>> {
    Set::new(|told: Result<Timestamp, crate::error::ErrorView>| clock.may_tell(told))
}

pub open spec fn before_epoch() -> crate::error::ErrorView {
    crate::error::error_view(
        ErrorCode::InvariantViolation,
        "system clock precedes Unix epoch"@,
    )
}

/// The timestamp of a wall clock that says how long ago the epoch was, or that
/// it lies ahead.
pub fn wall_clock_time(since_epoch: Option<u128>) -> (r: Result<Timestamp, SysboostError>)
    ensures
        match r {
            Ok(time) => since_epoch == Some(time.millis),
            Err(e) => since_epoch is None && e@ == before_epoch(),
        },
{
    match since_epoch {
        Some(millis) => Ok(Timestamp { millis }),
        None => Err(
            SysboostError::new(ErrorCode::InvariantViolation, "system clock precedes Unix epoch"),
        ),
    }
}

/// A clock that stands still.
#[derive(Clone, Copy, Debug)]
pub struct FixedClock {
    pub timestamp: Timestamp,
}

impl FixedClock {
    pub fn new(timestamp: Timestamp) -> (r: FixedClock)
        ensures
            r.timestamp == timestamp,
    {
        FixedClock { timestamp }
    }
}

impl Clock for FixedClock {
    open spec fn may_tell(&self, reply: Result<Timestamp, crate::error::ErrorView>) -> bool {
        reply == Ok::<Timestamp, crate::error::ErrorView>(self.timestamp)
    }

    fn now(&self) -> (r: Result<Timestamp, SysboostError>)
        ensures
            r == Ok::<Timestamp, SysboostError>(self.timestamp),
    {
        Ok(self.timestamp)
    }
}

} // verus!
