//! Where sessions are kept, and who may hold one.

use vstd::prelude::*;

use crate::error::{ErrorView, SysboostError};
use crate::ids::SessionId;
use crate::session::{RecordView, SessionRecord};

verus! {

/// Records as plain values.
pub open spec fn records_view(records: Seq<SessionRecord>) -> Seq<RecordView> {
    records.map_values(|record: SessionRecord| record@)
}

/// An answer with the records that it holds.
pub open spec fn listed(r: Result<Vec<SessionRecord>, SysboostError>) -> Result<
    Seq<RecordView>,
    ErrorView,
> {
    match r {
        Ok(records) => Ok(records_view(records@)),
        Err(e) => Err(e@),
    }
}

/// Where session records are kept. A call that succeeds has made its record
/// durable.
pub trait SessionStateStore {
    /// Whether the store may answer so when it is given a new record, and be left like
    /// this. A store that does not say may do anything, here and below.
    open spec fn may_create(
        &self,
        after: &Self,
        record: RecordView,
        reply: Result<(), ErrorView>,
    ) -> bool {
        true
    }

    /// Whether the store may answer so when it is given a record in place of another,
    /// and be left like this.
    open spec fn may_replace(
        &self,
        after: &Self,
        record: RecordView,
        reply: Result<(), ErrorView>,
    ) -> bool {
        true
    }

    /// Whether the store may answer so when it is asked for a record.
    open spec fn may_load(
        &self,
        session_id: SessionId,
        reply: Result<RecordView, ErrorView>,
    ) -> bool {
        true
    }

    /// Whether the store may answer so when it is asked for all unfinished records.
    open spec fn may_list(&self, reply: Result<Seq<RecordView>, ErrorView>) -> bool {
        true
    }

    /// Whether the store may answer so when it is told to forget a record, and be left
    /// like this.
    open spec fn may_remove(
        &self,
        after: &Self,
        session_id: SessionId,
        reply: Result<(), ErrorView>,
    ) -> bool {
        true
    }

    /// Keeps a new record.
    fn create(&mut self, record: &SessionRecord) -> (r: Result<(), SysboostError>)
        ensures
            old(self).may_create(final(self), record@, crate::error::outcome(r)),
    ;

    /// Replaces a record.
    fn replace(&mut self, record: &SessionRecord) -> (r: Result<(), SysboostError>)
        ensures
            old(self).may_replace(final(self), record@, crate::error::outcome(r)),
    ;

    /// Reads a record.
    fn load(&self, session_id: SessionId) -> (r: Result<SessionRecord, SysboostError>)
        ensures
            self.may_load(session_id, crate::error::viewed(r)),
    ;

    /// Reads the records of all sessions that were not proven restored.
    fn load_unfinished(&self) -> (r: Result<Vec<SessionRecord>, SysboostError>)
        ensures
            self.may_list(listed(r)),
    ;

    /// Forgets a record.
    fn remove(&mut self, session_id: SessionId) -> (r: Result<(), SysboostError>)
        ensures
            old(self).may_remove(final(self), session_id, crate::error::outcome(r)),
    ;
}

/// The lock that one coordinator at a time holds, for as long as its guard
/// lives.
pub trait ExclusiveSessionLock {
    type Guard;

    /// Whether the lock may answer so when it is asked for, and be left like this. A
    /// lock that does not say may do anything.
    open spec fn may_acquire(&self, after: &Self, reply: Result<(), ErrorView>) -> bool {
        true
    }

    fn acquire(&mut self) -> (r: Result<Self::Guard, SysboostError>)
        ensures
            old(self).may_acquire(final(self), crate::error::outcome(r)),
    ;
}

/// Where the identities of new sessions come from.
pub trait SessionIdSource {
    /// Whether the source may answer so when it is asked for an identity, and be left
    /// like this. A source that does not say may do anything.
    open spec fn may_give(&self, after: &Self, reply: Result<SessionId, ErrorView>) -> bool {
        true
    }

    fn next_id(&mut self) -> (r: Result<SessionId, SysboostError>)
        ensures
            old(self).may_give(final(self), crate::error::plain(r)),
    ;
}

} // verus!
