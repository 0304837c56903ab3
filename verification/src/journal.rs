//! A journal of intents.

use vstd::prelude::*;

use crate::error::SysboostError;
use crate::mutation::Snapshot;
use crate::session::{SessionRecord, TransitionRecord};

verus! {

/// An intent with everything that was captured before it.
#[derive(Clone, Debug, PartialEq, Eq)]
pub struct StoredIntent {
    pub session: SessionRecord,
    pub snapshots: Vec<Snapshot>,
}

/// Where intents are written down. A call that succeeds has made it durable.
pub trait JournalStore {
    fn create_intent(&mut self, session: &SessionRecord, snapshots: &Vec<Snapshot>) -> Result<
        (),
        SysboostError,
    >;

    fn append_transition(&mut self, transition: &TransitionRecord) -> Result<(), SysboostError>;

    /// The sessions that were not proven restored.
    fn load_unfinished(&self) -> Result<Vec<StoredIntent>, SysboostError>;
}

} // verus!
