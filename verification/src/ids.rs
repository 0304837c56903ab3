//! Identities: the names and fixed-size values by which targets, capabilities,
//! sessions and mutations are told apart.

use vstd::prelude::*;

use crate::error::{ErrorCode, SysboostError};
use crate::text;

verus! {

/// What a text identity says when it is refused.
pub open spec fn empty_identity() -> crate::error::ErrorView {
    crate::error::error_view(ErrorCode::InvalidInput, "identity text must not be empty"@)
}

/// Name of a concrete target of a mutation, such as one CPU policy or one control group. It is never empty.
#[derive(Debug, PartialEq, Eq)]
pub struct TargetId {
    text: String,
}

impl View for TargetId {
    type V = Seq<char>;

    closed spec fn view(&self) -> Seq<char> {
        self.text@
    }
}

impl TargetId {
    /// Takes any text but the empty one.
    pub fn new(text: &str) -> (r: Result<TargetId, SysboostError>)
        ensures
            match r {
                Ok(id) => text@.len() > 0 && id@ == text@,
                Err(e) => text@.len() == 0 && e@ == empty_identity(),
            },
    {
        if text.unicode_len() == 0 {
            return Err(
                SysboostError::new(ErrorCode::InvalidInput, "identity text must not be empty"),
            );
        }
        Ok(TargetId { text: text.to_string() })
    }

    pub fn as_str(&self) -> (r: &str)
        ensures
            r@ == self@,
    {
        self.text.as_str()
    }

    /// Whether two identities are the same.
    pub fn same(&self, other: &TargetId) -> (r: bool)
        ensures
            r == (self@ == other@),
    {
        text::same(self.text.as_str(), other.text.as_str())
    }
}

impl Clone for TargetId {
    fn clone(&self) -> (r: TargetId)
        ensures
            r == *self,
    {
        TargetId { text: self.text.clone() }
    }
}

/// Name of a capability that a host may have. It is never empty.
#[derive(Debug, PartialEq, Eq)]
pub struct CapabilityId {
    text: String,
}

impl View for CapabilityId {
    type V = Seq<char>;

    closed spec fn view(&self) -> Seq<char> {
        self.text@
    }
}

impl CapabilityId {
    /// Takes any text but the empty one.
    pub fn new(text: &str) -> (r: Result<CapabilityId, SysboostError>)
        ensures
            match r {
                Ok(id) => text@.len() > 0 && id@ == text@,
                Err(e) => text@.len() == 0 && e@ == empty_identity(),
            },
    {
        if text.unicode_len() == 0 {
            return Err(
                SysboostError::new(ErrorCode::InvalidInput, "identity text must not be empty"),
            );
        }
        Ok(CapabilityId { text: text.to_string() })
    }

    pub fn as_str(&self) -> (r: &str)
        ensures
            r@ == self@,
    {
        self.text.as_str()
    }

    /// Whether two identities are the same.
    pub fn same(&self, other: &CapabilityId) -> (r: bool)
        ensures
            r == (self@ == other@),
    {
        text::same(self.text.as_str(), other.text.as_str())
    }
}

impl Clone for CapabilityId {
    fn clone(&self) -> (r: CapabilityId)
        ensures
            r == *self,
    {
        CapabilityId { text: self.text.clone() }
    }
}

/// Name of a compiled-in operation. It is never empty.
#[derive(Debug, PartialEq, Eq)]
pub struct OperationId {
    text: String,
}

impl View for OperationId {
    type V = Seq<char>;

    closed spec fn view(&self) -> Seq<char> {
        self.text@
    }
}

impl OperationId {
    /// Takes any text but the empty one.
    pub fn new(text: &str) -> (r: Result<OperationId, SysboostError>)
        ensures
            match r {
                Ok(id) => text@.len() > 0 && id@ == text@,
                Err(e) => text@.len() == 0 && e@ == empty_identity(),
            },
    {
        if text.unicode_len() == 0 {
            return Err(
                SysboostError::new(ErrorCode::InvalidInput, "identity text must not be empty"),
            );
        }
        Ok(OperationId { text: text.to_string() })
    }

    pub fn as_str(&self) -> (r: &str)
        ensures
            r@ == self@,
    {
        self.text.as_str()
    }

    /// Whether two identities are the same.
    pub fn same(&self, other: &OperationId) -> (r: bool)
        ensures
            r == (self@ == other@),
    {
        text::same(self.text.as_str(), other.text.as_str())
    }
}

impl Clone for OperationId {
    fn clone(&self) -> (r: OperationId)
        ensures
            r == *self,
    {
        OperationId { text: self.text.clone() }
    }
}

/// Name of a compiled-in backend. It is never empty.
#[derive(Debug, PartialEq, Eq)]
pub struct BackendId {
    text: String,
}

impl View for BackendId {
    type V = Seq<char>;

    closed spec fn view(&self) -> Seq<char> {
        self.text@
    }
}

impl BackendId {
    /// Takes any text but the empty one.
    pub fn new(text: &str) -> (r: Result<BackendId, SysboostError>)
        ensures
            match r {
                Ok(id) => text@.len() > 0 && id@ == text@,
                Err(e) => text@.len() == 0 && e@ == empty_identity(),
            },
    {
        if text.unicode_len() == 0 {
            return Err(
                SysboostError::new(ErrorCode::InvalidInput, "identity text must not be empty"),
            );
        }
        Ok(BackendId { text: text.to_string() })
    }

    pub fn as_str(&self) -> (r: &str)
        ensures
            r@ == self@,
    {
        self.text.as_str()
    }

    /// Whether two identities are the same.
    pub fn same(&self, other: &BackendId) -> (r: bool)
        ensures
            r == (self@ == other@),
    {
        text::same(self.text.as_str(), other.text.as_str())
    }
}

impl Clone for BackendId {
    fn clone(&self) -> (r: BackendId)
        ensures
            r == *self,
    {
        BackendId { text: self.text.clone() }
    }
}

/// Name of a CPU frequency governor. It is never empty.
#[derive(Debug, PartialEq, Eq)]
pub struct GovernorId {
    text: String,
}

impl View for GovernorId {
    type V = Seq<char>;

    closed spec fn view(&self) -> Seq<char> {
        self.text@
    }
}

impl GovernorId {
    /// Takes any text but the empty one.
    pub fn new(text: &str) -> (r: Result<GovernorId, SysboostError>)
        ensures
            match r {
                Ok(id) => text@.len() > 0 && id@ == text@,
                Err(e) => text@.len() == 0 && e@ == empty_identity(),
            },
    {
        if text.unicode_len() == 0 {
            return Err(
                SysboostError::new(ErrorCode::InvalidInput, "identity text must not be empty"),
            );
        }
        Ok(GovernorId { text: text.to_string() })
    }

    pub fn as_str(&self) -> (r: &str)
        ensures
            r@ == self@,
    {
        self.text.as_str()
    }

    /// Whether two identities are the same.
    pub fn same(&self, other: &GovernorId) -> (r: bool)
        ensures
            r == (self@ == other@),
    {
        text::same(self.text.as_str(), other.text.as_str())
    }
}

impl Clone for GovernorId {
    fn clone(&self) -> (r: GovernorId)
        ensures
            r == *self,
    {
        GovernorId { text: self.text.clone() }
    }
}

/// Name of a platform profile. It is never empty.
#[derive(Debug, PartialEq, Eq)]
pub struct PlatformProfileId {
    text: String,
}

impl View for PlatformProfileId {
    type V = Seq<char>;

    closed spec fn view(&self) -> Seq<char> {
        self.text@
    }
}

impl PlatformProfileId {
    /// Takes any text but the empty one.
    pub fn new(text: &str) -> (r: Result<PlatformProfileId, SysboostError>)
        ensures
            match r {
                Ok(id) => text@.len() > 0 && id@ == text@,
                Err(e) => text@.len() == 0 && e@ == empty_identity(),
            },
    {
        if text.unicode_len() == 0 {
            return Err(
                SysboostError::new(ErrorCode::InvalidInput, "identity text must not be empty"),
            );
        }
        Ok(PlatformProfileId { text: text.to_string() })
    }

    pub fn as_str(&self) -> (r: &str)
        ensures
            r@ == self@,
    {
        self.text.as_str()
    }

    /// Whether two identities are the same.
    pub fn same(&self, other: &PlatformProfileId) -> (r: bool)
        ensures
            r == (self@ == other@),
    {
        text::same(self.text.as_str(), other.text.as_str())
    }
}

impl Clone for PlatformProfileId {
    fn clone(&self) -> (r: PlatformProfileId)
        ensures
            r == *self,
    {
        PlatformProfileId { text: self.text.clone() }
    }
}

/// Name of a control group below its parent. It is never empty.
#[derive(Debug, PartialEq, Eq)]
pub struct CgroupName {
    text: String,
}

impl View for CgroupName {
    type V = Seq<char>;

    closed spec fn view(&self) -> Seq<char> {
        self.text@
    }
}

impl CgroupName {
    /// Takes any text but the empty one.
    pub fn new(text: &str) -> (r: Result<CgroupName, SysboostError>)
        ensures
            match r {
                Ok(id) => text@.len() > 0 && id@ == text@,
                Err(e) => text@.len() == 0 && e@ == empty_identity(),
            },
    {
        if text.unicode_len() == 0 {
            return Err(
                SysboostError::new(ErrorCode::InvalidInput, "identity text must not be empty"),
            );
        }
        Ok(CgroupName { text: text.to_string() })
    }

    pub fn as_str(&self) -> (r: &str)
        ensures
            r@ == self@,
    {
        self.text.as_str()
    }

    /// Whether two identities are the same.
    pub fn same(&self, other: &CgroupName) -> (r: bool)
        ensures
            r == (self@ == other@),
    {
        text::same(self.text.as_str(), other.text.as_str())
    }
}

impl Clone for CgroupName {
    fn clone(&self) -> (r: CgroupName)
        ensures
            r == *self,
    {
        CgroupName { text: self.text.clone() }
    }
}

/// Identity of one boost session.
#[derive(Clone, Copy, Debug, PartialEq, Eq)]
pub struct SessionId {
    pub bytes: [u8; 16],
}

impl SessionId {
    pub fn from_bytes(bytes: [u8; 16]) -> (r: SessionId)
        ensures
            r.bytes == bytes,
    {
        SessionId { bytes }
    }

    pub fn as_bytes(&self) -> (r: &[u8; 16])
        ensures
            *r == self.bytes,
    {
        &self.bytes
    }

    /// Whether two values are the same.
    pub fn same(&self, other: &SessionId) -> (r: bool)
        ensures
            r == (*self == *other),
    {
        for i in 0..16usize
            invariant
                forall|j: int| 0 <= j < i ==> self.bytes[j] == other.bytes[j],
        {
            if self.bytes[i] != other.bytes[i] {
                return false;
            }
        }
        assert(self.bytes =~= other.bytes);
        true
    }
}

/// Identity of one approved plan.
#[derive(Clone, Copy, Debug, PartialEq, Eq)]
pub struct PlanId {
    pub bytes: [u8; 16],
}

impl PlanId {
    pub fn from_bytes(bytes: [u8; 16]) -> (r: PlanId)
        ensures
            r.bytes == bytes,
    {
        PlanId { bytes }
    }

    pub fn as_bytes(&self) -> (r: &[u8; 16])
        ensures
            *r == self.bytes,
    {
        &self.bytes
    }

    /// Whether two values are the same.
    pub fn same(&self, other: &PlanId) -> (r: bool)
        ensures
            r == (*self == *other),
    {
        for i in 0..16usize
            invariant
                forall|j: int| 0 <= j < i ==> self.bytes[j] == other.bytes[j],
        {
            if self.bytes[i] != other.bytes[i] {
                return false;
            }
        }
        assert(self.bytes =~= other.bytes);
        true
    }
}

/// Generation of a target: it changes when the name comes to mean another object.
#[derive(Clone, Copy, Debug, PartialEq, Eq)]
pub struct TargetIdentity {
    pub bytes: [u8; 16],
}

impl TargetIdentity {
    pub fn from_bytes(bytes: [u8; 16]) -> (r: TargetIdentity)
        ensures
            r.bytes == bytes,
    {
        TargetIdentity { bytes }
    }

    pub fn as_bytes(&self) -> (r: &[u8; 16])
        ensures
            *r == self.bytes,
    {
        &self.bytes
    }

    /// Whether two values are the same.
    pub fn same(&self, other: &TargetIdentity) -> (r: bool)
        ensures
            r == (*self == *other),
    {
        for i in 0..16usize
            invariant
                forall|j: int| 0 <= j < i ==> self.bytes[j] == other.bytes[j],
        {
            if self.bytes[i] != other.bytes[i] {
                return false;
            }
        }
        assert(self.bytes =~= other.bytes);
        true
    }
}

/// Digest of one observed value; equal values have equal fingerprints.
#[derive(Clone, Copy, Debug, PartialEq, Eq)]
pub struct StateFingerprint {
    pub bytes: [u8; 32],
}

impl StateFingerprint {
    pub fn from_bytes(bytes: [u8; 32]) -> (r: StateFingerprint)
        ensures
            r.bytes == bytes,
    {
        StateFingerprint { bytes }
    }

    pub fn as_bytes(&self) -> (r: &[u8; 32])
        ensures
            *r == self.bytes,
    {
        &self.bytes
    }

    /// Whether two values are the same.
    pub fn same(&self, other: &StateFingerprint) -> (r: bool)
        ensures
            r == (*self == *other),
    {
        for i in 0..32usize
            invariant
                forall|j: int| 0 <= j < i ==> self.bytes[j] == other.bytes[j],
        {
            if self.bytes[i] != other.bytes[i] {
                return false;
            }
        }
        assert(self.bytes =~= other.bytes);
        true
    }
}

/// Position of a mutation in its plan.
#[derive(Clone, Copy, Debug, PartialEq, Eq, Structural)]
pub struct MutationId {
    pub value: u32,
}

impl MutationId {
    pub fn new(value: u32) -> (r: MutationId)
        ensures
            r.value == value,
    {
        MutationId { value }
    }

    pub fn get(&self) -> (r: u32)
        ensures
            r == self.value,
    {
        self.value
    }
}

} // verus!
