//! What may be reached of a file tree of a real host.
//!
//! No link is followed, and nothing outside the root of the tree is read.

use vstd::prelude::*;

use crate::cpu;
use crate::error::{ErrorCode, ErrorView, SysboostError};
use crate::filesystem::{DirectoryEntry, EntryKind};
use crate::order;
use crate::order::{Key, Keyed};
use crate::text;

verus! {

/// The error of a node that may not be reached.
pub open spec fn fault(message: Seq<char>) -> ErrorView {
    crate::error::error_view(ErrorCode::TargetError, message)
}

fn target_error(message: &str) -> (r: SysboostError)
    ensures
        r@ == fault(message@),
{
    SysboostError::new(ErrorCode::TargetError, message)
}

/// Whether the root of a tree can be one.
pub fn check_root(kind: EntryKind) -> (r: Result<(), SysboostError>)
    ensures
        cpu::failure(r) == if kind == EntryKind::Directory {
            None
        } else {
            Some(fault("adapter root is not a directory"@))
        },
{
    if kind == EntryKind::Directory {
        Ok(())
    } else {
        Err(target_error("adapter root is not a directory"))
    }
}

/// Whether a node on the way to another can be passed.
pub fn check_node(kind: EntryKind) -> (r: Result<(), SysboostError>)
    ensures
        cpu::failure(r) == if kind == EntryKind::Symlink {
            Some(fault("symlink traversal is not accepted by the rooted adapter"@))
        } else {
            None
        },
{
    if kind == EntryKind::Symlink {
        Err(target_error("symlink traversal is not accepted by the rooted adapter"))
    } else {
        Ok(())
    }
}

/// Whether the components of a path begin with those of a root.
pub open spec fn starts_with(resolved: Seq<Seq<u8>>, root: Seq<Seq<u8>>) -> bool {
    root.len() <= resolved.len() && resolved.take(root.len() as int) == root
}

/// The components of a path.
pub open spec fn components(path: Seq<Vec<u8>>) -> Seq<Seq<u8>> {
    path.map_values(|component: Vec<u8>| component@)
}

fn same_component(a: &[u8], b: &[u8]) -> (r: bool)
    ensures
        r == (a@ == b@),
{
    if a.len() != b.len() {
        return false;
    }
    let mut i: usize = 0;
    while i < a.len()
        invariant
            i <= a@.len() == b@.len(),
            forall|j: int| 0 <= j < i ==> a@[j] == b@[j],
        decreases a@.len() - i,
    {
        if a[i] != b[i] {
            return false;
        }
        i = i + 1;
    }
    assert(a@ =~= b@);
    true
}

/// Whether a path, by its components, stays below a root.
pub fn check_resolved(resolved: &Vec<Vec<u8>>, root: &Vec<Vec<u8>>) -> (r: Result<
    (),
    SysboostError,
>)
    ensures
        cpu::failure(r) == if starts_with(components(resolved@), components(root@)) {
            None
        } else {
            Some(fault("resolved adapter node escapes its approved root"@))
        },
{
    let ghost below = components(resolved@);
    let ghost above = components(root@);
    if root.len() > resolved.len() {
        return Err(target_error("resolved adapter node escapes its approved root"));
    }
    let mut i: usize = 0;
    while i < root.len()
        invariant
            i <= root@.len() <= resolved@.len(),
            below == components(resolved@),
            above == components(root@),
            forall|j: int| 0 <= j < i ==> below[j] == above[j],
        decreases root@.len() - i,
    {
        assert(below[i as int] == resolved@[i as int]@);
        assert(above[i as int] == root@[i as int]@);
        if !same_component(resolved[i].as_slice(), root[i].as_slice()) {
            assert(below.take(above.len() as int)[i as int] != above[i as int]);
            return Err(target_error("resolved adapter node escapes its approved root"));
        }
        i = i + 1;
    }
    assert(below.take(above.len() as int) =~= above);
    Ok(())
}

/// Whether a node is one that has an identity.
pub fn check_identity(kind: EntryKind) -> (r: Result<(), SysboostError>)
    ensures
        cpu::failure(r) == if kind == EntryKind::File || kind == EntryKind::Directory {
            None
        } else {
            Some(fault("adapter identity target has an unexpected type"@))
        },
{
    if kind == EntryKind::File || kind == EntryKind::Directory {
        Ok(())
    } else {
        Err(target_error("adapter identity target has an unexpected type"))
    }
}

/// Whether a node has entries.
pub fn check_directory(kind: EntryKind) -> (r: Result<(), SysboostError>)
    ensures
        cpu::failure(r) == if kind == EntryKind::Directory {
            None
        } else {
            Some(fault("adapter list target is not a directory"@))
        },
{
    if kind == EntryKind::Directory {
        Ok(())
    } else {
        Err(target_error("adapter list target is not a directory"))
    }
}

impl View for DirectoryEntry {
    type V = (Seq<char>, EntryKind);

    open spec fn view(&self) -> (Seq<char>, EntryKind) {
        (self.name@, self.kind)
    }
}

impl Keyed for DirectoryEntry {
    open spec fn key_of(row: (Seq<char>, EntryKind)) -> Key {
        (row.0, None)
    }

    fn before(&self, other: &DirectoryEntry) -> (r: bool) {
        text::less(self.name.as_str(), other.name.as_str())
    }
}

/// Entries in the order of their names.
pub fn sort_entries(entries: Vec<DirectoryEntry>) -> (r: Vec<DirectoryEntry>)
    ensures
        order::views(r@) == order::sorted::<DirectoryEntry>(order::views(entries@)),
{
    order::sort(entries)
}

} // verus!
