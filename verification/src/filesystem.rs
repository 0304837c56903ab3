//! A read-only file tree and the paths into it.

use vstd::prelude::*;

use crate::error::{ErrorCode, SysboostError};
use crate::ids::TargetIdentity;
use crate::text;

verus! {

/// Whether a component would leave the tree or stand still in it.
pub open spec fn unsafe_component(component: Seq<char>) -> bool {
    component.len() == 0 || component == "."@ || component == ".."@
}

/// Why a text is no relative path.
pub open spec fn path_fault(s: Seq<char>) -> Option<Seq<char>> {
    let parts = text::split_spec(s, '/');
    if s.len() == 0 || vstd::utf8::encode_utf8(s).len() > 256 {
        Some("path must be non-empty and at most 256 bytes"@)
    } else if s[0] == '/' || s.contains('\\') || s.contains(':') || s.contains('\0') {
        Some("path must be relative and contain no drive prefix, NUL, or backslash"@)
    } else if exists|i: int| 0 <= i < parts.len() && unsafe_component(#[trigger] parts[i]) {
        Some("path contains an empty, '.', or '..' component"@)
    } else {
        None
    }
}

pub open spec fn path_error(message: Seq<char>) -> crate::error::ErrorView {
    crate::error::error_view(ErrorCode::TargetError, message)
}

/// A path below the root of a tree, with slashes between its components. No
/// component leaves the tree.
#[derive(Debug, PartialEq, Eq)]
pub struct RelativePath {
    text: String,
}

impl View for RelativePath {
    type V = Seq<char>;

    closed spec fn view(&self) -> Seq<char> {
        self.text@
    }
}

fn has_char(s: &[char], c: char) -> (r: bool)
    ensures
        r == s@.contains(c),
{
    let i: usize = text::find(s, c);
    if i < s.len() {
        assert(s@[i as int] == c);
    }
    i < s.len()
}

fn invalid_path(message: &str) -> (r: SysboostError)
    ensures
        r@ == path_error(message@),
{
    SysboostError::new(ErrorCode::TargetError, message)
}

fn dots(s: &[char]) -> (r: bool)
    ensures
        r == unsafe_component(s@),
{
    proof {
        reveal_strlit(".");
        reveal_strlit("..");
    }
    if s.len() == 0 {
        return true;
    }
    if s.len() == 1 {
        assert("."@ =~= seq!['.']);
        if s[0] == '.' {
            assert(s@ =~= "."@);
            return true;
        }
        assert(s@ != "."@) by {
            if s@ == "."@ {
                assert(s@[0] == '.');
            }
        }
        return false;
    }
    if s.len() == 2 {
        if s[0] == '.' && s[1] == '.' {
            assert(s@ =~= ".."@);
            return true;
        }
        assert(s@ != ".."@) by {
            if s@ == ".."@ {
                assert(s@[0] == '.' && s@[1] == '.');
            }
        }
        return false;
    }
    false
}

impl RelativePath {
    #[verifier::type_invariant]
    spec fn inv(self) -> bool {
        path_fault(self.text@) is None
    }

    /// Takes a slash-separated path that stays below its root.
    pub fn new(value: &str) -> (r: Result<RelativePath, SysboostError>)
        ensures
            match r {
                Ok(path) => path_fault(value@) is None && path@ == value@,
                Err(e) => path_fault(value@) is Some && e@ == path_error(path_fault(value@)->0),
            },
    {
        let chars = text::chars_of(value);
        let chars = chars.as_slice();
        if chars.len() == 0 || value.as_bytes().len() > 256 {
            return Err(invalid_path("path must be non-empty and at most 256 bytes"));
        }
        if chars[0] == '/' || has_char(chars, '\\') || has_char(chars, ':') || has_char(
            chars,
            '\0',
        ) {
            return Err(
                invalid_path(
                    "path must be relative and contain no drive prefix, NUL, or backslash",
                ),
            );
        }
        let parts = text::split(chars, '/');
        let ghost all = text::split_spec(value@, '/');
        let mut i: usize = 0;
        while i < parts.len()
            invariant
                i <= parts.len(),
                all == text::deep_chars(parts@),
                all == text::split_spec(value@, '/'),
                value@.len() > 0,
                vstd::utf8::encode_utf8(value@).len() <= 256,
                !(value@[0] == '/' || value@.contains('\\') || value@.contains(':')
                    || value@.contains('\0')),
                forall|j: int| 0 <= j < i ==> !unsafe_component(#[trigger] all[j]),
            decreases parts.len() - i,
        {
            if dots(parts[i].as_slice()) {
                assert(unsafe_component(all[i as int]));
                return Err(invalid_path("path contains an empty, '.', or '..' component"));
            }
            i = i + 1;
        }
        Ok(RelativePath { text: value.to_string() })
    }

    /// Adds one component.
    pub fn join_component(&self, component: &str) -> (r: Result<RelativePath, SysboostError>)
        ensures
            match r {
                Ok(path) => join_fault(self@, component@) is None && path@ == joined(
                    self@,
                    component@,
                ),
                Err(e) => join_fault(self@, component@) is Some && e@ == path_error(
                    join_fault(self@, component@)->0,
                ),
            },
    {
        let chars = text::chars_of(component);
        let chars = chars.as_slice();
        if chars.len() == 0 || has_char(chars, '/') || has_char(chars, '\\') {
            return Err(invalid_path("path component is not a single safe component"));
        }
        let mut whole = self.text.clone();
        whole.push('/');
        whole.append(component);
        RelativePath::new(whole.as_str())
    }

    /// The path with slashes between its components.
    pub fn as_str(&self) -> (r: &str)
        ensures
            r@ == self@,
            path_fault(self@) is None,
    {
        proof {
            use_type_invariant(self);
        }
        self.text.as_str()
    }

    /// Whether two paths are the same.
    pub fn same(&self, other: &RelativePath) -> (r: bool)
        ensures
            r == (self@ == other@),
    {
        text::same(self.text.as_str(), other.text.as_str())
    }
}

impl Clone for RelativePath {
    fn clone(&self) -> (r: RelativePath)
        ensures
            r@ == self@,
    {
        proof {
            use_type_invariant(self);
        }
        RelativePath { text: self.text.clone() }
    }
}

/// A path with one more component.
pub open spec fn joined(path: Seq<char>, component: Seq<char>) -> Seq<char> {
    path.push('/') + component
}

/// Why a component cannot be added.
pub open spec fn join_fault(path: Seq<char>, component: Seq<char>) -> Option<Seq<char>> {
    if component.len() == 0 || component.contains('/') || component.contains('\\') {
        Some("path component is not a single safe component"@)
    } else {
        path_fault(joined(path, component))
    }
}

/// A path that was added to has the components it had, and the new one behind
/// them.
pub proof fn join_adds_one_component(path: Seq<char>, component: Seq<char>)
    requires
        join_fault(path, component) is None,
    ensures
        text::split_spec(joined(path, component), '/') == text::split_spec(path, '/').push(
            component,
        ),
{
    assert forall|i: int| 0 <= i < component.len() implies component[i] != '/' by {
        if component[i] == '/' {
            assert(component.contains('/'));
        }
    }
    text::lemma_split_push(path, '/', component);
}

/// No component of a path leaves the tree, and the path is not absolute.
pub proof fn paths_stay_below_their_root(path: Seq<char>, i: int)
    requires
        path_fault(path) is None,
        0 <= i < text::split_spec(path, '/').len(),
    ensures
        path[0] != '/',
        text::split_spec(path, '/')[i] != ".."@,
        text::split_spec(path, '/')[i] != "."@,
        text::split_spec(path, '/')[i].len() > 0,
{
    assert(!unsafe_component(text::split_spec(path, '/')[i]));
}

/// Whether the character at a position fits into a path of plain components: a
/// letter, a digit, an underscore or a hyphen; a dot inside a component; a slash
/// between two.
pub open spec fn plain_at(s: Seq<char>, i: int) -> bool {
    let c = s[i];
    ||| 'a' <= c <= 'z'
    ||| 'A' <= c <= 'Z'
    ||| '0' <= c <= '9'
    ||| c == '_'
    ||| c == '-'
    ||| (c == '.' && i > 0 && s[i - 1] != '/')
    ||| (c == '/' && 0 < i < s.len() - 1 && s[i - 1] != '/')
}

/// Whether the first characters fit into a path of plain components.
pub open spec fn plain_up_to(s: Seq<char>, n: nat) -> bool
    decreases n,
{
    n == 0 || (plain_at(s, n - 1) && plain_up_to(s, (n - 1) as nat))
}

pub proof fn lemma_plain_chars(s: Seq<char>, n: nat, i: int)
    requires
        plain_up_to(s, n),
        0 <= i < n,
    ensures
        plain_at(s, i),
    decreases n,
{
    if i < n - 1 {
        lemma_plain_chars(s, (n - 1) as nat, i);
    }
}

proof fn lemma_plain_parts(s: Seq<char>, n: nat)
    requires
        plain_up_to(s, n),
        n <= s.len(),
    ensures
        ({
            let parts = text::split_spec(s.take(n as int), '/');
            &&& parts.len() > 0
            &&& forall|k: int|
                0 <= k < parts.len() - 1 ==> (#[trigger] parts[k]).len() > 0 && parts[k][0] != '.'
            &&& parts.last().len() > 0 ==> parts.last()[0] != '.'
            &&& parts.last().len() == 0 <==> (n == 0 || s[n - 1] == '/')
        }),
    decreases n,
{
    let head = s.take(n as int);
    if n > 0 {
        lemma_plain_parts(s, (n - 1) as nat);
        assert(head.drop_last() =~= s.take(n - 1));
        let before = text::split_spec(s.take(n - 1), '/');
        let parts = text::split_spec(head, '/');
        if s[n - 1] == '/' {
            assert(parts =~= before.push(Seq::<char>::empty()));
            assert forall|k: int| 0 <= k < parts.len() - 1 implies (#[trigger] parts[k]).len() > 0
                && parts[k][0] != '.' by {
                assert(parts[k] == before[k]);
                if k == before.len() - 1 {
                    assert(before[k] == before.last());
                }
            }
        } else {
            assert(parts =~= before.drop_last().push(before.last().push(s[n - 1])));
            assert forall|k: int| 0 <= k < parts.len() - 1 implies (#[trigger] parts[k]).len() > 0
                && parts[k][0] != '.' by {
                assert(parts[k] == before[k]);
            }
        }
    }
}

/// A text of plain components is a path.
pub proof fn plain_paths_are_paths(s: Seq<char>)
    requires
        0 < s.len() <= 256,
        plain_up_to(s, s.len()),
    ensures
        path_fault(s) is None,
{
    reveal_strlit(".");
    reveal_strlit("..");
    assert forall|i: int| 0 <= i < s.len() implies plain_at(s, i) by {
        lemma_plain_chars(s, s.len(), i);
    }
    assert(vstd::utf8::is_ascii_chars(s)) by {
        assert forall|i: int| 0 <= i < s.len() implies '\0' <= #[trigger] s[i] <= '\u{7f}' by {
            assert(plain_at(s, i));
        }
    }
    vstd::utf8::is_ascii_chars_encode_utf8(s);
    assert(plain_at(s, 0));
    assert forall|c: char| c == '\\' || c == ':' || c == '\0' implies !s.contains(c) by {
        if s.contains(c) {
            let i = s.index_of(c);
            assert(plain_at(s, i));
        }
    }
    lemma_plain_parts(s, s.len());
    assert(s.take(s.len() as int) =~= s);
    assert(plain_at(s, s.len() - 1));
    let parts = text::split_spec(s, '/');
    assert forall|k: int| 0 <= k < parts.len() implies !unsafe_component(#[trigger] parts[k]) by {
        if k == parts.len() - 1 {
            assert(parts[k] == parts.last());
        }
        assert(parts[k][0] != '.');
        assert("."@[0] == '.');
        assert(".."@[0] == '.');
    }
}

/// What is known of a file without reading it.
#[derive(Clone, Copy, Debug, PartialEq, Eq, Structural)]
pub struct FileMetadata {
    /// Length in bytes.
    pub len: u64,
    /// Whether it can only be read.
    pub read_only: bool,
}

/// What a directory entry is.
#[derive(Clone, Copy, Debug, PartialEq, Eq, Structural)]
pub enum EntryKind {
    File,
    Directory,
    /// A symbolic link, which is never followed.
    Symlink,
    Other,
}

/// One entry of a directory.
#[derive(Debug, PartialEq, Eq)]
pub struct DirectoryEntry {
    /// Name inside the directory.
    pub name: String,
    /// What it is, without following a link.
    pub kind: EntryKind,
}

pub open spec fn entries_view(entries: Seq<DirectoryEntry>) -> Seq<(Seq<char>, EntryKind)> {
    entries.map_values(|entry: DirectoryEntry| (entry.name@, entry.kind))
}

/// A file tree that can only be read.
///
/// A tree whose contents cannot change while it is borrowed says so with
/// `settled`; what it holds is then `file` and `directory`. Any other tree may
/// answer two reads in two ways.
pub trait ReadOnlyFileSystem {
    /// Whether reading twice gives the same twice. A tree that does not say
    /// is not settled.
    open spec fn settled(&self) -> bool {
        false
    }

    /// What reading a path gives.
    open spec fn file(&self, path: Seq<char>) -> Result<Seq<u8>, crate::error::ErrorView> {
        arbitrary()
    }

    /// What listing a directory, or the root, gives.
    open spec fn directory(&self, path: Option<Seq<char>>) -> Result<
        Seq<(Seq<char>, EntryKind)>,
        crate::error::ErrorView,
    > {
        arbitrary()
    }

    /// Whether the tree may answer a read so. A tree that does not say may answer
    /// anything, here and below.
    open spec fn may_read(
        &self,
        path: Seq<char>,
        reply: Result<Seq<u8>, crate::error::ErrorView>,
    ) -> bool {
        true
    }

    /// Whether the tree may list these entries of a directory, or of the root.
    open spec fn may_list(
        &self,
        path: Option<Seq<char>>,
        reply: Result<Seq<(Seq<char>, EntryKind)>, crate::error::ErrorView>,
    ) -> bool {
        true
    }

    /// Reads a file.
    fn read(&self, path: &RelativePath) -> (r: Result<Vec<u8>, SysboostError>)
        ensures
            self.may_read(path@, bytes_reply(r)),
            self.settled() ==> match r {
                Ok(bytes) => self.file(path@) == Ok::<Seq<u8>, crate::error::ErrorView>(bytes@),
                Err(e) => self.file(path@) == Err::<Seq<u8>, crate::error::ErrorView>(e@),
            },
    ;

    /// What is known of a file without reading it.
    fn metadata(&self, path: &RelativePath) -> Result<FileMetadata, SysboostError>;

    /// The identity of an existing node, where the tree can prove it. A tree that does
    /// not say how can prove none.
    fn identity(&self, path: &RelativePath) -> (r: Result<TargetIdentity, SysboostError>)
        default_ensures
            r is Err,
            r->Err_0@ == unproven_identity(),
    {
        Err(
            SysboostError::new(
                ErrorCode::Unsupported,
                "filesystem adapter cannot prove node identity",
            ),
        )
    }

    /// The entries of a directory, or of the root, without following links. A tree that
    /// cannot list directories answers with `unlisted`.
    fn list(&self, path: Option<&RelativePath>) -> (r: Result<
        Vec<DirectoryEntry>,
        SysboostError,
    >)
        ensures
            self.may_list(path_view(path), entries_reply(r)),
            self.settled() ==> match r {
                Ok(entries) => self.directory(path_view(path)) == Ok::<
                    Seq<(Seq<char>, EntryKind)>,
                    crate::error::ErrorView,
                >(entries_view(entries@)),
                Err(e) => self.directory(path_view(path)) == Err::<
                    Seq<(Seq<char>, EntryKind)>,
                    crate::error::ErrorView,
                >(e@),
            },
    ;
}

pub open spec fn unproven_identity() -> crate::error::ErrorView {
    crate::error::error_view(
        ErrorCode::Unsupported,
        "filesystem adapter cannot prove node identity"@,
    )
}

/// What a tree that cannot list directories answers.
pub fn unlisted() -> (r: Result<Vec<DirectoryEntry>, SysboostError>)
    ensures
        r is Err,
        r->Err_0@ == crate::error::error_view(
            ErrorCode::Unsupported,
            "directory enumeration is unavailable for this filesystem port"@,
        ),
{
    Err(
        SysboostError::new(
            ErrorCode::Unsupported,
            "directory enumeration is unavailable for this filesystem port",
        ),
    )
}

/// Bytes that were read, as plain values.
pub open spec fn bytes_reply(r: Result<Vec<u8>, SysboostError>) -> Result<
    Seq<u8>,
    crate::error::ErrorView,
> {
    match r {
        Ok(bytes) => Ok(bytes@),
        Err(e) => Err(e@),
    }
}

/// Entries that were listed, as plain values.
pub open spec fn entries_reply(r: Result<Vec<DirectoryEntry>, SysboostError>) -> Result<
    Seq<(Seq<char>, EntryKind)>,
    crate::error::ErrorView,
> {
    match r {
        Ok(entries) => Ok(entries_view(entries@)),
        Err(e) => Err(e@),
    }
}

/// Whether a tree answers a read so.
pub open spec fn reads<F: ReadOnlyFileSystem>(
    tree: &F,
    path: Seq<char>,
    reply: Result<Seq<u8>, crate::error::ErrorView>,
) -> bool {
    &&& tree.may_read(path, reply)
    &&& tree.settled() ==> reply == tree.file(path)
}

/// Whether a tree lists these entries of a directory, or of the root.
pub open spec fn lists<F: ReadOnlyFileSystem>(
    tree: &F,
    path: Option<Seq<char>>,
    reply: Result<Seq<(Seq<char>, EntryKind)>, crate::error::ErrorView>,
) -> bool {
    &&& tree.may_list(path, reply)
    &&& tree.settled() ==> reply == tree.directory(path)
}

pub open spec fn path_view(path: Option<&RelativePath>) -> Option<Seq<char>> {
    match path {
        Some(path) => Some(path@),
        None => None,
    }
}

} // verus!
