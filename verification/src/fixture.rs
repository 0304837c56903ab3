//! A file tree in memory.

use vstd::prelude::*;

use crate::bytes;
use crate::error::{ErrorCode, SysboostError};
use crate::filesystem::{
    DirectoryEntry, EntryKind, FileMetadata, ReadOnlyFileSystem, RelativePath,
};
use crate::ids::TargetIdentity;
use crate::text;

verus! {

#[derive(Debug)]
struct FixtureFile {
    path: RelativePath,
    bytes: Vec<u8>,
    read_only: bool,
}

/// One file of the tree.
#[verifier::ext_equal]
pub struct FileView {
    pub path: Seq<char>,
    pub bytes: Seq<u8>,
    pub read_only: bool,
}

impl View for FixtureFile {
    type V = FileView;

    closed spec fn view(&self) -> FileView {
        FileView { path: self.path@, bytes: self.bytes@, read_only: self.read_only }
    }
}

/// A file tree in memory, its files in the order of their paths.
#[derive(Debug)]
pub struct FixtureFilesystem {
    files: Vec<FixtureFile>,
}

impl View for FixtureFilesystem {
    type V = Seq<FileView>;

    closed spec fn view(&self) -> Seq<FileView> {
        self.files@.map_values(|file: FixtureFile| file@)
    }
}

/// Whether files stand in the order of their paths, each path once.
pub open spec fn in_order(files: Seq<FileView>) -> bool {
    forall|i: int, j: int|
        0 <= i < j < files.len() ==> text::less_spec(
            (#[trigger] files[i]).path,
            (#[trigger] files[j]).path,
        )
}

impl FixtureFilesystem {
    #[verifier::type_invariant]
    spec fn ordered(self) -> bool {
        in_order(self@)
    }
}

/// The file at a path.
pub open spec fn file_at(files: Seq<FileView>, path: Seq<char>) -> Option<FileView>
    decreases files.len(),
{
    if files.len() == 0 {
        None
    } else if files.last().path == path {
        Some(files.last())
    } else {
        file_at(files.drop_last(), path)
    }
}

/// The files with one more in its place; a file with the same path is replaced.
pub open spec fn put_file(files: Seq<FileView>, file: FileView) -> Seq<FileView>
    decreases files.len(),
{
    if files.len() == 0 {
        seq![file]
    } else if files.last().path == file.path {
        files.drop_last().push(file)
    } else if text::less_spec(files.last().path, file.path) {
        files.push(file)
    } else {
        put_file(files.drop_last(), file).push(files.last())
    }
}

/// Reading gives back what was put, and every other path reads as before.
pub proof fn put_then_read(files: Seq<FileView>, file: FileView, path: Seq<char>)
    ensures
        file_at(put_file(files, file), path) == if path == file.path {
            Some(file)
        } else {
            file_at(files, path)
        },
    decreases files.len(),
{
    let after = put_file(files, file);
    if files.len() == 0 {
        assert(after.drop_last() =~= files);
        assert(file_at(files, path) is None);
        assert(after.last() == file);
    } else if files.last().path == file.path {
        assert(after.drop_last() =~= files.drop_last());
    } else if text::less_spec(files.last().path, file.path) {
        assert(after.drop_last() =~= files);
    } else {
        put_then_read(files.drop_last(), file, path);
        assert(after.drop_last() =~= put_file(files.drop_last(), file));
    }
}

proof fn lemma_file_at(files: Seq<FileView>, path: Seq<char>)
    ensures
        file_at(files, path) is Some <==> exists|i: int|
            0 <= i < files.len() && (#[trigger] files[i]).path == path,
    decreases files.len(),
{
    if files.len() > 0 {
        let shorter = files.drop_last();
        lemma_file_at(shorter, path);
        assert(files[files.len() - 1] == files.last());
        if exists|i: int| 0 <= i < shorter.len() && (#[trigger] shorter[i]).path == path {
            let i = choose|i: int| 0 <= i < shorter.len() && (#[trigger] shorter[i]).path == path;
            assert(files[i].path == path);
        }
        if exists|i: int| 0 <= i < files.len() && (#[trigger] files[i]).path == path {
            let i = choose|i: int| 0 <= i < files.len() && (#[trigger] files[i]).path == path;
            if i < shorter.len() {
                assert(shorter[i].path == path);
            }
        }
    }
}

/// Putting a file keeps the files in order, and adds one only where its path was
/// free.
pub proof fn putting_keeps_order(files: Seq<FileView>, file: FileView)
    requires
        in_order(files),
    ensures
        in_order(put_file(files, file)),
        put_file(files, file).len() == files.len() + if file_at(files, file.path) is Some {
            0nat
        } else {
            1nat
        },
        forall|k: int|
            0 <= k < put_file(files, file).len() ==> (#[trigger] put_file(files, file)[k]).path
                == file.path || exists|i: int|
                0 <= i < files.len() && (#[trigger] files[i]).path == put_file(files, file)[k].path,
    decreases files.len(),
{
    let after = put_file(files, file);
    lemma_file_at(files, file.path);
    if files.len() > 0 {
        let shorter = files.drop_last();
        let last = files.last();
        assert(last == files[files.len() - 1]);
        assert forall|i: int, j: int| 0 <= i < j < shorter.len() implies text::less_spec(
            (#[trigger] shorter[i]).path,
            (#[trigger] shorter[j]).path,
        ) by {
            assert(files[i] == shorter[i] && files[j] == shorter[j]);
        }
        if last.path == file.path {
            assert forall|k: int| 0 <= k < after.len() implies (#[trigger] after[k]).path
                == files[k].path by {}
        } else if text::less_spec(last.path, file.path) {
            assert forall|i: int| 0 <= i < files.len() implies text::less_spec(
                (#[trigger] files[i]).path,
                file.path,
            ) && files[i].path != file.path by {
                if i < files.len() - 1 {
                    text::less_transitive(files[i].path, last.path, file.path);
                }
                text::less_irreflexive(file.path);
            }
            assert forall|k: int| 0 <= k < files.len() implies (#[trigger] after[k]).path
                == files[k].path by {}
        } else {
            text::less_total(last.path, file.path);
            putting_keeps_order(shorter, file);
            lemma_file_at(shorter, file.path);
            let put = put_file(shorter, file);
            assert forall|k: int| 0 <= k < put.len() implies text::less_spec(
                (#[trigger] put[k]).path,
                last.path,
            ) by {
                if put[k].path != file.path {
                    let i = choose|i: int|
                        0 <= i < shorter.len() && (#[trigger] shorter[i]).path == put[k].path;
                    assert(files[i] == shorter[i]);
                }
            }
            assert forall|k: int| 0 <= k < after.len() implies (#[trigger] after[k]).path
                == file.path || exists|i: int|
                0 <= i < files.len() && (#[trigger] files[i]).path == after[k].path by {
                if k < put.len() {
                    assert(after[k] == put[k]);
                    if put[k].path != file.path {
                        let i = choose|i: int|
                            0 <= i < shorter.len() && (#[trigger] shorter[i]).path == put[k].path;
                        assert(files[i].path == after[k].path);
                    }
                } else {
                    assert(files[files.len() - 1].path == after[k].path);
                }
            }
            assert forall|i: int, j: int| 0 <= i < j < after.len() implies text::less_spec(
                (#[trigger] after[i]).path,
                (#[trigger] after[j]).path,
            ) by {
                assert(after[i] == put[i]);
                if j < put.len() {
                    assert(after[j] == put[j]);
                }
            }
            if exists|i: int| 0 <= i < files.len() && (#[trigger] files[i]).path == file.path {
                let i = choose|i: int|
                    0 <= i < files.len() && (#[trigger] files[i]).path == file.path;
                assert(shorter[i].path == file.path);
            }
            if exists|i: int| 0 <= i < shorter.len() && (#[trigger] shorter[i]).path
                == file.path {
                let i = choose|i: int|
                    0 <= i < shorter.len() && (#[trigger] shorter[i]).path == file.path;
                assert(files[i].path == file.path);
            }
        }
    }
}

pub open spec fn missing(message: Seq<char>) -> crate::error::ErrorView {
    crate::error::error_view(ErrorCode::TargetError, message)
}

/// Whether a path is below a directory.
pub open spec fn below(path: Seq<char>, directory: Seq<char>) -> bool {
    text::starts_with_spec(path, directory.push('/'))
}

/// Whether some file is at a path or below it.
pub open spec fn occupied(files: Seq<FileView>, path: Seq<char>) -> bool {
    exists|i: int|
        0 <= i < files.len() && ((#[trigger] files[i]).path == path || below(files[i].path, path))
}

/// What is left of a path inside a directory, or of the whole path in the root.
pub open spec fn inside(path: Seq<char>, directory: Option<Seq<char>>) -> Option<Seq<char>> {
    match directory {
        None => Some(path),
        Some(directory) => if path != directory && below(path, directory) {
            Some(path.skip(directory.len() as int + 1))
        } else {
            None
        },
    }
}

/// The entry of a directory that a path stands for: a file, or the directory
/// that its first component names.
pub open spec fn entry_spec(path: Seq<char>, directory: Option<Seq<char>>) -> Option<
    (Seq<char>, EntryKind),
> {
    match inside(path, directory) {
        None => None,
        Some(rest) => {
            let slash = text::find_spec(rest, '/');
            if slash == rest.len() {
                Some((rest, EntryKind::File))
            } else if slash > 0 && slash + 1 < rest.len() {
                Some((rest.take(slash), EntryKind::Directory))
            } else {
                None
            }
        },
    }
}

/// Entries in the order of their names, with one more in its place.
pub open spec fn put_entry(
    entries: Seq<(Seq<char>, EntryKind)>,
    name: Seq<char>,
    kind: EntryKind,
) -> Seq<(Seq<char>, EntryKind)>
    decreases entries.len(),
{
    if entries.len() == 0 {
        seq![(name, kind)]
    } else if entries.last().0 == name {
        entries.drop_last().push((name, kind))
    } else if text::less_spec(entries.last().0, name) {
        entries.push((name, kind))
    } else {
        put_entry(entries.drop_last(), name, kind).push(entries.last())
    }
}

/// The entries of a directory.
pub open spec fn listing(files: Seq<FileView>, directory: Option<Seq<char>>) -> Seq<
    (Seq<char>, EntryKind),
>
    decreases files.len(),
{
    if files.len() == 0 {
        Seq::empty()
    } else {
        let before = listing(files.drop_last(), directory);
        match entry_spec(files.last().path, directory) {
            Some((name, kind)) => put_entry(before, name, kind),
            None => before,
        }
    }
}

/// What listing a directory gives.
pub open spec fn list_spec(files: Seq<FileView>, directory: Option<Seq<char>>) -> Result<
    Seq<(Seq<char>, EntryKind)>,
    crate::error::ErrorView,
> {
    match directory {
        None => Ok(listing(files, directory)),
        Some(path) => if file_at(files, path) is Some {
            Err(missing("fixture list target is not a directory"@))
        } else if !occupied(files, path) {
            Err(missing("fixture directory is missing"@))
        } else {
            Ok(listing(files, directory))
        },
    }
}

/// Whether entries stand in the order of their names, each name once.
pub open spec fn names_in_order(entries: Seq<(Seq<char>, EntryKind)>) -> bool {
    forall|i: int, j: int|
        0 <= i < j < entries.len() ==> text::less_spec(
            (#[trigger] entries[i]).0,
            (#[trigger] entries[j]).0,
        )
}

proof fn lemma_put_entry(
    entries: Seq<(Seq<char>, EntryKind)>,
    name: Seq<char>,
    kind: EntryKind,
)
    requires
        names_in_order(entries),
    ensures
        names_in_order(put_entry(entries, name, kind)),
        forall|e: (Seq<char>, EntryKind)| #[trigger]
            put_entry(entries, name, kind).contains(e) <==> e == (name, kind) || (e.0 != name
                && entries.contains(e)),
    decreases entries.len(),
{
    let after = put_entry(entries, name, kind);
    if entries.len() == 0 {
        assert(after[0] == (name, kind));
    } else {
        let shorter = entries.drop_last();
        let last = entries.last();
        assert(last == entries[entries.len() - 1]);
        assert forall|i: int, j: int| 0 <= i < j < shorter.len() implies text::less_spec(
            (#[trigger] shorter[i]).0,
            (#[trigger] shorter[j]).0,
        ) by {
            assert(entries[i] == shorter[i] && entries[j] == shorter[j]);
        }
        text::less_irreflexive(name);
        if last.0 == name {
            assert forall|i: int| 0 <= i < shorter.len() implies (#[trigger] entries[i]).0
                != name by {}
            assert(after[shorter.len() as int] == (name, kind));
            assert forall|e: (Seq<char>, EntryKind)| #[trigger] after.contains(e) <==> e == (
                name,
                kind,
            ) || (e.0 != name && entries.contains(e)) by {
                if entries.contains(e) && e.0 != name {
                    let i = choose|i: int| 0 <= i < entries.len() && entries[i] == e;
                    assert(after[i] == e);
                }
                if after.contains(e) && e != (name, kind) {
                    let i = choose|i: int| 0 <= i < after.len() && after[i] == e;
                    assert(entries[i] == e);
                }
            }
        } else if text::less_spec(last.0, name) {
            assert forall|i: int| 0 <= i < entries.len() implies text::less_spec(
                (#[trigger] entries[i]).0,
                name,
            ) by {
                if i < shorter.len() {
                    text::less_transitive(entries[i].0, last.0, name);
                }
            }
            assert(after[entries.len() as int] == (name, kind));
            assert forall|e: (Seq<char>, EntryKind)| #[trigger] after.contains(e) <==> e == (
                name,
                kind,
            ) || (e.0 != name && entries.contains(e)) by {
                if entries.contains(e) {
                    let i = choose|i: int| 0 <= i < entries.len() && entries[i] == e;
                    assert(after[i] == e);
                }
                if after.contains(e) && e != (name, kind) {
                    let i = choose|i: int| 0 <= i < after.len() && after[i] == e;
                    assert(entries[i] == e);
                }
            }
        } else {
            text::less_total(last.0, name);
            lemma_put_entry(shorter, name, kind);
            let put = put_entry(shorter, name, kind);
            assert forall|i: int| 0 <= i < put.len() implies text::less_spec(
                (#[trigger] put[i]).0,
                last.0,
            ) by {
                assert(put.contains(put[i]));
                if put[i] != (name, kind) {
                    let k = choose|k: int| 0 <= k < shorter.len() && shorter[k] == put[i];
                    assert(entries[k] == put[i]);
                }
            }
            assert forall|i: int, j: int| 0 <= i < j < after.len() implies text::less_spec(
                (#[trigger] after[i]).0,
                (#[trigger] after[j]).0,
            ) by {
                assert(after[i] == put[i]);
                if j < put.len() {
                    assert(after[j] == put[j]);
                }
            }
            assert forall|e: (Seq<char>, EntryKind)| #[trigger] after.contains(e) <==> e == (
                name,
                kind,
            ) || (e.0 != name && entries.contains(e)) by {
                if put.contains(e) {
                    let i = choose|i: int| 0 <= i < put.len() && put[i] == e;
                    assert(after[i] == e);
                }
                if e == last {
                    assert(after[put.len() as int] == e);
                }
                if entries.contains(e) {
                    let i = choose|i: int| 0 <= i < entries.len() && entries[i] == e;
                    if i < shorter.len() {
                        assert(shorter[i] == e);
                    }
                }
                if shorter.contains(e) {
                    let i = choose|i: int| 0 <= i < shorter.len() && shorter[i] == e;
                    assert(entries[i] == e);
                }
                if after.contains(e) {
                    let i = choose|i: int| 0 <= i < after.len() && after[i] == e;
                    if i < put.len() {
                        assert(put[i] == e);
                    } else {
                        assert(e == last);
                    }
                }
            }
        }
    }
}

/// Whether some file stands for an entry of a directory.
pub open spec fn stands_for(
    files: Seq<FileView>,
    directory: Option<Seq<char>>,
    entry: (Seq<char>, EntryKind),
) -> bool {
    exists|i: int|
        0 <= i < files.len() && entry_spec((#[trigger] files[i]).path, directory) == Some(entry)
}

proof fn lemma_file_before_directory(
    file: Seq<char>,
    inner: Seq<char>,
    directory: Option<Seq<char>>,
    name: Seq<char>,
)
    requires
        entry_spec(file, directory) == Some((name, EntryKind::File)),
        entry_spec(inner, directory) == Some((name, EntryKind::Directory)),
    ensures
        text::less_spec(file, inner),
{
    let rest = inside(inner, directory)->0;
    text::lemma_find_first(rest, '/');
    text::lemma_find_first(inside(file, directory)->0, '/');
    match directory {
        None => {
            assert(inner.take(file.len() as int) =~= file);
        },
        Some(d) => {
            let n = d.len() as int + 1;
            assert(file.skip(n) == name);
            assert(file.take(n) == d.push('/'));
            assert(inner.take(n) == d.push('/'));
            assert(inner.skip(n).take(name.len() as int) == name);
            assert(inner.take(file.len() as int) =~= file) by {
                assert forall|i: int| 0 <= i < file.len() implies inner[i] == file[i] by {
                    if i < n {
                        assert(inner.take(n)[i] == file.take(n)[i]);
                    } else {
                        assert(inner.skip(n).take(name.len() as int)[i - n] == file.skip(n)[i - n]);
                    }
                }
            }
        },
    }
    text::prefix_is_less(file, inner);
}

/// A listing names everything that is in a directory, once and in order. A name with
/// something below it is a directory, whatever else it is.
pub proof fn listings_are_complete(files: Seq<FileView>, directory: Option<Seq<char>>)
    requires
        in_order(files),
    ensures
        names_in_order(listing(files, directory)),
        forall|name: Seq<char>| #[trigger]
            listing(files, directory).contains((name, EntryKind::Directory)) <==> stands_for(
                files,
                directory,
                (name, EntryKind::Directory),
            ),
        forall|name: Seq<char>| #[trigger]
            listing(files, directory).contains((name, EntryKind::File)) <==> stands_for(
                files,
                directory,
                (name, EntryKind::File),
            ) && !stands_for(files, directory, (name, EntryKind::Directory)),
        forall|e: (Seq<char>, EntryKind)| #[trigger]
            listing(files, directory).contains(e) ==> e.1 == EntryKind::Directory || e.1
                == EntryKind::File,
    decreases files.len(),
{
    let after = listing(files, directory);
    if files.len() > 0 {
        let shorter = files.drop_last();
        let last = files.last();
        assert(last == files[files.len() - 1]);
        assert forall|i: int, j: int| 0 <= i < j < shorter.len() implies text::less_spec(
            (#[trigger] shorter[i]).path,
            (#[trigger] shorter[j]).path,
        ) by {
            assert(files[i] == shorter[i] && files[j] == shorter[j]);
        }
        listings_are_complete(shorter, directory);
        let before = listing(shorter, directory);
        let new = entry_spec(last.path, directory);
        assert forall|e: (Seq<char>, EntryKind)|
            stands_for(files, directory, e) <==> #[trigger] stands_for(shorter, directory, e) || new
                == Some(e) by {
            if stands_for(files, directory, e) {
                let i = choose|i: int|
                    0 <= i < files.len() && entry_spec((#[trigger] files[i]).path, directory)
                        == Some(e);
                if i < shorter.len() {
                    assert(shorter[i] == files[i]);
                }
            }
            if stands_for(shorter, directory, e) {
                let i = choose|i: int|
                    0 <= i < shorter.len() && entry_spec((#[trigger] shorter[i]).path, directory)
                        == Some(e);
                assert(files[i] == shorter[i]);
            }
        }
        if new is Some {
            let (name, kind) = new->0;
            lemma_put_entry(before, name, kind);
            if kind == EntryKind::File {
                if stands_for(shorter, directory, (name, EntryKind::Directory)) {
                    let i = choose|i: int|
                        0 <= i < shorter.len() && entry_spec(
                            (#[trigger] shorter[i]).path,
                            directory,
                        ) == Some((name, EntryKind::Directory));
                    assert(files[i] == shorter[i]);
                    lemma_file_before_directory(last.path, files[i].path, directory, name);
                    text::less_transitive(last.path, files[i].path, last.path);
                    text::less_irreflexive(last.path);
                }
            }
        }
        assert forall|name: Seq<char>| #[trigger]
            after.contains((name, EntryKind::Directory)) <==> stands_for(
                files,
                directory,
                (name, EntryKind::Directory),
            ) by {
            assert(before.contains((name, EntryKind::Directory)) <==> stands_for(
                shorter,
                directory,
                (name, EntryKind::Directory),
            ));
        }
        assert forall|name: Seq<char>| #[trigger]
            after.contains((name, EntryKind::File)) <==> stands_for(
                files,
                directory,
                (name, EntryKind::File),
            ) && !stands_for(files, directory, (name, EntryKind::Directory)) by {
            assert(before.contains((name, EntryKind::File)) <==> stands_for(
                shorter,
                directory,
                (name, EntryKind::File),
            ) && !stands_for(shorter, directory, (name, EntryKind::Directory)));
            assert(stands_for(shorter, directory, (name, EntryKind::Directory)) || true);
        }
        assert forall|e: (Seq<char>, EntryKind)| #[trigger] after.contains(e) implies e.1
            == EntryKind::Directory || e.1 == EntryKind::File by {
            if before.contains(e) {
            }
        }
    }
}

fn missing_error(message: &str) -> (r: SysboostError)
    ensures
        r@ == missing(message@),
{
    SysboostError::new(ErrorCode::TargetError, message)
}

fn insert_file(files: &mut Vec<FixtureFile>, file: FixtureFile)
    ensures
        final(files)@.map_values(|file: FixtureFile| file@) == put_file(
            old(files)@.map_values(|file: FixtureFile| file@),
            file@,
        ),
    decreases old(files)@.len(),
{
    let ghost before = files@.map_values(|file: FixtureFile| file@);
    match files.pop() {
        None => {
            files.push(file);
            assert(files@.map_values(|file: FixtureFile| file@) =~= seq![file@]);
        },
        Some(last) => {
            assert(files@.map_values(|file: FixtureFile| file@) =~= before.drop_last());
            if last.path.same(&file.path) {
                files.push(file);
                assert(files@.map_values(|file: FixtureFile| file@) =~= before.drop_last().push(
                    file@,
                ));
            } else if text::less(last.path.as_str(), file.path.as_str()) {
                files.push(last);
                files.push(file);
                assert(files@.map_values(|file: FixtureFile| file@) =~= before.push(file@));
            } else {
                insert_file(files, file);
                let ghost middle = files@.map_values(|file: FixtureFile| file@);
                files.push(last);
                assert(files@.map_values(|file: FixtureFile| file@) =~= middle.push(last@));
            }
        },
    }
}

fn insert_entry(entries: &mut Vec<DirectoryEntry>, name: String, kind: EntryKind)
    ensures
        crate::filesystem::entries_view(final(entries)@) == put_entry(
            crate::filesystem::entries_view(old(entries)@),
            name@,
            kind,
        ),
    decreases old(entries)@.len(),
{
    let ghost before = crate::filesystem::entries_view(entries@);
    match entries.pop() {
        None => {
            entries.push(DirectoryEntry { name, kind });
            assert(crate::filesystem::entries_view(entries@) =~= seq![(name@, kind)]);
        },
        Some(last) => {
            assert(crate::filesystem::entries_view(entries@) =~= before.drop_last());
            if text::same(last.name.as_str(), name.as_str()) {
                entries.push(DirectoryEntry { name, kind });
                assert(crate::filesystem::entries_view(entries@) =~= before.drop_last().push(
                    (name@, kind),
                ));
            } else if text::less(last.name.as_str(), name.as_str()) {
                entries.push(last);
                entries.push(DirectoryEntry { name, kind });
                assert(crate::filesystem::entries_view(entries@) =~= before.push((name@, kind)));
            } else {
                insert_entry(entries, name, kind);
                let ghost middle = crate::filesystem::entries_view(entries@);
                entries.push(last);
                assert(crate::filesystem::entries_view(entries@) =~= middle.push(
                    (last.name@, last.kind),
                ));
            }
        },
    }
}

fn is_below(path: &str, directory: &str) -> (r: bool)
    ensures
        r == below(path@, directory@),
{
    let p = text::chars_of(path);
    let mut d = text::chars_of(directory);
    d.push('/');
    text::starts_with(p.as_slice(), d.as_slice())
}

fn path_inside(path: &str, directory: Option<&str>) -> (r: Option<Vec<char>>)
    ensures
        match r {
            Some(rest) => inside(
                path@,
                match directory {
                    Some(d) => Some(d@),
                    None => None,
                },
            ) == Some(rest@),
            None => inside(
                path@,
                match directory {
                    Some(d) => Some(d@),
                    None => None,
                },
            ) is None,
        },
{
    match directory {
        None => Some(text::chars_of(path)),
        Some(directory) => {
            if text::same(path, directory) || !is_below(path, directory) {
                return None;
            }
            let all = text::chars_of(path);
            let d = text::chars_of(directory);
            assert(directory@.push('/').len() <= all@.len());
            assert(d.len() < all.len());
            let rest = vstd::slice::slice_subrange(all.as_slice(), d.len() + 1, all.len());
            assert(rest@ =~= path@.skip(d@.len() as int + 1));
            Some(vstd::slice::slice_to_vec(rest))
        },
    }
}

fn entry_of(path: &str, directory: Option<&str>) -> (r: Option<(String, EntryKind)>)
    ensures
        match r {
            Some((name, kind)) => entry_spec(
                path@,
                match directory {
                    Some(d) => Some(d@),
                    None => None,
                },
            ) == Some((name@, kind)),
            None => entry_spec(
                path@,
                match directory {
                    Some(d) => Some(d@),
                    None => None,
                },
            ) is None,
        },
{
    match path_inside(path, directory) {
        None => None,
        Some(rest) => {
            let slash: usize = text::find(rest.as_slice(), '/');
            if slash == rest.len() {
                Some((text::string_of(rest.as_slice()), EntryKind::File))
            } else if slash > 0 && slash + 1 < rest.len() {
                let name = vstd::slice::slice_subrange(rest.as_slice(), 0, slash);
                assert(name@ =~= rest@.take(slash as int));
                Some((text::string_of(name), EntryKind::Directory))
            } else {
                None
            }
        },
    }
}

/// The identity of a node in memory: a digest of its path.
pub fn fixture_target_identity(path: &RelativePath) -> (r: TargetIdentity)
    ensures
        r.bytes@ == bytes::identity_spec(vstd::utf8::encode_utf8(path@)),
{
    TargetIdentity { bytes: bytes::identity_digest(path.as_str().as_bytes()) }
}

impl FixtureFilesystem {
    /// An empty tree.
    pub fn new() -> (r: FixtureFilesystem)
        ensures
            r@ == Seq::<FileView>::empty(),
    {
        let files: Vec<FixtureFile> = Vec::new();
        let r = FixtureFilesystem { files };
        assert(r@ =~= Seq::<FileView>::empty());
        r
    }

    /// Puts a file, or replaces it.
    pub fn set_fixture_value(&mut self, path: RelativePath, bytes: Vec<u8>, read_only: bool)
        ensures
            final(self)@ == put_file(old(self)@, FileView { path: path@, bytes: bytes@, read_only }),
            in_order(final(self)@),
            final(self)@.len() == old(self)@.len() + if file_at(old(self)@, path@) is Some {
                0nat
            } else {
                1nat
            },
    {
        proof {
            use_type_invariant(&*self);
        }
        let mut files: Vec<FixtureFile> = Vec::new();
        std::mem::swap(&mut files, &mut self.files);
        let file = FixtureFile { path, bytes, read_only };
        proof {
            putting_keeps_order(old(self)@, file@);
        }
        insert_file(&mut files, file);
        self.files = files;
    }

    /// How many files there are.
    pub fn len(&self) -> (r: usize)
        ensures
            r == self@.len(),
            in_order(self@),
    {
        proof {
            use_type_invariant(self);
        }
        self.files.len()
    }

    pub fn is_empty(&self) -> (r: bool)
        ensures
            r == (self@.len() == 0),
    {
        self.files.len() == 0
    }

    fn find(&self, path: &RelativePath) -> (r: Option<&FixtureFile>)
        ensures
            match r {
                Some(file) => file_at(self@, path@) == Some(file@),
                None => file_at(self@, path@) is None,
            },
    {
        let ghost all = self@;
        let mut k: usize = self.files.len();
        assert(all.take(k as int) =~= all);
        while k > 0
            invariant
                k <= self.files.len(),
                all == self@,
                file_at(all, path@) == file_at(all.take(k as int), path@),
            decreases k,
        {
            assert(all.take(k as int).drop_last() =~= all.take(k - 1));
            assert(all[k - 1] == self.files@[k - 1]@);
            if self.files[k - 1].path.same(path) {
                return Some(&self.files[k - 1]);
            }
            k = k - 1;
        }
        None
    }

    fn holds(&self, path: &str) -> (r: bool)
        ensures
            r == occupied(self@, path@),
    {
        let ghost all = self@;
        let mut i: usize = 0;
        while i < self.files.len()
            invariant
                i <= self.files.len(),
                all == self@,
                forall|j: int|
                    0 <= j < i ==> !((#[trigger] all[j]).path == path@ || below(
                        all[j].path,
                        path@,
                    )),
            decreases self.files.len() - i,
        {
            let here = self.files[i].path.as_str();
            assert(all[i as int] == self.files@[i as int]@);
            if text::same(here, path) || is_below(here, path) {
                assert(all[i as int].path == path@ || below(all[i as int].path, path@));
                return true;
            }
            i = i + 1;
        }
        false
    }
}

impl Clone for FixtureFilesystem {
    fn clone(&self) -> (r: FixtureFilesystem)
        ensures
            r@ == self@,
    {
        let mut files: Vec<FixtureFile> = Vec::new();
        let mut i: usize = 0;
        while i < self.files.len()
            invariant
                i <= self.files.len(),
                files@.len() == i,
                forall|j: int| 0 <= j < i ==> (#[trigger] files@[j])@ == self.files@[j]@,
            decreases self.files.len() - i,
        {
            let bytes = self.files[i].bytes.clone();
            assert(bytes@ =~= self.files@[i as int].bytes@);
            files.push(
                FixtureFile {
                    path: self.files[i].path.clone(),
                    bytes,
                    read_only: self.files[i].read_only,
                },
            );
            i = i + 1;
        }
        proof {
            use_type_invariant(self);
            assert(files@.map_values(|file: FixtureFile| file@) =~= self@);
        }
        FixtureFilesystem { files }
    }
}

impl Default for FixtureFilesystem {
    fn default() -> (r: FixtureFilesystem)
        ensures
            r@ == Seq::<FileView>::empty(),
    {
        FixtureFilesystem::new()
    }
}

impl ReadOnlyFileSystem for FixtureFilesystem {
    open spec fn settled(&self) -> bool {
        true
    }

    open spec fn file(&self, path: Seq<char>) -> Result<Seq<u8>, crate::error::ErrorView> {
        match file_at(self@, path) {
            Some(file) => Ok(file.bytes),
            None => Err(missing("fixture node is missing"@)),
        }
    }

    open spec fn directory(&self, path: Option<Seq<char>>) -> Result<
        Seq<(Seq<char>, EntryKind)>,
        crate::error::ErrorView,
    > {
        list_spec(self@, path)
    }

    fn read(&self, path: &RelativePath) -> (r: Result<Vec<u8>, SysboostError>) {
        match self.find(path) {
            Some(file) => {
                let bytes = file.bytes.clone();
                assert(bytes@ =~= file.bytes@);
                Ok(bytes)
            },
            None => Err(missing_error("fixture node is missing")),
        }
    }

    fn metadata(&self, path: &RelativePath) -> (r: Result<FileMetadata, SysboostError>)
        ensures
            match r {
                Ok(metadata) => file_at(self@, path@) is Some && metadata.len == file_at(
                    self@,
                    path@,
                )->0.bytes.len() && metadata.read_only == file_at(self@, path@)->0.read_only,
                Err(e) => file_at(self@, path@) is None && e@ == missing(
                    "fixture node is missing"@,
                ),
            },
    {
        match self.find(path) {
            Some(file) => Ok(
                FileMetadata { len: file.bytes.len() as u64, read_only: file.read_only },
            ),
            None => Err(missing_error("fixture node is missing")),
        }
    }

    fn identity(&self, path: &RelativePath) -> (r: Result<TargetIdentity, SysboostError>)
        ensures
            match r {
                Ok(identity) => occupied(self@, path@) && identity.bytes@ == bytes::identity_spec(
                    vstd::utf8::encode_utf8(path@),
                ),
                Err(e) => !occupied(self@, path@) && e@ == missing(
                    "fixture identity target is missing"@,
                ),
            },
    {
        if self.holds(path.as_str()) {
            Ok(fixture_target_identity(path))
        } else {
            Err(missing_error("fixture identity target is missing"))
        }
    }

    fn list(&self, path: Option<&RelativePath>) -> (r: Result<Vec<DirectoryEntry>, SysboostError>)
        ensures
            in_order(self@),
    {
        proof {
            use_type_invariant(self);
        }
        let directory = match path {
            Some(path) => {
                if self.find(path).is_some() {
                    return Err(missing_error("fixture list target is not a directory"));
                }
                if !self.holds(path.as_str()) {
                    return Err(missing_error("fixture directory is missing"));
                }
                Some(path.as_str())
            },
            None => None,
        };
        let ghost all = self@;
        let ghost where_to = crate::filesystem::path_view(path);
        let mut entries: Vec<DirectoryEntry> = Vec::new();
        assert(crate::filesystem::entries_view(entries@) =~= listing(all.take(0), where_to));
        for i in 0..self.files.len()
            invariant
                all == self@,
                where_to == match directory {
                    Some(d) => Some(d@),
                    None => None,
                },
                crate::filesystem::entries_view(entries@) == listing(
                    all.take(i as int),
                    where_to,
                ),
        {
            assert(all.take(i + 1).drop_last() =~= all.take(i as int));
            assert(all[i as int] == self.files@[i as int]@);
            match entry_of(self.files[i].path.as_str(), directory) {
                Some((name, kind)) => {
                    insert_entry(&mut entries, name, kind);
                },
                None => {},
            }
        }
        assert(all.take(all.len() as int) =~= all);
        Ok(entries)
    }
}

} // verus!
