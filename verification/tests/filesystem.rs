use sysboost::filesystem::{
    unlisted, DirectoryEntry, EntryKind, FileMetadata, ReadOnlyFileSystem, RelativePath,
};
use sysboost::error::{ErrorCode, SysboostError};
use sysboost::fixture::FixtureFilesystem;
use sysboost::ids::{TargetId, TargetIdentity};
use sysboost::nodes::{
    CgroupAccess, CgroupFile, CgroupTarget, CgroupVersion, ProcfsAccess, ProcfsNode, SysfsAccess,
    SysfsNode,
};
use sysboost::value::{CgroupId, CpuPolicyId};

#[test]
fn relative_paths_reject_escape_forms() {
    assert!(RelativePath::new("sys/kernel").is_ok());
    assert!(RelativePath::new("/sys/kernel").is_err());
    assert!(RelativePath::new("sys/../proc").is_err());
    assert!(RelativePath::new("sys\\kernel").is_err());
    assert!(RelativePath::new("C:/outside").is_err());
    assert!(RelativePath::new("sys/ker\0nel").is_err());
}

#[test]
fn component_join_remains_relative() {
    let path = RelativePath::new("devices/system/cpu").expect("valid base");
    assert_eq!(
        path.join_component("policy0").unwrap().as_str(),
        "devices/system/cpu/policy0"
    );
    assert!(path.join_component("../policy0").is_err());
}

#[test]
fn rooted_path_contract_rejects_missing_fake_nodes() {
    let fixture = FixtureFilesystem::new();
    let missing = RelativePath::new("missing/node").expect("valid relative path");
    assert!(fixture.read(&missing).is_err());
}

#[test]
fn fixture_reads_values_without_host_io() {
    let path = RelativePath::new("sys/kernel/osrelease").expect("safe fixture path");
    let mut fixture = FixtureFilesystem::new();
    fixture.set_fixture_value(path.clone(), b"fixture-kernel\n".to_vec(), true);
    assert_eq!(fixture.read(&path).unwrap(), b"fixture-kernel\n");
    assert_eq!(fixture.metadata(&path).unwrap().len, 15);
}

#[test]
fn sysfs_procfs_and_cgroup_nodes_use_the_same_fake_root_contract() {
    let sysfs_node = SysfsNode::CpuPolicyGovernor(CpuPolicyId::new(0));
    let procfs_node = ProcfsNode::KernelVersion;
    let cgroup_target = CgroupTarget {
        identity: CgroupId::new(
            1,
            2,
            TargetId::new("service.main").expect("valid opaque handle"),
        ),
        relative_path: RelativePath::new("service.main").expect("valid relative path"),
        version: CgroupVersion::V2,
    };
    let cgroup_path = cgroup_target
        .file_path(CgroupFile::CpuWeight)
        .expect("valid cgroup node");

    let mut fixture = FixtureFilesystem::new();
    fixture.set_fixture_value(
        sysfs_node.relative_path().expect("valid sysfs node"),
        b"performance\n".to_vec(),
        true,
    );
    fixture.set_fixture_value(procfs_node.relative_path(), b"6.9-test\n".to_vec(), true);
    fixture.set_fixture_value(cgroup_path, b"100\n".to_vec(), false);

    let sysfs = SysfsAccess::new(fixture.clone());
    let procfs = ProcfsAccess::new(fixture.clone());
    let cgroup = CgroupAccess::new(fixture);
    assert_eq!(sysfs.read(sysfs_node).unwrap(), b"performance\n");
    assert_eq!(procfs.read(procfs_node).unwrap(), b"6.9-test\n");
    assert_eq!(
        cgroup.read(&cgroup_target, CgroupFile::CpuWeight).unwrap(),
        b"100\n"
    );
}

struct ClosedTree;

fn closed() -> SysboostError {
    SysboostError::new(ErrorCode::AuthorizationError, "closed")
}

impl ReadOnlyFileSystem for ClosedTree {
    fn read(&self, _path: &RelativePath) -> Result<Vec<u8>, SysboostError> {
        Err(closed())
    }

    fn metadata(&self, _path: &RelativePath) -> Result<FileMetadata, SysboostError> {
        Err(closed())
    }

    fn identity(&self, _path: &RelativePath) -> Result<TargetIdentity, SysboostError> {
        Err(closed())
    }

    fn list(&self, _path: Option<&RelativePath>) -> Result<Vec<DirectoryEntry>, SysboostError> {
        Err(closed())
    }
}

#[test]
fn typed_nodes_pass_failures_on() {
    let sysfs = SysfsAccess::new(ClosedTree);
    let error = sysfs
        .read(SysfsNode::CpuPolicyGovernor(CpuPolicyId::new(0)))
        .expect_err("a closed tree cannot be read");
    assert_eq!(error.code, ErrorCode::AuthorizationError);
}

#[test]
fn fixture_lists_directories_once_each() {
    let mut fixture = FixtureFilesystem::new();
    for path in ["class/drm/card1/uevent", "class/drm/card0/uevent", "class/drm/version"] {
        fixture.set_fixture_value(
            RelativePath::new(path).expect("valid path"),
            b"x".to_vec(),
            true,
        );
    }
    let path = RelativePath::new("class/drm").expect("valid path");
    let mut entries = fixture.list(Some(&path)).expect("directory is there");
    entries.sort_by(|a, b| a.name.cmp(&b.name));
    assert_eq!(
        entries,
        vec![
            DirectoryEntry { name: "card0".to_string(), kind: EntryKind::Directory },
            DirectoryEntry { name: "card1".to_string(), kind: EntryKind::Directory },
            DirectoryEntry { name: "version".to_string(), kind: EntryKind::File },
        ]
    );
}

#[test]
fn a_node_with_nodes_below_it_is_a_directory() {
    let mut fixture = FixtureFilesystem::new();
    for path in ["b", "a/x", "a", "c/y", "c/y/z"] {
        fixture.set_fixture_value(
            RelativePath::new(path).expect("valid path"),
            b"x".to_vec(),
            true,
        );
    }
    assert_eq!(fixture.len(), 5);
    let mut entries = fixture.list(None).expect("the root is there");
    entries.sort_by(|a, b| a.name.cmp(&b.name));
    assert_eq!(
        entries,
        vec![
            DirectoryEntry { name: "a".to_string(), kind: EntryKind::Directory },
            DirectoryEntry { name: "b".to_string(), kind: EntryKind::File },
            DirectoryEntry { name: "c".to_string(), kind: EntryKind::Directory },
        ]
    );
    let below = RelativePath::new("c").expect("valid path");
    assert_eq!(
        fixture.list(Some(&below)).expect("a directory"),
        vec![DirectoryEntry { name: "y".to_string(), kind: EntryKind::Directory }]
    );
}

#[test]
fn replacing_a_node_adds_none() {
    let mut fixture = FixtureFilesystem::new();
    assert!(fixture.is_empty());
    let path = RelativePath::new("kernel/version").expect("valid path");
    fixture.set_fixture_value(path.clone(), b"first".to_vec(), true);
    fixture.set_fixture_value(path.clone(), b"second".to_vec(), false);
    assert_eq!(fixture.len(), 1);
    assert_eq!(fixture.read(&path).expect("readable"), b"second");
}

struct BareTree;

impl ReadOnlyFileSystem for BareTree {
    fn read(&self, _path: &RelativePath) -> Result<Vec<u8>, SysboostError> {
        Ok(Vec::new())
    }

    fn metadata(&self, _path: &RelativePath) -> Result<FileMetadata, SysboostError> {
        Ok(FileMetadata { len: 0, read_only: true })
    }

    fn list(&self, _path: Option<&RelativePath>) -> Result<Vec<DirectoryEntry>, SysboostError> {
        unlisted()
    }
}

#[test]
fn bare_trees_prove_no_identity_and_list_nothing() {
    let path = RelativePath::new("class/drm").expect("valid path");
    let error = BareTree.identity(&path).expect_err("nothing is proved");
    assert_eq!(error.code, ErrorCode::Unsupported);
    assert_eq!(error.message, "filesystem adapter cannot prove node identity");
    let error = BareTree.list(Some(&path)).expect_err("nothing is listed");
    assert_eq!(error.code, ErrorCode::Unsupported);
    assert_eq!(
        error.message,
        "directory enumeration is unavailable for this filesystem port"
    );
}
