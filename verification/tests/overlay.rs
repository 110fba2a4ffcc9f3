use orchid_ls::document::{FileUri, VPath};
use orchid_ls::patch::{PatchFile, PatchStore};
use orchid_ls::vfs::{find_all_projects, FsNode, Loaded, PatchFS};

fn uri(s: &str) -> FileUri {
    FileUri::parse(s).unwrap()
}

fn pf(u: &str, text: &str, version: u64) -> PatchFile {
    PatchFile { uri: uri(u), text: text.to_string(), version }
}

fn text_of(store: &PatchStore, u: &str) -> Option<String> {
    store.index_of(&uri(u)).map(|i| store.patch_at(i).text.clone())
}

#[test]
fn patch_inserts_and_overwrites() {
    let mut store = PatchStore::new(uri("file:///w")).unpack();
    store.patch(pf("file:///w/a.orc", "one", 1));
    assert_eq!(text_of(&store, "file:///w/a.orc").unwrap(), "one");
    store.patch(pf("file:///w/a.orc", "two", 2));
    assert_eq!(text_of(&store, "file:///w/a.orc").unwrap(), "two");
    // equal versions overwrite too
    store.patch(pf("file:///w/a.orc", "three", 2));
    assert_eq!(text_of(&store, "file:///w/a.orc").unwrap(), "three");
}

#[test]
fn version_regression_ignored() {
    let mut store = PatchStore::new(uri("file:///w")).unpack();
    store.patch(pf("file:///w/a.orc", "newer", 4));
    store.patch(pf("file:///w/a.orc", "older", 3));
    let i = store.index_of(&uri("file:///w/a.orc")).unwrap();
    assert_eq!(store.patch_at(i).text, "newer");
    assert_eq!(store.patch_at(i).version, 4);
}

#[test]
fn unpatch_then_patch_is_fresh() {
    let mut store = PatchStore::new(uri("file:///w")).unpack();
    store.patch(pf("file:///w/a.orc", "v9", 9));
    store.unpatch(&uri("file:///w/a.orc"));
    assert!(store.index_of(&uri("file:///w/a.orc")).is_none());
    // after removal even an older version lands, as on an empty store
    store.patch(pf("file:///w/a.orc", "v1", 1));
    let i = store.index_of(&uri("file:///w/a.orc")).unwrap();
    assert_eq!(store.patch_at(i).text, "v1");
    assert_eq!(store.patch_at(i).version, 1);
}

#[test]
fn overlay_lookup_is_decoded() {
    let mut store = PatchStore::new(uri("file:///w")).unpack();
    store.patch(pf("file:///w/caf%C3%A9.orc", "x", 1));
    assert!(store.index_of(&uri("file:///w/caf\u{e9}.orc")).is_some());
}

fn sample_disk() -> FsNode {
    FsNode::Dir(vec![
        ("lone".to_string(), FsNode::File("lone file".to_string())),
        (
            "pkg".to_string(),
            FsNode::Dir(vec![
                ("project_info".to_string(), FsNode::File("meta".to_string())),
                ("inner".to_string(), FsNode::File("inner file".to_string())),
            ]),
        ),
        (
            "plain".to_string(),
            FsNode::Dir(vec![("sub".to_string(), FsNode::File("sub file".to_string()))]),
        ),
    ])
}

fn vp(segs: &[&str]) -> VPath {
    VPath::new(segs.iter().map(|s| s.to_string()).collect())
}

#[test]
fn vfs_overlay_shadows_disk() {
    let store = PatchStore::new(uri("file:///w"));
    let mut inner = store.unpack();
    inner.patch(pf("file:///w/lone", "patched!", 1));
    let fs = PatchFS::new(std::sync::Arc::new(inner), sample_disk());
    match fs.get(&vp(&["lone"])) {
        Some(Loaded::Code(t)) => assert_eq!(t, "patched!"),
        _ => panic!("expected patched code"),
    }
    // unpatched paths fall through to disk
    match fs.get(&vp(&["plain", "sub"])) {
        Some(Loaded::Code(t)) => assert_eq!(t, "sub file"),
        _ => panic!("expected disk code"),
    }
    match fs.get(&vp(&["pkg"])) {
        Some(Loaded::Collection(names)) => {
            assert_eq!(names, vec!["project_info".to_string(), "inner".to_string()]);
        },
        _ => panic!("expected a directory"),
    }
    assert!(fs.get(&vp(&["missing"])).is_none());
}

#[test]
fn project_discovery() {
    let store = PatchStore::new(uri("file:///w"));
    let fs = PatchFS::new(store, sample_disk());
    let found = find_all_projects(&VPath::empty(), &fs);
    let mut names: Vec<String> = found
        .iter()
        .map(|p| {
            let mut s = String::new();
            for i in 0..p.0.len() {
                if i > 0 {
                    s.push('/');
                }
                s.push_str(&p.0[i]);
            }
            s
        })
        .collect();
    names.sort();
    // a file leaf is a project; a folder with project_info is a project whose
    // interior is not searched; a plain folder is searched through
    assert_eq!(names, vec!["lone".to_string(), "pkg".to_string(), "plain/sub".to_string()]);
}

#[test]
fn scoped_vfs() {
    let store = PatchStore::new(uri("file:///w"));
    let scoped = store.mk_vfs(sample_disk(), &uri("file:///w/plain")).unwrap();
    match scoped.get(&vp(&["sub"])) {
        Some(Loaded::Code(t)) => assert_eq!(t, "sub file"),
        _ => panic!("expected the scoped file"),
    }
    let store2 = PatchStore::new(uri("file:///w"));
    assert!(store2.mk_vfs(sample_disk(), &uri("file:///elsewhere")).is_none());
}
