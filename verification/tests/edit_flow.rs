use orchid_ls::document::{FileUri, VPath, WspaceEnt};
use orchid_ls::expr::{tokens, AtomKind, Clause, ExprNode};
use orchid_ls::jrpc::JrpcServer;
use orchid_ls::patch::{PatchFile, PatchStore};
use orchid_ls::pipeline::{
    begin_update, did_close, should_process_open, token_records, try_publish, BeginOutcome,
    CloseOutcome, PublishDecision,
};
use orchid_ls::registry::{CtxProj, CtxWsp, WorkspaceCtx};
use orchid_ls::tokens::{ttypes, TokenType};
use orchid_ls::vfs::{FsNode, Loaded, PatchFS};

fn uri(s: &str) -> FileUri {
    FileUri::parse(s).unwrap()
}

fn vp(segs: &[&str]) -> VPath {
    VPath::new(segs.iter().map(|s| s.to_string()).collect())
}

fn one_workspace() -> WorkspaceCtx {
    let ent = WspaceEnt { name: "main".to_string(), uri: uri("file:///w") };
    let disk = FsNode::Dir(vec![("p".to_string(), FsNode::File("disk text".to_string()))]);
    WorkspaceCtx::new(vec![(ent, disk)])
}

fn name(n: &str, start: usize, end: usize) -> ExprNode {
    ExprNode { clause: Clause::Name(vec![n.to_string()]), start, end, in_file: true }
}

/// The fake analysis backend: `foo bar` parses to two free names.
fn foo_bar_tree() -> ExprNode {
    ExprNode {
        clause: Clause::S(vec![name("foo", 0, 3), name("bar", 4, 7)]),
        start: 0,
        end: 7,
        in_file: true,
    }
}

#[test]
fn did_open_happy_path() {
    // open file:///w/p.orc with text `foo bar`: the update is scheduled, the
    // worker reads the patched text through the snapshot, classifies at least
    // one `function` token, and its publication is accepted
    let mut ctx = one_workspace();
    assert!(should_process_open("orchid"));
    assert!(!should_process_open("rust"));
    let doc = uri("file:///w/p.orc");
    let patch = PatchFile { uri: doc.clone(), text: "foo bar".to_string(), version: 1 };
    let plan = match begin_update(&mut ctx, patch) {
        BeginOutcome::Started(plan) => plan,
        _ => panic!("the update must be scheduled"),
    };
    assert!(!plan.abort.aborted());
    assert_eq!(plan.changes.len(), 1);
    // the worker's snapshot sees the unsaved buffer
    let disk = FsNode::Dir(vec![("p".to_string(), FsNode::File("disk text".to_string()))]);
    let fs = PatchFS::new(std::sync::Arc::clone(&plan.store), disk);
    let src = match fs.get(&vp(&["p"])) {
        Some(Loaded::Code(t)) => t,
        _ => panic!("the snapshot must hold the patched file"),
    };
    assert_eq!(src, "foo bar");
    // fake backend: parse and expansion yield the same two free names
    let toks = tokens(&foo_bar_tree(), Some(&foo_bar_tree()));
    assert!(toks.iter().any(|t| t.typ() == TokenType::Function));
    let recs = token_records(toks, &src);
    let legend = ttypes();
    assert_eq!(legend[3], "function");
    assert!(recs.iter().any(|r| r.3 == Some(3)));
    assert!(matches!(try_publish(&mut ctx, &doc, plan.epoch), PublishDecision::Publish));
}

#[test]
fn rapid_edits_collapse() {
    // three quick edits: only the last worker may publish, and the overlay
    // holds the last text
    let mut ctx = one_workspace();
    let doc = uri("file:///w/p.orc");
    let mut plans = Vec::new();
    for v in 2..5u64 {
        let patch = PatchFile { uri: doc.clone(), text: format!("text v{}", v), version: v };
        match begin_update(&mut ctx, patch) {
            BeginOutcome::Started(plan) => plans.push(plan),
            _ => panic!("the update must be scheduled"),
        }
    }
    // each newer edit signalled its predecessor's token
    assert!(plans[0].abort.aborted());
    assert!(plans[1].abort.aborted());
    assert!(!plans[2].abort.aborted());
    // the superseded workers are refused; the newest publishes
    assert!(matches!(try_publish(&mut ctx, &doc, plans[0].epoch), PublishDecision::Superseded));
    assert!(matches!(try_publish(&mut ctx, &doc, plans[1].epoch), PublishDecision::Superseded));
    assert!(matches!(try_publish(&mut ctx, &doc, plans[2].epoch), PublishDecision::Publish));
    // and after publishing, its own epoch is still current
    let i = plans[2].store.index_of(&doc).unwrap();
    assert_eq!(plans[2].store.patch_at(i).text, "text v4");
}

#[test]
fn version_regression_through_pipeline() {
    // with version 4 in the overlay, an edit stamped 3 does not change the
    // stored text, as a later snapshot shows
    let mut ctx = one_workspace();
    let doc = uri("file:///w/p.orc");
    let p4 = PatchFile { uri: doc.clone(), text: "four".to_string(), version: 4 };
    assert!(matches!(begin_update(&mut ctx, p4), BeginOutcome::Started(_)));
    let p3 = PatchFile { uri: doc.clone(), text: "three".to_string(), version: 3 };
    let plan = match begin_update(&mut ctx, p3) {
        BeginOutcome::Started(plan) => plan,
        _ => panic!("the update must be scheduled"),
    };
    let i = plan.store.index_of(&doc).unwrap();
    assert_eq!(plan.store.patch_at(i).text, "four");
    assert_eq!(plan.store.patch_at(i).version, 4);
}

#[test]
fn did_close_clears_overlay() {
    // after closing, a fresh read observes disk content again
    let mut ctx = one_workspace();
    let doc = uri("file:///w/p.orc");
    let patch = PatchFile { uri: doc.clone(), text: "unsaved".to_string(), version: 1 };
    assert!(matches!(begin_update(&mut ctx, patch), BeginOutcome::Started(_)));
    assert!(matches!(did_close(&mut ctx, &doc), CloseOutcome::Closed(_)));
    let disk = FsNode::Dir(vec![("p".to_string(), FsNode::File("disk text".to_string()))]);
    let fs = PatchFS::new(std::sync::Arc::clone(&ctx.0[0].store), disk);
    match fs.get(&vp(&["p"])) {
        Some(Loaded::Code(t)) => assert_eq!(t, "disk text"),
        _ => panic!("expected disk content"),
    }
    // closing again is a protocol violation the caller surfaces
    assert!(matches!(did_close(&mut ctx, &doc), CloseOutcome::NotPatched));
}

#[test]
fn unknown_uri_has_no_workspace() {
    let mut ctx = one_workspace();
    let patch =
        PatchFile { uri: uri("file:///elsewhere/x.orc"), text: String::new(), version: 1 };
    assert!(matches!(begin_update(&mut ctx, patch), BeginOutcome::NoWorkspace));
}

#[test]
fn longest_prefix_lookup() {
    // with workspaces at /a and /a/b, a document in /a/b resolves to /a/b
    let outer = WspaceEnt { name: "outer".to_string(), uri: uri("file:///a") };
    let inner = WspaceEnt { name: "inner".to_string(), uri: uri("file:///a/b") };
    let d1 = FsNode::Dir(vec![("b".to_string(), FsNode::Dir(vec![]))]);
    let d2 = FsNode::Dir(vec![("x".to_string(), FsNode::File(String::new()))]);
    let ctx = WorkspaceCtx::new(vec![(outer, d1), (inner, d2)]);
    let (rest, w) = ctx.get_wsp(&uri("file:///a/b/x.orc")).unwrap();
    assert_eq!(w, 1);
    assert_eq!(rest.len(), 1);
    // ties break towards the earlier workspace
    let twin = WspaceEnt { name: "twin".to_string(), uri: uri("file:///a") };
    let d3 = FsNode::Dir(vec![]);
    let ctx2 = WorkspaceCtx::new(vec![
        (WspaceEnt { name: "first".to_string(), uri: uri("file:///a") }, FsNode::Dir(vec![])),
        (twin, d3),
    ]);
    let (_, w2) = ctx2.get_wsp(&uri("file:///a/x.orc")).unwrap();
    assert_eq!(w2, 0);
}

#[test]
fn classification_rules() {
    // \x.x y  — the parameter binds x; x is a variable, y a free function
    let lambda = ExprNode {
        clause: Clause::Lambda(
            vec![name("x", 1, 2)],
            vec![name("x", 3, 4), name("y", 5, 6)],
        ),
        start: 0,
        end: 6,
        in_file: true,
    };
    let toks = tokens(&lambda, Some(&lambda));
    let types: Vec<(usize, TokenType)> = toks.iter().map(|t| (t.start(), t.typ())).collect();
    assert!(types.contains(&(1, TokenType::Parameter)));
    assert!(types.contains(&(3, TokenType::Variable)));
    assert!(types.contains(&(5, TokenType::Function)));
    // atoms and leftover names of the source tree
    let parsed = ExprNode {
        clause: Clause::S(vec![
            ExprNode { clause: Clause::Atom(AtomKind::Num), start: 0, end: 1, in_file: true },
            ExprNode { clause: Clause::Atom(AtomKind::Truth), start: 2, end: 6, in_file: true },
            ExprNode { clause: Clause::Atom(AtomKind::Other), start: 7, end: 9, in_file: true },
            name("if", 10, 12),
            name("+", 13, 14),
        ]),
        start: 0,
        end: 14,
        in_file: true,
    };
    let empty = ExprNode { clause: Clause::Other, start: 0, end: 0, in_file: true };
    let toks2 = tokens(&parsed, Some(&empty));
    let types2: Vec<(usize, TokenType)> = toks2.iter().map(|t| (t.start(), t.typ())).collect();
    assert!(types2.contains(&(0, TokenType::Number)));
    assert!(types2.contains(&(2, TokenType::Keyword)));
    assert!(types2.contains(&(7, TokenType::Str)));
    assert!(types2.contains(&(10, TokenType::Keyword)));
    assert!(types2.contains(&(13, TokenType::Operator)));
    // a failed expansion yields no tokens
    assert!(tokens(&parsed, None).is_empty());
}

#[test]
fn handler_registration() {
    let mut srv = JrpcServer::new();
    orchid_ls::init::attach(&mut srv);
    orchid_ls::logging::attach(&mut srv);
    orchid_ls::pipeline::attach(&mut srv);
    let mut st = orchid_ls::jrpc::SessionState::new();
    let open = "textDocument/didOpen".to_string();
    assert!(matches!(
        srv.dispatch(&mut st, true, &open, None, None),
        orchid_ls::jrpc::Dispatch::Notify
    ));
    let init = "initialize".to_string();
    assert!(matches!(
        srv.dispatch(&mut st, true, &init, Some(1), None),
        orchid_ls::jrpc::Dispatch::RunSync { id: 1 }
    ));
}

#[test]
fn workspace_without_project() {
    // the workspace owns the document but no project was discovered for it:
    // the registry is inconsistent and the caller fails loudly
    let ent = WspaceEnt { name: "empty".to_string(), uri: uri("file:///w") };
    let ctx_src = WorkspaceCtx::new(vec![(ent, FsNode::Dir(vec![]))]);
    let mut ctx = ctx_src;
    let patch = PatchFile { uri: uri("file:///w/q/deep.orc"), text: String::new(), version: 1 };
    // note: patching file:///w/q/deep makes it a discovered project only at
    // construction time; this registry has no project owning q/deep
    assert!(matches!(begin_update(&mut ctx, patch), BeginOutcome::NoProject(_)));
}

#[test]
fn publish_for_unknown_project_is_gone() {
    let mut ctx = one_workspace();
    assert!(matches!(
        try_publish(&mut ctx, &uri("file:///elsewhere/x.orc"), 1),
        PublishDecision::Gone
    ));
    assert!(matches!(
        did_close(&mut ctx, &uri("file:///elsewhere/x.orc")),
        CloseOutcome::NoWorkspace
    ));
}

#[test]
fn empty_workspace_list() {
    let ctx = WorkspaceCtx::new(Vec::new());
    assert!(ctx.get_wsp(&uri("file:///w/p.orc")).is_none());
}

#[test]
fn range_deduplication() {
    // a lambda whose parameter range reappears as a bound body name keeps one
    // token for the range, and the later classification wins
    let lam = ExprNode {
        clause: Clause::Lambda(vec![name("x", 1, 2)], vec![name("x", 1, 2)]),
        start: 0,
        end: 2,
        in_file: true,
    };
    let toks = tokens(&lam, Some(&lam));
    assert_eq!(toks.len(), 1);
    assert_eq!(toks[0].typ(), TokenType::Variable);
    assert_eq!((toks[0].start(), toks[0].end()), (1, 2));
}

#[test]
fn project_longest_prefix() {
    // a path below two nested project roots belongs to the deeper root
    let wsp = CtxWsp {
        name: "w".to_string(),
        store: PatchStore::new(uri("file:///w")),
        projects: vec![CtxProj::new(vp(&["a"])), CtxProj::new(vp(&["a", "b"]))],
    };
    let (rest, i) = wsp.get_proj(&vp(&["a", "b", "x"])).unwrap();
    assert_eq!(i, 1);
    assert_eq!(rest.len(), 1);
    // ties go to the earlier project
    let wsp2 = CtxWsp {
        name: "w".to_string(),
        store: PatchStore::new(uri("file:///w")),
        projects: vec![CtxProj::new(vp(&["a"])), CtxProj::new(vp(&["a"]))],
    };
    let (_, i2) = wsp2.get_proj(&vp(&["a", "x"])).unwrap();
    assert_eq!(i2, 0);
}
