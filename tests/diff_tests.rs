use nix_diff::{
    parse_derivation_string, shared_references, Derivation, DerivationPath, DerivationDiff, DiffContext, DiffLine, DiffOrientation,
    EnvVarDiff, FileStore, OutputDetailDiff, OutputsDiff, TextDiff,
};

fn drv(text: &str) -> Derivation {
    parse_derivation_string(text).unwrap()
}

fn context(files1: FileStore, files2: FileStore) -> DiffContext {
    DiffContext::new(DiffOrientation::Line, 3, files1, files2)
}

fn is_identical(d: &DerivationDiff) -> bool {
    matches!(d.outputs, OutputsDiff::Identical)
        && d.platform.is_none()
        && d.builder.is_none()
        && d.args.is_none()
        && d.sources.is_none()
        && d.inputs.is_none()
        && d.env.is_none()
}

const BASE: &str = r#"Derive([("out","/s/o","","")],[("/s/dep.drv",["out"])],["/s/src"],"x86_64-linux","/bin/sh",["-c","make"],[("a","1"),("c","3")])"#;
const WITH_B: &str = r#"Derive([("out","/s/o","","")],[("/s/dep.drv",["out"])],["/s/src"],"x86_64-linux","/bin/sh",["-c","make"],[("a","1"),("b","2"),("c","3")])"#;

#[test]
fn diff_of_a_derivation_with_itself_is_identical() {
    let mut files = FileStore::new();
    files.insert(b"/s/src".to_vec(), b"source".to_vec());
    files.insert(b"/s/dep.drv".to_vec(), BASE.as_bytes().to_vec());
    let mut files2 = FileStore::new();
    files2.insert(b"/s/src".to_vec(), b"source".to_vec());
    files2.insert(b"/s/dep.drv".to_vec(), BASE.as_bytes().to_vec());
    let d = drv(BASE);
    let mut ctx = context(files, files2);
    let r = ctx.diff_derivations(b"/s/top.drv", b"/s/top.drv", &d, &d);
    assert!(is_identical(&r));
}

#[test]
fn added_variable_is_added_one_way_and_removed_the_other() {
    let a = drv(BASE);
    let b = drv(WITH_B);
    let mut ctx = context(FileStore::new(), FileStore::new());
    let r = ctx.diff_derivations(b"/s/a.drv", b"/s/b.drv", &a, &b);
    let env = r.env.as_ref().unwrap();
    assert_eq!(env.len(), 1);
    assert_eq!(env[0].0, b"b".to_vec());
    assert!(matches!(&env[0].1, EnvVarDiff::Added(v) if v == b"2"));
    assert!(matches!(r.outputs, OutputsDiff::Identical));
    assert!(r.platform.is_none() && r.builder.is_none() && r.args.is_none());
    assert!(r.sources.is_none() && r.inputs.is_none());

    let mut ctx = context(FileStore::new(), FileStore::new());
    let r = ctx.diff_derivations(b"/s/b.drv", b"/s/a.drv", &b, &a);
    let env = r.env.as_ref().unwrap();
    assert_eq!(env.len(), 1);
    assert!(matches!(&env[0].1, EnvVarDiff::Removed(v) if v == b"2"));
    assert!(r.sources.is_none() && r.inputs.is_none());
}

#[test]
fn changed_variable_keeps_both_values() {
    let a = drv(r#"Derive([],[],[],"x","y",[],[("k","old")])"#);
    let b = drv(r#"Derive([],[],[],"x","y",[],[("k","new")])"#);
    let mut ctx = context(FileStore::new(), FileStore::new());
    let r = ctx.diff_derivations(b"a", b"b", &a, &b);
    let env = r.env.unwrap();
    assert!(matches!(&env[0].1, EnvVarDiff::Changed(s) if s.old == b"old" && s.new == b"new"));
}

#[test]
fn arguments_keep_their_positions() {
    let a = drv(r#"Derive([],[],[],"x","y",["a","b","c"],[])"#);
    let b = drv(r#"Derive([],[],[],"x","y",["a","x","c","d"],[])"#);
    let mut ctx = context(FileStore::new(), FileStore::new());
    let r = ctx.diff_derivations(b"a", b"b", &a, &b);
    let args = r.args.unwrap();
    assert_eq!(args.len(), 2);
    assert_eq!(args[0].0, 1);
    assert_eq!(args[0].1.old, b"b".to_vec());
    assert_eq!(args[0].1.new, b"x".to_vec());
    assert_eq!(args[1].0, 3);
    assert_eq!(args[1].1.old, Vec::<u8>::new());
    assert_eq!(args[1].1.new, b"d".to_vec());
}

#[test]
fn platform_and_builder_changes() {
    let a = drv(r#"Derive([],[],[],"x86_64-linux","/bin/sh",[],[])"#);
    let b = drv(r#"Derive([],[],[],"aarch64-linux","/bin/sh",[],[])"#);
    let mut ctx = context(FileStore::new(), FileStore::new());
    let r = ctx.diff_derivations(b"a", b"b", &a, &b);
    let p = r.platform.unwrap();
    assert_eq!(p.old, b"x86_64-linux".to_vec());
    assert_eq!(p.new, b"aarch64-linux".to_vec());
    assert!(r.builder.is_none());
}

#[test]
fn outputs_added_removed_and_changed() {
    let a = drv(r#"Derive([("dev","/s/d","",""),("out","/s/o","","")],[],[],"x","y",[],[])"#);
    let b = drv(r#"Derive([("doc","/s/doc","",""),("out","/s/o2","sha256","h")],[],[],"x","y",[],[])"#);
    let mut ctx = context(FileStore::new(), FileStore::new());
    let r = ctx.diff_derivations(b"a", b"b", &a, &b);
    let OutputsDiff::Changed(outs) = r.outputs else {
        panic!("outputs should differ")
    };
    assert_eq!(outs.len(), 3);
    assert_eq!(outs[0].name, b"dev".to_vec());
    assert!(matches!(outs[0].diff, OutputDetailDiff::Removed(_)));
    assert_eq!(outs[1].name, b"doc".to_vec());
    assert!(matches!(outs[1].diff, OutputDetailDiff::Added(_)));
    assert_eq!(outs[2].name, b"out".to_vec());
    match &outs[2].diff {
        OutputDetailDiff::Changed { path, hash_algo, hash, .. } => {
            assert_eq!(path.as_ref().unwrap().new, b"/s/o2".to_vec());
            assert_eq!(hash_algo.as_ref().unwrap().old, Vec::<u8>::new());
            assert_eq!(hash_algo.as_ref().unwrap().new, b"sha256".to_vec());
            assert_eq!(hash.as_ref().unwrap().new, b"h".to_vec());
        }
        _ => panic!("out should have changed"),
    }
}

#[test]
fn sources_added_removed_and_changed_contents() {
    let a = drv(r#"Derive([],[],["/s/common","/s/gone"],"x","y",[],[])"#);
    let b = drv(r#"Derive([],[],["/s/common","/s/new"],"x","y",[],[])"#);
    let mut f1 = FileStore::new();
    f1.insert(b"/s/common".to_vec(), b"one\ntwo\n".to_vec());
    let mut f2 = FileStore::new();
    f2.insert(b"/s/common".to_vec(), b"one\nthree\n".to_vec());
    let mut ctx = context(f1, f2);
    let r = ctx.diff_derivations(b"a", b"b", &a, &b);
    let s = r.sources.unwrap();
    assert_eq!(s.added, vec![b"/s/new".to_vec()]);
    assert_eq!(s.removed, vec![b"/s/gone".to_vec()]);
    assert_eq!(s.common.len(), 1);
    assert_eq!(s.common[0].path, b"/s/common".to_vec());
    let TextDiff::Text(lines) = &s.common[0].diff else {
        panic!("text contents should give a text diff")
    };
    assert_eq!(
        lines,
        &vec![
            DiffLine::Context(b"one\n".to_vec()),
            DiffLine::Removed(b"two\n".to_vec()),
            DiffLine::Added(b"three\n".to_vec()),
        ]
    );
}

#[test]
fn unreadable_source_is_passed_over() {
    let a = drv(r#"Derive([],[],["/s/common"],"x","y",[],[])"#);
    let mut f1 = FileStore::new();
    f1.insert(b"/s/common".to_vec(), b"one".to_vec());
    let mut ctx = context(f1, FileStore::new());
    let r = ctx.diff_derivations(b"a", b"b", &a, &a);
    assert!(r.sources.is_none());
}

#[test]
fn nul_byte_makes_a_binary_diff() {
    let a = drv(r#"Derive([],[],["/s/blob"],"x","y",[],[])"#);
    let mut f1 = FileStore::new();
    f1.insert(b"/s/blob".to_vec(), b"same text\0".to_vec());
    let mut f2 = FileStore::new();
    f2.insert(b"/s/blob".to_vec(), b"same text".to_vec());
    let mut ctx = context(f1, f2);
    let r = ctx.diff_derivations(b"a", b"b", &a, &a);
    let s = r.sources.unwrap();
    assert!(matches!(s.common[0].diff, TextDiff::Binary));
}

#[test]
fn word_orientation_splits_words() {
    let a = drv(r#"Derive([],[],["/s/f"],"x","y",[],[])"#);
    let mut f1 = FileStore::new();
    f1.insert(b"/s/f".to_vec(), b"alpha beta gamma".to_vec());
    let mut f2 = FileStore::new();
    f2.insert(b"/s/f".to_vec(), b"alpha delta gamma".to_vec());
    let mut ctx = DiffContext::new(DiffOrientation::Word, 3, f1, f2);
    let r = ctx.diff_derivations(b"a", b"b", &a, &a);
    let s = r.sources.unwrap();
    let TextDiff::Text(pieces) = &s.common[0].diff else {
        panic!("text contents should give a text diff")
    };
    assert!(pieces.contains(&DiffLine::Removed(b"beta".to_vec())));
    assert!(pieces.contains(&DiffLine::Added(b"delta".to_vec())));
    assert!(pieces.contains(&DiffLine::Context(b"alpha".to_vec())));
}

#[test]
fn character_orientation_splits_characters() {
    let a = drv(r#"Derive([],[],["/s/f"],"x","y",[],[])"#);
    let mut f1 = FileStore::new();
    f1.insert(b"/s/f".to_vec(), b"abc".to_vec());
    let mut f2 = FileStore::new();
    f2.insert(b"/s/f".to_vec(), b"abd".to_vec());
    let mut ctx = DiffContext::new(DiffOrientation::Character, 3, f1, f2);
    let r = ctx.diff_derivations(b"a", b"b", &a, &a);
    let s = r.sources.unwrap();
    let TextDiff::Text(pieces) = &s.common[0].diff else {
        panic!("text contents should give a text diff")
    };
    assert_eq!(
        pieces,
        &vec![
            DiffLine::Context(b"a".to_vec()),
            DiffLine::Context(b"b".to_vec()),
            DiffLine::Removed(b"c".to_vec()),
            DiffLine::Added(b"d".to_vec()),
        ]
    );
}

#[test]
fn input_derivations_sorted_by_path() {
    let a = drv(r#"Derive([],[("/s/k-shared.drv",["out"])],[],"x","y",[],[])"#);
    let b = drv(r#"Derive([],[("/s/aaa-zeta.drv",["out"]),("/s/k-shared.drv",["dev","out"]),("/s/zzz-alpha.drv",["out"])],[],"x","y",[],[])"#);
    let mut ctx = context(FileStore::new(), FileStore::new());
    let r = ctx.diff_derivations(b"a", b"b", &a, &b);
    let ins = r.inputs.unwrap();
    assert_eq!(ins.added.len(), 2);
    assert_eq!(ins.added[0].0, b"/s/aaa-zeta.drv".to_vec());
    assert_eq!(ins.added[1].0, b"/s/zzz-alpha.drv".to_vec());
    assert!(ins.removed.is_empty());
    assert_eq!(ins.changed.len(), 1);
    let outs = ins.changed[0].outputs.as_ref().unwrap();
    assert_eq!(outs.added, vec![b"dev".to_vec()]);
    assert!(outs.removed.is_empty());
    assert!(ins.changed[0].derivation.is_none());
}

#[test]
fn derivation_path_name() {
    let p = DerivationPath(b"/nix/store/abc123-hello-2.12.drv".to_vec());
    assert_eq!(p.get_name(), b"hello-2.12.drv");
    let q = DerivationPath(b"/nix/store/nodash".to_vec());
    assert_eq!(q.get_name(), b"/nix/store/nodash");
    let r = DerivationPath(b"plain-name".to_vec());
    assert_eq!(r.get_name(), b"plain-name");
}

const SUB_Z1: &str = r#"Derive([],[],[],"x","z1",[],[])"#;
const SUB_Z2: &str = r#"Derive([],[],[],"x","z2",[],[])"#;
const SUB_X1: &str = r#"Derive([],[("/s/z.drv",["out"])],[],"x","x1",[],[])"#;
const SUB_X2: &str = r#"Derive([],[("/s/z.drv",["out"])],[],"x","x2",[],[])"#;
const SUB_Y1: &str = r#"Derive([],[("/s/z.drv",["out"])],[],"x","y1",[],[])"#;
const SUB_Y2: &str = r#"Derive([],[("/s/z.drv",["out"])],[],"x","y2",[],[])"#;
const TOP: &str = r#"Derive([],[("/s/x.drv",["out"]),("/s/y.drv",["out"])],[],"x","top",[],[])"#;

#[test]
fn shared_input_is_compared_once() {
    let mut f1 = FileStore::new();
    f1.insert(b"/s/x.drv".to_vec(), SUB_X1.as_bytes().to_vec());
    f1.insert(b"/s/y.drv".to_vec(), SUB_Y1.as_bytes().to_vec());
    f1.insert(b"/s/z.drv".to_vec(), SUB_Z1.as_bytes().to_vec());
    let mut f2 = FileStore::new();
    f2.insert(b"/s/x.drv".to_vec(), SUB_X2.as_bytes().to_vec());
    f2.insert(b"/s/y.drv".to_vec(), SUB_Y2.as_bytes().to_vec());
    f2.insert(b"/s/z.drv".to_vec(), SUB_Z2.as_bytes().to_vec());
    let top = drv(TOP);
    let mut ctx = context(f1, f2);
    let r = ctx.diff_derivations(b"/s/top1.drv", b"/s/top2.drv", &top, &top);
    let ins = r.inputs.unwrap();
    assert_eq!(ins.changed.len(), 2);
    let x = ins.changed[0].derivation.as_ref().unwrap();
    let y = ins.changed[1].derivation.as_ref().unwrap();
    assert!(x.builder.is_some());
    assert!(y.builder.is_some());
    let z_under_x = x.inputs.as_ref().unwrap().changed[0].derivation.as_ref().unwrap();
    let z_under_y = y.inputs.as_ref().unwrap().changed[0].derivation.as_ref().unwrap();
    assert_eq!(z_under_x.builder.as_ref().unwrap().new, b"z2".to_vec());
    assert!(is_identical(z_under_y));
}

#[test]
fn self_referencing_inputs_terminate() {
    let cyc1 = r#"Derive([],[("/s/c.drv",["out"])],[],"x","c1",[],[])"#;
    let cyc2 = r#"Derive([],[("/s/c.drv",["out"])],[],"x","c2",[],[])"#;
    let mut f1 = FileStore::new();
    f1.insert(b"/s/c.drv".to_vec(), cyc1.as_bytes().to_vec());
    let mut f2 = FileStore::new();
    f2.insert(b"/s/c.drv".to_vec(), cyc2.as_bytes().to_vec());
    let d1 = drv(cyc1);
    let d2 = drv(cyc2);
    let mut ctx = context(f1, f2);
    let r = ctx.diff_derivations(b"/s/c.drv", b"/s/c.drv", &d1, &d2);
    assert!(r.builder.is_some());
    let ins = r.inputs.unwrap();
    let nested = ins.changed[0].derivation.as_ref().unwrap();
    assert!(is_identical(nested));
}

#[test]
fn pair_compared_before_gives_identical_diff() {
    let a = drv(BASE);
    let b = drv(WITH_B);
    let mut ctx = context(FileStore::new(), FileStore::new());
    let first = ctx.diff_derivations(b"a", b"b", &a, &b);
    assert!(first.env.is_some());
    let second = ctx.diff_derivations(b"a", b"b", &a, &b);
    assert!(is_identical(&second));
}

#[test]
fn shared_references_lists_common_sources_then_inputs() {
    let a = drv(r#"Derive([],[("/s/a.drv",["out"]),("/s/b.drv",["out"])],["/s/x","/s/y"],"x","y",[],[])"#);
    let b = drv(r#"Derive([],[("/s/b.drv",["dev"]),("/s/c.drv",["out"])],["/s/y","/s/z"],"x","y",[],[])"#);
    assert_eq!(
        shared_references(&a, &b),
        vec![b"/s/y".to_vec(), b"/s/b.drv".to_vec()]
    );
}

#[test]
fn file_store_replaces_and_looks_up() {
    let mut f = FileStore::new();
    f.insert(b"/b".to_vec(), b"1".to_vec());
    f.insert(b"/a".to_vec(), b"2".to_vec());
    f.insert(b"/b".to_vec(), b"3".to_vec());
    assert_eq!(f.get(b"/a"), Some(&b"2".to_vec()));
    assert_eq!(f.get(b"/b"), Some(&b"3".to_vec()));
    assert_eq!(f.get(b"/c"), None);
}

#[test]
fn derivation_paths_order_by_name_then_path() {
    let a = DerivationPath(b"/s/zzz-alpha.drv".to_vec());
    let b = DerivationPath(b"/s/aaa-zeta.drv".to_vec());
    let c = DerivationPath(b"/t/aaa-zeta.drv".to_vec());
    assert!(a.sorts_before(&b));
    assert!(!b.sorts_before(&a));
    assert!(b.sorts_before(&c));
    assert!(!a.sorts_before(&a));
}
