use drorm_migrate::declaration::Migration;
use drorm_migrate::resolver::{resolve, GraphError};

fn mig(id: &str, initial: bool, dependency: &str, replaces: &[&str]) -> Migration {
    Migration {
        hash: String::new(),
        initial,
        id: id.to_string(),
        dependency: dependency.to_string(),
        replaces: replaces.iter().map(|r| r.to_string()).collect(),
        operations: Vec::new(),
    }
}

fn ids(order: &[Migration]) -> Vec<String> {
    order.iter().map(|m| m.id.clone()).collect()
}

#[test]
fn resolves_single_root() {
    let r = resolve(vec![mig("0001_initial", true, "", &[])]).unwrap();
    assert_eq!(ids(&r), vec!["0001_initial".to_string()]);
}

#[test]
fn resolves_chain_in_order() {
    let set = vec![
        mig("0003_c", false, "0002_b", &[]),
        mig("0001_a", true, "", &[]),
        mig("0002_b", false, "0001_a", &[]),
    ];
    let r = resolve(set).unwrap();
    assert_eq!(r.len(), 3);
    assert_eq!(
        ids(&r),
        vec!["0001_a".to_string(), "0002_b".to_string(), "0003_c".to_string()]
    );
    for i in 1..r.len() {
        assert_eq!(r[i].dependency, r[i - 1].id);
    }
}

#[test]
fn cycle_fails() {
    let set = vec![
        mig("root", true, "", &[]),
        mig("a", false, "b", &[]),
        mig("b", false, "a", &[]),
    ];
    let e = resolve(set).unwrap_err();
    assert!(matches!(e, GraphError::Cycle { .. }));
}

#[test]
fn divergent_head_fails() {
    let set = vec![
        mig("root", true, "", &[]),
        mig("a", false, "root", &[]),
        mig("b", false, "root", &[]),
    ];
    let e = resolve(set).unwrap_err();
    match e {
        GraphError::DivergentHead { dependency, first, second } => {
            assert_eq!(dependency, "root");
            assert_eq!(first, "a");
            assert_eq!(second, "b");
        }
        other => panic!("expected a divergent head, got {:?}", ids_of_error(&other)),
    }
}

#[test]
fn dangling_dependency_fails() {
    let set = vec![mig("root", true, "", &[]), mig("a", false, "missing", &[])];
    let e = resolve(set).unwrap_err();
    match e {
        GraphError::DanglingDependency { id, dependency } => {
            assert_eq!(id, "a");
            assert_eq!(dependency, "missing");
        }
        other => panic!("expected a dangling dependency, got {:?}", ids_of_error(&other)),
    }
}

#[test]
fn duplicate_id_fails() {
    let set = vec![
        mig("root", true, "", &[]),
        mig("a", false, "root", &[]),
        mig("a", false, "a", &[]),
    ];
    let e = resolve(set).unwrap_err();
    match e {
        GraphError::DuplicateId { id } => assert_eq!(id, "a"),
        other => panic!("expected a duplicate id, got {:?}", ids_of_error(&other)),
    }
}

#[test]
fn no_root_fails() {
    let set = vec![mig("a", false, "b", &[]), mig("b", false, "a", &[])];
    let e = resolve(set).unwrap_err();
    assert!(matches!(e, GraphError::NoRoot));
}

#[test]
fn multiple_roots_fails() {
    let set = vec![mig("a", true, "", &[]), mig("b", true, "", &[])];
    let e = resolve(set).unwrap_err();
    assert!(matches!(e, GraphError::MultipleRoots { .. }));
}

#[test]
fn initial_with_dependency_fails() {
    let set = vec![mig("a", true, "b", &[]), mig("b", false, "a", &[])];
    let e = resolve(set).unwrap_err();
    assert!(matches!(e, GraphError::InitialWithDependency { .. }));
}

#[test]
fn squash_accepted() {
    // C replaces A and B, and nothing still points at them.
    let set = vec![
        mig("root", true, "", &[]),
        mig("c", false, "root", &["a", "b"]),
    ];
    let r = resolve(set).unwrap();
    assert_eq!(ids(&r), vec!["root".to_string(), "c".to_string()]);
}

#[test]
fn replaced_but_referenced_fails() {
    // X still depends on the replaced id "a".
    let set = vec![
        mig("root", true, "", &[]),
        mig("c", false, "root", &["a", "b"]),
        mig("x", false, "a", &[]),
    ];
    let e = resolve(set).unwrap_err();
    match e {
        GraphError::ReplacedButReferenced { id, dependency } => {
            assert_eq!(id, "x");
            assert_eq!(dependency, "a");
        }
        other => panic!("expected a replaced-but-referenced error, got {:?}", ids_of_error(&other)),
    }
}

#[test]
fn dangling_behind_another_record_is_still_dangling() {
    // x sits in front of m in the input, x's dependency m is present, but m
    // itself dangles: the defect of the whole remainder is the dangling
    // dependency, not a loop.
    let set = vec![
        mig("root", true, "", &[]),
        mig("x", false, "m", &[]),
        mig("m", false, "missing", &[]),
    ];
    let e = resolve(set).unwrap_err();
    match e {
        GraphError::DanglingDependency { id, dependency } => {
            assert_eq!(id, "m");
            assert_eq!(dependency, "missing");
        }
        other => panic!("expected a dangling dependency, got {:?}", ids_of_error(&other)),
    }
}

#[test]
fn replaced_reference_behind_another_record_is_reported() {
    // y chains onto x, and x still depends on the replaced id "a": the
    // replaced reference is found even though y is the first unreached record.
    let set = vec![
        mig("root", true, "", &[]),
        mig("c", false, "root", &["a", "b"]),
        mig("y", false, "x", &[]),
        mig("x", false, "a", &[]),
    ];
    let e = resolve(set).unwrap_err();
    match e {
        GraphError::ReplacedButReferenced { id, dependency } => {
            assert_eq!(id, "x");
            assert_eq!(dependency, "a");
        }
        other => panic!("expected a replaced-but-referenced error, got {:?}", ids_of_error(&other)),
    }
}

#[test]
fn record_chained_onto_a_cycle_reports_a_cycle() {
    let set = vec![
        mig("root", true, "", &[]),
        mig("x", false, "a", &[]),
        mig("a", false, "b", &[]),
        mig("b", false, "a", &[]),
    ];
    let e = resolve(set).unwrap_err();
    assert!(matches!(e, GraphError::Cycle { .. }));
}

#[test]
fn empty_set_has_no_root() {
    let e = resolve(Vec::new()).unwrap_err();
    assert!(matches!(e, GraphError::NoRoot));
}

fn ids_of_error(e: &GraphError) -> &'static str {
    match e {
        GraphError::DuplicateId { .. } => "duplicate id",
        GraphError::NoRoot => "no root",
        GraphError::MultipleRoots { .. } => "multiple roots",
        GraphError::InitialWithDependency { .. } => "initial with dependency",
        GraphError::DivergentHead { .. } => "divergent head",
        GraphError::DanglingDependency { .. } => "dangling dependency",
        GraphError::ReplacedButReferenced { .. } => "replaced but referenced",
        GraphError::Cycle { .. } => "cycle",
    }
}
