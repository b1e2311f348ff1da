use std::cell::Cell;
use std::rc::Rc;

use di::{Container, Lookup, ProviderError};

/// A provider for the tests: the types it asks for, the value it builds (or
/// the message it fails with), and a counter of its runs.
struct Prov {
    deps: Vec<(u64, &'static str)>,
    outcome: Result<u64, &'static str>,
    runs: Rc<Cell<usize>>,
}

fn prov(deps: Vec<(u64, &'static str)>, value: u64) -> Prov {
    Prov { deps, outcome: Ok(value), runs: Rc::new(Cell::new(0)) }
}

type Core = Container<Prov, u64, ()>;

fn run_provider(c: &mut Core, name: &str, p: Prov) -> Result<u64, ProviderError> {
    p.runs.set(p.runs.get() + 1);
    for (k, n) in p.deps.iter() {
        get(c, *k, n)?;
    }
    match p.outcome {
        Ok(v) => Ok(v),
        Err(msg) => Err(ProviderError::new(name.to_string(), msg.to_string())),
    }
}

/// Resolves a type the way the container's asynchronous `get` does.
fn get(c: &mut Core, key: u64, name: &str) -> Result<u64, ProviderError> {
    match c.begin_get(key, name.to_string())? {
        Lookup::Cached => Ok(*c.close_cached(key)),
        Lookup::Build(p) => {
            let out = run_provider(c, name, p);
            c.finish_build(key, out).map(|v| *v)
        }
    }
}

const A: u64 = 1;
const B: u64 = 2;
const C: u64 = 3;
const D: u64 = 4;
const E: u64 = 5;
const F: u64 = 6;

#[test]
fn it_constructs_a_dag() -> Result<(), ProviderError> {
    let mut container: Core = Container::new();

    container.provide(A, prov(vec![], 10));
    container.provide(B, prov(vec![(A, "A")], 20));
    container.provide(C, prov(vec![(A, "A"), (B, "B")], 30));

    let c = get(&mut container, C, "C")?;
    assert_eq!(c, 30);
    assert_eq!(get(&mut container, A, "A")?, 10);
    assert_eq!(get(&mut container, B, "B")?, 20);

    Ok(())
}

#[test]
fn it_detects_cycles_and_provides_friendly_errors() {
    let mut container: Core = Container::new();

    container.provide(D, prov(vec![(E, "E")], 4));
    container.provide(E, prov(vec![(F, "F")], 5));
    container.provide(F, prov(vec![(D, "D")], 6));

    let result = get(&mut container, E, "E");

    match result {
        Err(ProviderError::CycleDetected(cycle)) => {
            assert!(cycle.render().contains("first occurrence"));
        }
        Err(other) => panic!("expected CycleDetected, got: {other:?}"),
        Ok(_) => panic!("expected error, got Ok"),
    }
}

#[test]
fn it_errors_when_provider_missing() {
    let mut container: Core = Container::new();

    let result = get(&mut container, 99, "Unregistered");

    assert!(matches!(result, Err(ProviderError::NoProvider { .. })));
}

#[test]
fn it_caches_resolved_values() {
    let mut container: Core = Container::new();
    let p = prov(vec![], 10);
    let counter = p.runs.clone();

    container.provide(A, p);

    get(&mut container, A, "A").unwrap();
    get(&mut container, A, "A").unwrap();

    assert_eq!(counter.get(), 1);
}

#[test]
fn it_propagates_provider_errors() {
    let mut container: Core = Container::new();

    container.provide(
        7,
        Prov { deps: vec![], outcome: Err("boom"), runs: Rc::new(Cell::new(0)) },
    );

    let result = get(&mut container, 7, "Boom");

    match &result {
        Err(ProviderError::ProvideError { name, error }) => {
            assert_eq!(name, "Boom");
            assert_eq!(error, "boom");
        }
        Err(other) => panic!("expected ProvideError, got: {other:?}"),
        Ok(_) => panic!("expected error, got Ok"),
    }
}

#[test]
fn cycle_text_marks_first_occurrence_and_culprit() {
    let mut container: Core = Container::new();

    container.provide(D, prov(vec![(E, "E")], 4));
    container.provide(E, prov(vec![(F, "F")], 5));
    container.provide(F, prov(vec![(D, "D")], 6));

    match get(&mut container, E, "E") {
        Err(ProviderError::CycleDetected(cycle)) => {
            assert_eq!(
                cycle.render(),
                "\tE ← first occurrence\n\tF\n\tD ← provider depends on E\n\tE\n"
            );
            let keys: Vec<u64> = cycle.entries().iter().map(|e| e.type_id).collect();
            assert_eq!(keys, vec![E, F, D]);
            assert_eq!(cycle.recurring_type(), "E");
        }
        other => panic!("expected CycleDetected, got: {other:?}"),
    }
}

#[test]
fn direct_self_dependency_is_a_cycle() {
    let mut container: Core = Container::new();
    container.provide(A, prov(vec![(A, "A")], 1));

    match get(&mut container, A, "A") {
        Err(ProviderError::CycleDetected(cycle)) => {
            assert_eq!(cycle.render(), "\tA ← first occurrence\n\tA\n");
        }
        other => panic!("expected CycleDetected, got: {other:?}"),
    }
}

#[test]
fn failed_resolution_leaves_path_empty() {
    let mut container: Core = Container::new();
    container.provide(
        A,
        Prov { deps: vec![(B, "B")], outcome: Ok(1), runs: Rc::new(Cell::new(0)) },
    );

    // B has no provider: A's build fails, and its frame is closed.
    assert!(matches!(
        get(&mut container, A, "A"),
        Err(ProviderError::NoProvider { type_id: B, .. })
    ));

    // A's provider was used up; a self-referencing provider for C shows the
    // path is empty again: the cycle lists C alone.
    container.provide(C, prov(vec![(C, "C")], 3));
    match get(&mut container, C, "C") {
        Err(ProviderError::CycleDetected(cycle)) => assert_eq!(cycle.entries().len(), 1),
        other => panic!("expected CycleDetected, got: {other:?}"),
    }
    assert!(matches!(get(&mut container, A, "A"), Err(ProviderError::NoProvider { type_id: A, .. })));
}

#[test]
fn begin_get_hands_out_provider_once() {
    let mut container: Core = Container::new();
    container.provide(A, prov(vec![], 10));

    match container.begin_get(A, "A".to_string()) {
        Ok(Lookup::Build(p)) => assert!(matches!(p.outcome, Ok(10))),
        _ => panic!("expected the provider"),
    }
    assert_eq!(*container.finish_build::<ProviderError>(A, Ok(10)).unwrap(), 10);
    assert_eq!(container.innermost(), None);

    assert!(matches!(container.begin_get(A, "A".to_string()), Ok(Lookup::Cached)));
    assert_eq!(*container.close_cached(A), 10);
    assert_eq!(container.innermost(), None);
}

#[test]
fn finish_build_error_is_handed_back() {
    let mut container: Core = Container::new();
    container.provide(A, prov(vec![], 10));
    assert!(matches!(container.begin_get(A, "A".to_string()), Ok(Lookup::Build(_))));
    let r = container.finish_build(A, Err::<u64, &str>("failed")).map(|v| *v);
    assert_eq!(r, Err("failed"));
    assert!(!container.has_value(A));
    assert_eq!(container.innermost(), None);
}

#[test]
fn cached_value_survives_a_later_provider() {
    let mut container: Core = Container::new();
    container.provide(A, prov(vec![], 10));
    assert_eq!(get(&mut container, A, "A").unwrap(), 10);

    let later = prov(vec![], 99);
    let later_runs = later.runs.clone();
    container.provide(A, later);

    assert_eq!(get(&mut container, A, "A").unwrap(), 10);
    assert_eq!(later_runs.get(), 0);
    assert_eq!(container.innermost(), None);
    assert!(container.has_value(A));
}

#[test]
fn innermost_frame_follows_begin_and_end() {
    let mut container: Core = Container::new();
    container.provide(A, prov(vec![], 10));
    assert_eq!(container.innermost(), None);
    assert!(matches!(container.begin_get(A, "A".to_string()), Ok(Lookup::Build(_))));
    assert_eq!(container.innermost(), Some(A));
    assert!(!container.has_value(A));
    assert_eq!(*container.finish_build::<()>(A, Ok(10)).unwrap(), 10);
    assert_eq!(container.innermost(), None);
    assert!(container.has_value(A));
}
