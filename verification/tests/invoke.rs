use std::cell::Cell;
use std::rc::Rc;

use di::{Container, InvokeError, InvokeStep, Lookup, ProviderError};

enum Inv {
    Count(Rc<Cell<usize>>),
    Fail(&'static str),
    Resolve(u64, &'static str),
    Register(Rc<Cell<usize>>),
}

type Core = Container<u64, u64, Inv>;

fn get(c: &mut Core, key: u64, name: &str) -> Result<u64, ProviderError> {
    match c.begin_get(key, name.to_string())? {
        Lookup::Cached => Ok(*c.close_cached(key)),
        Lookup::Build(v) => c.finish_build::<ProviderError>(key, Ok(v)).map(|r| *r),
    }
}

fn run_invokable(c: &mut Core, i: Inv) -> Result<(), InvokeError> {
    match i {
        Inv::Count(n) => {
            n.set(n.get() + 1);
            Ok(())
        }
        Inv::Fail(msg) => Err(InvokeError::new(msg.to_string())),
        Inv::Resolve(k, name) => {
            get(c, k, name)?;
            Ok(())
        }
        Inv::Register(n) => {
            c.invokable(Inv::Count(n));
            Ok(())
        }
    }
}

/// Runs the invokables the way the container's asynchronous `invoke` does.
fn invoke(c: &mut Core) -> Result<(), InvokeError> {
    let mut step = c.start_invoke().next();
    loop {
        match step {
            InvokeStep::Run(i, rest) => {
                let out = run_invokable(c, i);
                step = rest.advance(out);
            }
            InvokeStep::Finished(r) => return r,
        }
    }
}

#[test]
fn it_runs_all_invokables() {
    let mut container: Core = Container::new();
    let counter = Rc::new(Cell::new(0));

    container.invokable(Inv::Count(counter.clone()));
    container.invokable(Inv::Count(counter.clone()));

    invoke(&mut container).unwrap();

    assert_eq!(counter.get(), 2);
}

#[test]
fn it_invokes_lazily_and_drains() {
    let mut container: Core = Container::new();
    let counter = Rc::new(Cell::new(0));

    container.invokable(Inv::Count(counter.clone()));
    assert_eq!(counter.get(), 0);

    invoke(&mut container).unwrap();
    assert_eq!(counter.get(), 1);

    invoke(&mut container).unwrap();
    assert_eq!(counter.get(), 1);
}

#[test]
fn it_invokes_with_resolved_values() {
    let mut container: Core = Container::new();

    container.provide(1, 42);
    container.invokable(Inv::Resolve(1, "A"));

    invoke(&mut container).unwrap();
    assert_eq!(get(&mut container, 1, "A").unwrap(), 42);
}

#[test]
fn it_stops_on_first_error() {
    let mut container: Core = Container::new();
    let counter = Rc::new(Cell::new(0));

    container.invokable(Inv::Fail("boom"));
    container.invokable(Inv::Count(counter.clone()));

    let result = invoke(&mut container);

    assert!(matches!(result, Err(InvokeError::Invoke { .. })));
    assert_eq!(counter.get(), 0);
}

#[test]
fn provider_errors_inside_invokables_become_provide_errors() {
    let mut container: Core = Container::new();
    container.invokable(Inv::Resolve(9, "Missing"));

    let result = invoke(&mut container);
    assert!(matches!(
        result,
        Err(InvokeError::Provide(ProviderError::NoProvider { type_id: 9, .. }))
    ));
}

#[test]
fn invokables_registered_while_running_wait_for_the_next_run() {
    let mut container: Core = Container::new();
    let counter = Rc::new(Cell::new(0));

    container.invokable(Inv::Register(counter.clone()));
    invoke(&mut container).unwrap();
    assert_eq!(counter.get(), 0);

    invoke(&mut container).unwrap();
    assert_eq!(counter.get(), 1);
}

#[test]
fn run_hands_out_in_registration_order() {
    let mut container: Container<u64, u64, u32> = Container::new();
    container.invokable(1);
    container.invokable(2);
    container.invokable(3);

    let mut seen = Vec::new();
    let mut step = container.start_invoke().next::<()>();
    while let InvokeStep::Run(i, rest) = step {
        seen.push(i);
        step = rest.advance(Ok(()));
    }
    assert!(matches!(step, InvokeStep::Finished(Ok(()))));
    assert_eq!(seen, vec![1, 2, 3]);
}

#[test]
fn failed_run_drops_the_rest() {
    let mut container: Container<u64, u64, u32> = Container::new();
    container.invokable(1);
    container.invokable(2);

    let step = container.start_invoke().next::<&str>();
    let rest = match step {
        InvokeStep::Run(1, rest) => rest,
        _ => panic!("expected the first invokable"),
    };
    assert!(matches!(rest.advance(Err("no")), InvokeStep::Finished(Err("no"))));

    // Nothing is left in the container either.
    assert!(matches!(container.start_invoke().next::<()>(), InvokeStep::Finished(Ok(()))));
}
