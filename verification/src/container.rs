use std::collections::HashMap;
use vstd::prelude::*;

use crate::error::{
    cycle_text, entry_views, lemma_text_marks_first_occurrence, ProviderError, ProviderErrorView,
    ResolutionEntry,
};
use crate::invoke::InvokeRun;

verus! {

broadcast use vstd::std_specs::hash::group_hash_axioms;

/// What `begin_get` found for a type that is not on the resolution path.
pub enum Lookup<P> {
    /// A value of the type was built before; no provider runs.
    Cached,
    /// The type's provider, taken out of the container: the caller runs it
    /// and reports the outcome with `finish_build`.
    Build(P),
}

/// The abstract state of a container.
pub struct ContainerView<P, V, I> {
    /// The values built so far, by key.
    pub values: Map<u64, V>,
    /// The registered providers that have not run yet, by key.
    pub providers: Map<u64, P>,
    /// The registered invokables, in the order of registration.
    pub invokables: Seq<I>,
    /// The types being built at the moment, outermost first.
    pub path: Seq<(u64, Seq<char>)>,
}

/// Whether a type's key stands on a resolution path.
pub open spec fn on_path(path: Seq<(u64, Seq<char>)>, key: u64) -> bool {
    exists|i: int| 0 <= i < path.len() && (#[trigger] path[i]).0 == key
}

/// The path without its last frame (unchanged when empty).
pub open spec fn path_popped(path: Seq<(u64, Seq<char>)>) -> Seq<(u64, Seq<char>)> {
    if path.len() > 0 {
        path.drop_last()
    } else {
        path
    }
}

/// The state after registering provider `p` for `key`: an earlier provider
/// for `key` is replaced; nothing runs.
pub open spec fn after_provide<P, V, I>(s: ContainerView<P, V, I>, key: u64, p: P) -> ContainerView<
    P,
    V,
    I,
> {
    ContainerView {
        values: s.values,
        providers: s.providers.insert(key, p),
        invokables: s.invokables,
        path: s.path,
    }
}

/// The state after registering invokable `i`: it joins the end of the queue.
pub open spec fn after_invokable<P, V, I>(s: ContainerView<P, V, I>, i: I) -> ContainerView<
    P,
    V,
    I,
> {
    ContainerView {
        values: s.values,
        providers: s.providers,
        invokables: s.invokables.push(i),
        path: s.path,
    }
}

/// The answer of `begin_get` for the type `key` named `name`: a cycle when
/// the type is on the path; else the cached value, else its provider, else
/// the error that none is registered.
pub open spec fn begin_get_result<P, V, I>(
    s: ContainerView<P, V, I>,
    key: u64,
    name: Seq<char>,
) -> Result<Lookup<P>, ProviderErrorView> {
    if on_path(s.path, key) {
        Err(ProviderErrorView::CycleDetected { entries: s.path, recurring_type: name })
    } else if s.values.contains_key(key) {
        Ok(Lookup::Cached)
    } else if s.providers.contains_key(key) {
        Ok(Lookup::Build(s.providers[key]))
    } else {
        Err(ProviderErrorView::NoProvider { name, type_id: key })
    }
}

/// The state after `begin_get`: on success the type's frame is pushed on the
/// path and, when its provider is handed out, the provider leaves the
/// container; on an error nothing changes.
pub open spec fn begin_get_state<P, V, I>(
    s: ContainerView<P, V, I>,
    key: u64,
    name: Seq<char>,
) -> ContainerView<P, V, I> {
    if on_path(s.path, key) {
        s
    } else if s.values.contains_key(key) {
        ContainerView {
            values: s.values,
            providers: s.providers,
            invokables: s.invokables,
            path: s.path.push((key, name)),
        }
    } else if s.providers.contains_key(key) {
        ContainerView {
            values: s.values,
            providers: s.providers.remove(key),
            invokables: s.invokables,
            path: s.path.push((key, name)),
        }
    } else {
        s
    }
}

/// The state after a provider built `v` for `key`: the value is kept.
pub open spec fn after_store<P, V, I>(s: ContainerView<P, V, I>, key: u64, v: V) -> ContainerView<
    P,
    V,
    I,
> {
    ContainerView {
        values: s.values.insert(key, v),
        providers: s.providers,
        invokables: s.invokables,
        path: s.path,
    }
}

/// The state after the innermost frame of the path is closed.
pub open spec fn after_pop<P, V, I>(s: ContainerView<P, V, I>) -> ContainerView<P, V, I> {
    ContainerView {
        values: s.values,
        providers: s.providers,
        invokables: s.invokables,
        path: path_popped(s.path),
    }
}

/// The state after the invokables are taken out to be run.
pub open spec fn after_drain<P, V, I>(s: ContainerView<P, V, I>) -> ContainerView<P, V, I> {
    ContainerView {
        values: s.values,
        providers: s.providers,
        invokables: Seq::empty(),
        path: s.path,
    }
}

/// The view of a `begin_get` answer.
pub open spec fn lookup_view<P>(r: Result<Lookup<P>, ProviderError>) -> Result<
    Lookup<P>,
    ProviderErrorView,
> {
    match r {
        Ok(l) => Ok(l),
        Err(e) => Err(e@),
    }
}

/// Whether the innermost frame of the path is the one of `key`, a type that
/// has no value yet: the state in which its provider's outcome is reported.
pub open spec fn frame_open<P, V, I>(s: ContainerView<P, V, I>, key: u64) -> bool {
    &&& s.path.len() > 0
    &&& s.path.last().0 == key
    &&& !s.values.contains_key(key)
}

/// One step of a container: any of the operations that change its state.
pub open spec fn step<P, V, I>(pre: ContainerView<P, V, I>, post: ContainerView<P, V, I>) -> bool {
    ||| exists|k: u64, p: P| post == #[trigger] after_provide(pre, k, p)
    ||| exists|i: I| post == #[trigger] after_invokable(pre, i)
    ||| exists|k: u64, n: Seq<char>| post == #[trigger] begin_get_state(pre, k, n)
    ||| exists|k: u64, v: V|
        frame_open(pre, k) && post == after_pop(#[trigger] after_store(pre, k, v))
    ||| pre.path.len() > 0 && post == after_pop(pre)
    ||| post == after_drain(pre)
}

/// A sequence of states of a container, each reached from the one before it
/// by one step.
pub open spec fn is_run<P, V, I>(states: Seq<ContainerView<P, V, I>>) -> bool {
    forall|j: int| 0 <= j < states.len() - 1 ==> step(#[trigger] states[j], states[j + 1])
}

/// Registering a provider runs nothing: the values built and the resolution
/// path are unchanged.
pub proof fn lemma_provide_is_lazy<P, V, I>(s: ContainerView<P, V, I>, key: u64, p: P)
    ensures
        after_provide(s, key, p).values == s.values,
        after_provide(s, key, p).path == s.path,
        after_provide(s, key, p).invokables == s.invokables,
{
}

/// A provider registered for a type replaces an earlier one: when the type
/// is next built, the provider handed out is the one registered last.
pub proof fn lemma_latest_provider_wins<P, V, I>(
    s: ContainerView<P, V, I>,
    key: u64,
    first: P,
    second: P,
    name: Seq<char>,
)
    requires
        !on_path(s.path, key),
        !s.values.contains_key(key),
    ensures
        begin_get_result(after_provide(after_provide(s, key, first), key, second), key, name)
            == Ok::<Lookup<P>, ProviderErrorView>(Lookup::Build(second)),
{
}

/// A type that is asked for while it is being built (directly, or through
/// the types it depends on) is answered with a cycle whose path ends with
/// the type's own frame, and the container is left as it was.
pub proof fn lemma_self_dependency_is_cycle<P, V, I>(
    s: ContainerView<P, V, I>,
    inner: ContainerView<P, V, I>,
    key: u64,
    name: Seq<char>,
    again: Seq<char>,
)
    requires
        begin_get_result(s, key, name) is Ok,
        inner.path.len() >= s.path.len() + 1,
        inner.path.subrange(0, s.path.len() + 1 as int) == begin_get_state(s, key, name).path,
    ensures
        begin_get_result(inner, key, again) == Err::<Lookup<P>, ProviderErrorView>(
            ProviderErrorView::CycleDetected { entries: inner.path, recurring_type: again },
        ),
        begin_get_state(inner, key, again) == inner,
{
    let k = s.path.len() as int;
    assert(begin_get_state(s, key, name).path[k] == (key, name));
    assert(inner.path[k] == inner.path.subrange(0, s.path.len() + 1 as int)[k]);
    assert(inner.path[k].0 == key);
}

/// The resolution of a type that was built leaves the path as it found it,
/// keeps the value built, and the next request for the type is answered
/// from the cache, without a provider.
pub proof fn lemma_built_then_cached<P, V, I>(
    s: ContainerView<P, V, I>,
    key: u64,
    name: Seq<char>,
    during: ContainerView<P, V, I>,
    v: V,
    again: Seq<char>,
)
    requires
        begin_get_result(s, key, name) matches Ok(Lookup::Build(_)),
        during.path == begin_get_state(s, key, name).path,
    ensures
        after_pop(after_store(during, key, v)).path == s.path,
        after_pop(after_store(during, key, v)).values.contains_key(key),
        after_pop(after_store(during, key, v)).values[key] == v,
        !on_path(s.path, key) ==> begin_get_result(after_pop(after_store(during, key, v)), key, again)
            == Ok::<Lookup<P>, ProviderErrorView>(Lookup::Cached),
{
    assert(begin_get_state(s, key, name).path.drop_last() =~= s.path);
}

/// A type whose frame was opened and closed again (whether its value was
/// found, built, or its provider failed) leaves the path as it was.
pub proof fn lemma_frame_restores_path<P, V, I>(
    s: ContainerView<P, V, I>,
    key: u64,
    name: Seq<char>,
)
    requires
        begin_get_result(s, key, name) is Ok,
    ensures
        after_pop(begin_get_state(s, key, name)).path == s.path,
{
    assert(begin_get_state(s, key, name).path.drop_last() =~= s.path);
}

/// No key stands twice on a resolution path.
pub open spec fn distinct_keys(path: Seq<(u64, Seq<char>)>) -> bool {
    forall|i: int, j: int| 0 <= i < j < path.len() ==> (#[trigger] path[i]).0 != (#[trigger] path[j]).0
}

/// Every step keeps the keys on the resolution path distinct: a type is
/// never being built twice at once.
pub proof fn lemma_path_keys_stay_distinct<P, V, I>(
    pre: ContainerView<P, V, I>,
    post: ContainerView<P, V, I>,
)
    requires
        step(pre, post),
        distinct_keys(pre.path),
    ensures
        distinct_keys(post.path),
{
    if exists|k: u64, n: Seq<char>| post == #[trigger] begin_get_state(pre, k, n) {
        let (k, n) = choose|k: u64, n: Seq<char>| post == #[trigger] begin_get_state(pre, k, n);
        if !on_path(pre.path, k) && (pre.values.contains_key(k) || pre.providers.contains_key(k)) {
            assert forall|i: int, j: int| 0 <= i < j < post.path.len() implies (
            #[trigger] post.path[i]).0 != (#[trigger] post.path[j]).0 by {
                if j == pre.path.len() {
                    assert(post.path[i] == pre.path[i]);
                    assert(post.path[j].0 == k);
                } else {
                    assert(post.path[i] == pre.path[i]);
                    assert(post.path[j] == pre.path[j]);
                }
            }
        }
    } else if pre.path.len() > 0 && post == after_pop(pre) {
        assert forall|i: int, j: int| 0 <= i < j < post.path.len() implies (
        #[trigger] post.path[i]).0 != (#[trigger] post.path[j]).0 by {
            assert(post.path[i] == pre.path[i]);
            assert(post.path[j] == pre.path[j]);
        }
    }
}

/// A type asked for while it is being built is refused with a cycle error
/// (rather than a wait that never ends), and when the type is named the same
/// on its frame, the error's text marks that frame as the first occurrence.
pub proof fn lemma_cycle_error_is_readable<P, V, I>(
    s: ContainerView<P, V, I>,
    key: u64,
    name: Seq<char>,
)
    requires
        on_path(s.path, key),
        forall|i: int| 0 <= i < s.path.len() && (#[trigger] s.path[i]).0 == key ==> s.path[i].1
            == name,
    ensures
        begin_get_result(s, key, name) == Err::<Lookup<P>, ProviderErrorView>(
            ProviderErrorView::CycleDetected { entries: s.path, recurring_type: name },
        ),
        exists|before: Seq<char>, after: Seq<char>|
            cycle_text(s.path, name) == before + ("\t"@ + name + " ← first occurrence\n"@) + after,
{
    let i = choose|i: int| 0 <= i < s.path.len() && (#[trigger] s.path[i]).0 == key;
    lemma_text_marks_first_occurrence(s.path, name, i);
}

/// While the provider of a type runs, the requests it makes (nested to any
/// depth) leave the path below and including the type's own frame in
/// place, keep the keys on the path distinct, and give the type no value:
/// a value for it is kept only by the step that closes its own frame.
pub proof fn lemma_nested_requests_keep_frame<P, V, I>(
    s: ContainerView<P, V, I>,
    key: u64,
    name: Seq<char>,
    states: Seq<ContainerView<P, V, I>>,
    j: int,
)
    requires
        distinct_keys(s.path),
        begin_get_result(s, key, name) matches Ok(Lookup::Build(_)),
        is_run(states),
        states.len() > 0,
        states[0] == begin_get_state(s, key, name),
        forall|i: int| 0 <= i < states.len() ==> (#[trigger] states[i]).path.len() > s.path.len(),
        0 <= j < states.len(),
    ensures
        states[j].path.subrange(0, s.path.len() + 1 as int) == states[0].path,
        distinct_keys(states[j].path),
        !states[j].values.contains_key(key),
    decreases j,
{
    let l = s.path.len() + 1;
    if j == 0 {
        assert(step(s, states[0]));
        lemma_path_keys_stay_distinct(s, states[0]);
        assert(states[0].path.subrange(0, l as int) =~= states[0].path);
    } else {
        lemma_nested_requests_keep_frame(s, key, name, states, j - 1);
        let pre = states[j - 1];
        let post = states[j];
        assert(step(pre, post));
        lemma_path_keys_stay_distinct(pre, post);
        assert(post.path.len() >= l);
        assert(pre.path[l - 1] == states[0].path[l - 1]);
        assert(states[0].path[l - 1].0 == key);
        if exists|k: u64, n: Seq<char>| post == #[trigger] begin_get_state(pre, k, n) {
            let (k, n) = choose|k: u64, n: Seq<char>| post == #[trigger] begin_get_state(pre, k, n);
            assert(post.path.subrange(0, l as int) =~= pre.path.subrange(0, l as int));
        } else if exists|k: u64, v: V|
            frame_open(pre, k) && post == after_pop(#[trigger] after_store(pre, k, v)) {
            let (k, v) = choose|k: u64, v: V|
                frame_open(pre, k) && post == after_pop(#[trigger] after_store(pre, k, v));
            assert(pre.path.len() > l);
            if k == key {
                assert(pre.path[pre.path.len() - 1].0 == key);
                assert(false);
            }
            assert(post.path.subrange(0, l as int) =~= pre.path.subrange(0, l as int));
        } else if pre.path.len() > 0 && post == after_pop(pre) {
            assert(post.path.subrange(0, l as int) =~= pre.path.subrange(0, l as int));
        } else {
            assert(post.path == pre.path);
        }
    }
}

/// Registering a provider for `key` makes it the one handed out for `key`,
/// and leaves everything else as it was: the providers of every other key,
/// the values, the invokables and the path.
pub proof fn lemma_provide_touches_only_its_key<P, V, I>(
    s: ContainerView<P, V, I>,
    key: u64,
    p: P,
)
    ensures
        after_provide(s, key, p).providers.contains_key(key),
        after_provide(s, key, p).providers[key] == p,
        forall|k: u64|
            k != key ==> (#[trigger] after_provide(s, key, p).providers.contains_key(k)
                <==> s.providers.contains_key(k)),
        forall|k: u64|
            k != key && s.providers.contains_key(k) ==> #[trigger] after_provide(
                s,
                key,
                p,
            ).providers[k] == s.providers[k],
        after_provide(s, key, p).providers.dom() == s.providers.dom().insert(key),
        after_provide(s, key, p).values == s.values,
        after_provide(s, key, p).invokables == s.invokables,
        after_provide(s, key, p).path == s.path,
{
}

/// A request for another type is answered the same before and after a
/// provider is registered for `key`.
pub proof fn lemma_provide_leaves_other_requests<P, V, I>(
    s: ContainerView<P, V, I>,
    key: u64,
    p: P,
    other: u64,
    name: Seq<char>,
)
    requires
        other != key,
    ensures
        begin_get_result(after_provide(s, key, p), other, name) == begin_get_result(
            s,
            other,
            name,
        ),
{
}

/// Registering an invokable adds it at the end of the queue: the queue
/// before is kept as it was, in front of it.
pub proof fn lemma_invokable_appends<P, V, I>(s: ContainerView<P, V, I>, i: I)
    ensures
        after_invokable(s, i).invokables.len() == s.invokables.len() + 1,
        after_invokable(s, i).invokables[s.invokables.len() as int] == i,
        forall|j: int|
            0 <= j < s.invokables.len() ==> #[trigger] after_invokable(s, i).invokables[j]
                == s.invokables[j],
        after_invokable(s, i).invokables.subrange(0, s.invokables.len() as int) == s.invokables,
        after_invokable(s, i).values == s.values,
        after_invokable(s, i).providers == s.providers,
        after_invokable(s, i).path == s.path,
{
    assert(after_invokable(s, i).invokables.subrange(0, s.invokables.len() as int)
        =~= s.invokables);
}

/// Invokables registered one after another on an empty queue stand in the
/// queue in the order of registration.
pub proof fn lemma_invokables_in_registration_order<P, V, I>(
    s: ContainerView<P, V, I>,
    a: I,
    b: I,
    c: I,
)
    requires
        s.invokables.len() == 0,
    ensures
        after_invokable(after_invokable(after_invokable(s, a), b), c).invokables == seq![a, b, c],
{
    assert(after_invokable(after_invokable(after_invokable(s, a), b), c).invokables
        =~= seq![a, b, c]);
}

/// Taking the invokables out empties the queue and leaves the rest as it
/// was.
pub proof fn lemma_drain_empties_queue<P, V, I>(s: ContainerView<P, V, I>)
    ensures
        after_drain(s).invokables.len() == 0,
        after_drain(s).values == s.values,
        after_drain(s).providers == s.providers,
        after_drain(s).path == s.path,
{
}

/// A request that is answered `Ok` pushes exactly the requested type's frame
/// on the path, on top of the frames that were there, and keeps the values
/// and invokables: answered from the cache it keeps the providers; answered
/// with the provider it removes exactly that provider. A request answered
/// with an error changes nothing.
pub proof fn lemma_begin_get_frames<P, V, I>(s: ContainerView<P, V, I>, key: u64, name: Seq<char>)
    ensures
        begin_get_result(s, key, name) is Ok ==> {
            &&& begin_get_state(s, key, name).path.len() == s.path.len() + 1
            &&& begin_get_state(s, key, name).path.last() == (key, name)
            &&& begin_get_state(s, key, name).path.drop_last() == s.path
            &&& !on_path(s.path, key)
            &&& begin_get_state(s, key, name).values == s.values
            &&& begin_get_state(s, key, name).invokables == s.invokables
        },
        begin_get_result(s, key, name) == Ok::<Lookup<P>, ProviderErrorView>(Lookup::Cached) ==> {
            &&& s.values.contains_key(key)
            &&& begin_get_state(s, key, name).providers == s.providers
        },
        begin_get_result(s, key, name) matches Ok(Lookup::Build(p)) ==> {
            &&& !s.values.contains_key(key)
            &&& s.providers.contains_key(key)
            &&& p == s.providers[key]
            &&& !begin_get_state(s, key, name).providers.contains_key(key)
            &&& forall|k: u64|
                k != key ==> (#[trigger] begin_get_state(s, key, name).providers.contains_key(k)
                    <==> s.providers.contains_key(k))
            &&& forall|k: u64|
                k != key && s.providers.contains_key(k) ==> #[trigger] begin_get_state(
                    s,
                    key,
                    name,
                ).providers[k] == s.providers[k]
        },
        begin_get_result(s, key, name) is Err ==> begin_get_state(s, key, name) == s,
        on_path(s.path, key) <==> begin_get_result(s, key, name) matches Err(
            ProviderErrorView::CycleDetected { .. },
        ),
        (!on_path(s.path, key) && !s.values.contains_key(key) && !s.providers.contains_key(key))
            <==> begin_get_result(s, key, name) matches Err(ProviderErrorView::NoProvider { .. }),
{
    if begin_get_result(s, key, name) is Ok {
        assert(begin_get_state(s, key, name).path.drop_last() =~= s.path);
    }
}

/// Keeping a built value for `key` makes it the value of `key` and leaves
/// the values of every other key, the providers, the invokables and the
/// path as they were; closing the innermost frame removes exactly that
/// frame.
pub proof fn lemma_store_and_pop<P, V, I>(s: ContainerView<P, V, I>, key: u64, v: V)
    ensures
        after_store(s, key, v).values.contains_key(key),
        after_store(s, key, v).values[key] == v,
        forall|k: u64|
            k != key ==> (#[trigger] after_store(s, key, v).values.contains_key(k)
                <==> s.values.contains_key(k)),
        forall|k: u64|
            k != key && s.values.contains_key(k) ==> #[trigger] after_store(s, key, v).values[k]
                == s.values[k],
        after_store(s, key, v).providers == s.providers,
        after_store(s, key, v).invokables == s.invokables,
        after_store(s, key, v).path == s.path,
        s.path.len() > 0 ==> after_pop(s).path.push(s.path.last()) == s.path,
        s.path.len() > 0 ==> after_pop(s).path.len() + 1 == s.path.len(),
        after_pop(s).values == s.values,
        after_pop(s).providers == s.providers,
        after_pop(s).invokables == s.invokables,
{
    if s.path.len() > 0 {
        assert(after_pop(s).path.push(s.path.last()) =~= s.path);
    }
}

/// No step forgets or replaces a built value: a type that has a value keeps
/// that same value.
pub proof fn lemma_kept_value_never_changes<P, V, I>(
    pre: ContainerView<P, V, I>,
    post: ContainerView<P, V, I>,
    key: u64,
)
    requires
        step(pre, post),
        pre.values.contains_key(key),
    ensures
        post.values.contains_key(key),
        post.values[key] == pre.values[key],
{
}

/// A request for a type that has a value is answered from the cache, with
/// that value, whatever provider was registered for it since; and once its
/// frame is closed, the container is as it was.
pub proof fn lemma_cached_get_changes_nothing<P, V, I>(
    s: ContainerView<P, V, I>,
    key: u64,
    name: Seq<char>,
    later: P,
)
    requires
        s.values.contains_key(key),
        !on_path(s.path, key),
    ensures
        begin_get_result(s, key, name) == Ok::<Lookup<P>, ProviderErrorView>(Lookup::Cached),
        begin_get_state(s, key, name).values[key] == s.values[key],
        after_pop(begin_get_state(s, key, name)) == s,
        begin_get_result(after_provide(s, key, later), key, name) == Ok::<
            Lookup<P>,
            ProviderErrorView,
        >(Lookup::Cached),
{
    assert(begin_get_state(s, key, name).path.drop_last() =~= s.path);
}

/// Each type is built at most once: once a value for it is kept, no later
/// state of the container hands out a provider for it.
pub proof fn lemma_built_at_most_once<P, V, I>(
    states: Seq<ContainerView<P, V, I>>,
    i: int,
    j: int,
    key: u64,
    name: Seq<char>,
)
    requires
        is_run(states),
        0 <= i <= j < states.len(),
        states[i].values.contains_key(key),
    ensures
        states[j].values.contains_key(key),
        states[j].values[key] == states[i].values[key],
        !(begin_get_result(states[j], key, name) matches Ok(Lookup::Build(_))),
    decreases j - i,
{
    if j > i {
        lemma_built_at_most_once(states, i, j - 1, key, name);
        assert(step(states[j - 1], states[j]));
        lemma_kept_value_never_changes(states[j - 1], states[j], key);
    }
}

/// The bookkeeping of a dependency injection container, keyed by a numeric
/// key per type: `P` is a provider, `V` a built value, `I` an invokable.
pub struct Container<P, V, I> {
    values: HashMap<u64, V>,
    providers: HashMap<u64, P>,
    invokables: Vec<I>,
    resolution_path: Vec<ResolutionEntry>,
}

impl<P, V, I> View for Container<P, V, I> {
    type V = ContainerView<P, V, I>;

    closed spec fn view(&self) -> ContainerView<P, V, I> {
        ContainerView {
            values: self.values@,
            providers: self.providers@,
            invokables: self.invokables@,
            path: entry_views(self.resolution_path@),
        }
    }
}

impl<P, V, I> Container<P, V, I> {
    /// An empty container.
    pub fn new() -> (c: Self)
        ensures
            c@.values == Map::<u64, V>::empty(),
            c@.providers == Map::<u64, P>::empty(),
            c@.invokables == Seq::<I>::empty(),
            c@.path == Seq::<(u64, Seq<char>)>::empty(),
    {
        let c = Container {
            values: HashMap::new(),
            providers: HashMap::new(),
            invokables: Vec::new(),
            resolution_path: Vec::new(),
        };
        assert(entry_views(c.resolution_path@) =~= Seq::<(u64, Seq<char>)>::empty());
        c
    }

    /// Registers `p` as the provider of the type `key`, replacing an earlier
    /// one. The provider does not run now.
    pub fn provide(&mut self, key: u64, p: P)
        ensures
            final(self)@ == after_provide(old(self)@, key, p),
    {
        self.providers.insert(key, p);
    }

    /// Registers an invokable, to run at the next `start_invoke`.
    pub fn invokable(&mut self, i: I)
        ensures
            final(self)@ == after_invokable(old(self)@, i),
    {
        self.invokables.push(i);
    }

    /// Begins resolving the type `key` named `name`. A type on the
    /// resolution path is a cycle; else the type's frame is pushed on the
    /// path, and the answer is `Cached` when a value was built before, or
    /// the type's provider, which leaves the container. With neither, the
    /// answer is `NoProvider` and the path is as before.
    pub fn begin_get(&mut self, key: u64, name: String) -> (res: Result<Lookup<P>, ProviderError>)
        ensures
            lookup_view(res) == begin_get_result(old(self)@, key, name@),
            final(self)@ == begin_get_state(old(self)@, key, name@),
    {
        let n = self.resolution_path.len();
        let ghost path = entry_views(self.resolution_path@);
        let mut i: usize = 0;
        while i < n
            invariant
                n == self.resolution_path@.len(),
                path == entry_views(self.resolution_path@),
                i <= n,
                forall|j: int| 0 <= j < i ==> (#[trigger] path[j]).0 != key,
            decreases n - i,
        {
            if self.resolution_path[i].type_id == key {
                assert(path[i as int].0 == key);
                return Err(ProviderError::cycle(self.resolution_path.as_slice(), name));
            }
            i = i + 1;
        }
        assert(!on_path(path, key));
        let entry = ResolutionEntry { type_id: key, name: name.clone() };
        self.resolution_path.push(entry);
        assert(entry_views(self.resolution_path@) =~= path.push((key, name@)));
        if self.values.contains_key(&key) {
            return Ok(Lookup::Cached);
        }
        let ghost providers = self.providers@;
        match self.providers.remove(&key) {
            Some(p) => Ok(Lookup::Build(p)),
            None => {
                self.resolution_path.pop();
                assert(self.providers@ =~= providers);
                assert(entry_views(self.resolution_path@) =~= path);
                Err(ProviderError::NoProvider { name, type_id: key })
            },
        }
    }

    /// Reports the outcome of the provider of `key`, whose frame is
    /// innermost, and closes that frame: a built value is kept and handed
    /// back; an error is handed back as it came.
    pub fn finish_build<E>(&mut self, key: u64, outcome: Result<V, E>) -> (res: Result<&V, E>)
        requires
            frame_open(old(self)@, key),
        ensures
            match outcome {
                Ok(v) => res matches Ok(r) && *r == v && final(self)@ == after_pop(
                    after_store(old(self)@, key, v),
                ),
                Err(e) => res == Err::<&V, E>(e) && final(self)@ == after_pop(old(self)@),
            },
    {
        match outcome {
            Ok(v) => {
                self.values.insert(key, v);
                self.close_frame();
                Ok(self.values.get(&key).unwrap())
            },
            Err(e) => {
                self.close_frame();
                Err(e)
            },
        }
    }

    /// Closes the frame of `key`, a type answered from the cache, and hands
    /// back its value.
    pub fn close_cached(&mut self, key: u64) -> (res: &V)
        requires
            old(self)@.path.len() > 0,
            old(self)@.path.last().0 == key,
            old(self)@.values.contains_key(key),
        ensures
            *res == old(self)@.values[key],
            final(self)@ == after_pop(old(self)@),
    {
        self.close_frame();
        self.values.get(&key).unwrap()
    }

    /// The key of the innermost frame of the resolution path, if any.
    pub fn innermost(&self) -> (r: Option<u64>)
        ensures
            r == (if self@.path.len() > 0 {
                Some(self@.path.last().0)
            } else {
                None::<u64>
            }),
    {
        let n = self.resolution_path.len();
        if n == 0 {
            None
        } else {
            Some(self.resolution_path[n - 1].type_id)
        }
    }

    /// Whether a value was built for `key`.
    pub fn has_value(&self, key: u64) -> (b: bool)
        ensures
            b == self@.values.contains_key(key),
    {
        self.values.contains_key(&key)
    }

    /// Closes the innermost frame of the resolution path.
    fn close_frame(&mut self)
        ensures
            final(self)@ == after_pop(old(self)@),
    {
        let ghost path = entry_views(self.resolution_path@);
        self.resolution_path.pop();
        assert(entry_views(self.resolution_path@) =~= path_popped(path));
    }

    /// Takes all registered invokables out, in order, to be run; the queue
    /// is left empty.
    pub fn start_invoke(&mut self) -> (run: InvokeRun<I>)
        ensures
            final(self)@ == after_drain(old(self)@),
            run.wf(),
            run.started() == old(self)@.invokables,
            run.handed() == Seq::<I>::empty(),
            run.pending() == old(self)@.invokables,
    {
        let mut queue: Vec<I> = Vec::new();
        std::mem::swap(&mut queue, &mut self.invokables);
        InvokeRun::new(queue)
    }
}

impl<P, V, I> Default for Container<P, V, I> {
    /// An empty container.
    fn default() -> (c: Self)
        ensures
            c@.values == Map::<u64, V>::empty(),
            c@.providers == Map::<u64, P>::empty(),
            c@.invokables == Seq::<I>::empty(),
            c@.path == Seq::<(u64, Seq<char>)>::empty(),
    {
        Self::new()
    }
}

} // verus!
