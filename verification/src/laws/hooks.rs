//! Laws on predicates: how they come, become active, and go.

use vstd::prelude::*;

use crate::hooks::{
    active_hooks, enabled_hook, has_hook, is_active, is_first_hook, position_of, with_hook_enabled,
    with_hook_expired, without_hook, MultiNetworkChainhook, NetworkChainhook,
};
use crate::laws::filter_keeps_what_passes;

verus! {

/// At most one hook has the given uuid.
pub open spec fn is_unique<N>(hooks: Seq<NetworkChainhook<N>>, uuid: Seq<char>) -> bool {
    forall|i: int, j: int|
        0 <= i < j < hooks.len() ==> !((#[trigger] hooks[i]).uuid@ == uuid && (
        #[trigger] hooks[j]).uuid@ == uuid)
}

/// Where some hook up to `i` has a uuid, one of them is the first that has it.
proof fn first_hook_exists<N>(hooks: Seq<NetworkChainhook<N>>, uuid: Seq<char>, i: int)
    requires
        0 <= i < hooks.len(),
        hooks[i].uuid@ == uuid,
    ensures
        exists|j: int| is_first_hook(hooks, uuid, j),
    decreases i,
{
    if forall|j: int| 0 <= j < i ==> #[trigger] hooks[j].uuid@ != uuid {
        assert(is_first_hook(hooks, uuid, i));
    } else {
        let j = choose|j: int| 0 <= j < i && #[trigger] hooks[j].uuid@ == uuid;
        first_hook_exists(hooks, uuid, j);
    }
}

/// A hook is found exactly if it is in the store.
pub proof fn hook_is_found_iff_present<N>(hooks: Seq<NetworkChainhook<N>>, uuid: Seq<char>)
    ensures
        has_hook(hooks, uuid) <==> exists|i: int|
            0 <= i < hooks.len() && (#[trigger] hooks[i]).uuid@ == uuid,
{
    if has_hook(hooks, uuid) {
        let i = choose|i: int| is_first_hook(hooks, uuid, i);
        assert(hooks[i].uuid@ == uuid);
    }
    if exists|i: int| 0 <= i < hooks.len() && (#[trigger] hooks[i]).uuid@ == uuid {
        let i = choose|i: int| 0 <= i < hooks.len() && (#[trigger] hooks[i]).uuid@ == uuid;
        first_hook_exists(hooks, uuid, i);
    }
}

/// The position of a hook whose uuid no other hook has.
proof fn position_is_unique<N>(hooks: Seq<NetworkChainhook<N>>, uuid: Seq<char>, i: int)
    requires
        is_first_hook(hooks, uuid, i),
    ensures
        position_of(hooks, uuid) == Some(i),
{
    let j = choose|j: int| is_first_hook(hooks, uuid, j);
    assert(is_first_hook(hooks, uuid, j));
    if j < i {
        assert(hooks[j].uuid@ != uuid);
    }
    if i < j {
        assert(hooks[i].uuid@ != uuid);
    }
}

/// A deregistered hook is no longer in the store, and one fewer hook is.
pub proof fn deregistered_hook_is_gone<N>(hooks: Seq<NetworkChainhook<N>>, uuid: Seq<char>)
    requires
        is_unique(hooks, uuid),
    ensures
        !has_hook(without_hook(hooks, uuid), uuid),
        has_hook(hooks, uuid) ==> without_hook(hooks, uuid).len() == hooks.len() - 1,
        !has_hook(hooks, uuid) ==> without_hook(hooks, uuid) == hooks,
{
    let after = without_hook(hooks, uuid);
    hook_is_found_iff_present(after, uuid);
    if has_hook(hooks, uuid) {
        let i = position_of(hooks, uuid)->0;
        assert(is_first_hook(hooks, uuid, i));
        assert forall|j: int| 0 <= j < after.len() implies (#[trigger] after[j]).uuid@ != uuid by {
            if j < i {
                assert(after[j] == hooks[j]);
            } else {
                assert(after[j] == hooks[j + 1]);
                assert(hooks[i].uuid@ == uuid);
            }
        }
    }
}

/// A uuid that at most one hook has stays so when a hook is deregistered.
pub proof fn deregistration_keeps_uuid_unique<N>(
    hooks: Seq<NetworkChainhook<N>>,
    removed: Seq<char>,
    uuid: Seq<char>,
)
    requires
        is_unique(hooks, uuid),
    ensures
        is_unique(without_hook(hooks, removed), uuid),
{
    let after = without_hook(hooks, removed);
    if has_hook(hooks, removed) {
        let i = position_of(hooks, removed)->0;
        assert(is_first_hook(hooks, removed, i));
        assert forall|j: int, k: int| 0 <= j < k < after.len() implies !((
        #[trigger] after[j]).uuid@ == uuid && (#[trigger] after[k]).uuid@ == uuid) by {
            let jj = if j < i { j } else { j + 1 };
            let kk = if k < i { k } else { k + 1 };
            assert(after[j] == hooks[jj] && after[k] == hooks[kk]);
        }
    }
}

/// To deregister one hook leaves every other one in the store.
pub proof fn deregistration_spares_other_hooks<N>(
    hooks: Seq<NetworkChainhook<N>>,
    uuid: Seq<char>,
    other: Seq<char>,
)
    requires
        other != uuid,
    ensures
        has_hook(without_hook(hooks, uuid), other) == has_hook(hooks, other),
{
    let after = without_hook(hooks, uuid);
    hook_is_found_iff_present(hooks, other);
    hook_is_found_iff_present(after, other);
    if has_hook(hooks, uuid) {
        let i = position_of(hooks, uuid)->0;
        assert(is_first_hook(hooks, uuid, i));
        if has_hook(hooks, other) {
            let j = choose|j: int| 0 <= j < hooks.len() && (#[trigger] hooks[j]).uuid@ == other;
            let jj = if j < i { j } else { j - 1 };
            assert(after[jj] == hooks[j]);
        }
        if has_hook(after, other) {
            let j = choose|j: int| 0 <= j < after.len() && (#[trigger] after[j]).uuid@ == other;
            let jj = if j < i { j } else { j + 1 };
            assert(after[j] == hooks[jj]);
        }
    }
}

/// To deregister a hook that was just registered under a new uuid leads back to
/// the store as it was.
pub proof fn deregistration_undoes_registration<N>(
    hooks: Seq<NetworkChainhook<N>>,
    hook: NetworkChainhook<N>,
)
    requires
        !has_hook(hooks, hook.uuid@),
    ensures
        without_hook(hooks.push(hook), hook.uuid@) == hooks,
{
    let registered = hooks.push(hook);
    hook_is_found_iff_present(hooks, hook.uuid@);
    assert forall|j: int| 0 <= j < hooks.len() implies #[trigger] registered[j].uuid@
        != hook.uuid@ by {
        assert(registered[j] == hooks[j]);
    }
    assert(is_first_hook(registered, hook.uuid@, hooks.len() as int));
    position_is_unique(registered, hook.uuid@, hooks.len() as int);
    assert(registered.remove(hooks.len() as int) =~= hooks);
}

/// Exactly the hooks that are enabled and not expired are active.
pub proof fn active_hooks_are_enabled_and_not_expired<N>(
    hooks: Seq<NetworkChainhook<N>>,
    hook: NetworkChainhook<N>,
)
    ensures
        active_hooks(hooks).contains(hook) <==> hooks.contains(hook) && hook.enabled
            && hook.expired_at is None,
{
    filter_keeps_what_passes(hooks, |hook: NetworkChainhook<N>| is_active(hook), hook);
}

/// Only a hook in the store is active.
pub proof fn active_hook_is_present<N>(hooks: Seq<NetworkChainhook<N>>, uuid: Seq<char>)
    ensures
        has_hook(active_hooks(hooks), uuid) ==> has_hook(hooks, uuid),
{
    let active = active_hooks(hooks);
    hook_is_found_iff_present(active, uuid);
    hook_is_found_iff_present(hooks, uuid);
    if has_hook(active, uuid) {
        let i = choose|i: int| 0 <= i < active.len() && (#[trigger] active[i]).uuid@ == uuid;
        assert(active.contains(active[i]));
        active_hooks_are_enabled_and_not_expired(hooks, active[i]);
        let j = choose|j: int| 0 <= j < hooks.len() && hooks[j] == active[i];
        assert(hooks[j].uuid@ == uuid);
    }
}

/// A client's predicate is not active when it is registered: the active hooks
/// stay as they are.
pub proof fn registered_hook_is_not_active<N>(
    hooks: Seq<NetworkChainhook<N>>,
    predicate: MultiNetworkChainhook<N>,
    network: N,
)
    requires
        predicate.on(network) is Some,
    ensures
        !is_active(predicate.on(network)->0),
        active_hooks(hooks.push(predicate.on(network)->0)) == active_hooks(hooks),
{
    reveal(Seq::filter);
    let hook = predicate.on(network)->0;
    assert(hooks.push(hook).drop_last() =~= hooks);
}

/// To enable a hook that was registered under a new uuid makes it active, behind
/// those that were.
pub proof fn enabled_hook_is_active<N>(
    hooks: Seq<NetworkChainhook<N>>,
    hook: NetworkChainhook<N>,
)
    requires
        !has_hook(hooks, hook.uuid@),
        hook.expired_at is None,
    ensures
        with_hook_enabled(hooks.push(hook), hook.uuid@) == hooks.push(enabled_hook(hook)),
        active_hooks(with_hook_enabled(hooks.push(hook), hook.uuid@)) == active_hooks(hooks).push(
            enabled_hook(hook),
        ),
{
    reveal(Seq::filter);
    let registered = hooks.push(hook);
    hook_is_found_iff_present(hooks, hook.uuid@);
    assert forall|j: int| 0 <= j < hooks.len() implies #[trigger] registered[j].uuid@
        != hook.uuid@ by {
        assert(registered[j] == hooks[j]);
    }
    assert(is_first_hook(registered, hook.uuid@, hooks.len() as int));
    position_is_unique(registered, hook.uuid@, hooks.len() as int);
    assert(with_hook_enabled(registered, hook.uuid@) =~= hooks.push(enabled_hook(hook)));
    assert(hooks.push(enabled_hook(hook)).drop_last() =~= hooks);
}

/// An expired hook stays in the store, and is not active.
pub proof fn expired_hook_is_not_active<N>(
    hooks: Seq<NetworkChainhook<N>>,
    uuid: Seq<char>,
    block_height: u64,
)
    requires
        is_unique(hooks, uuid),
    ensures
        with_hook_expired(hooks, uuid, block_height).len() == hooks.len(),
        has_hook(with_hook_expired(hooks, uuid, block_height), uuid) == has_hook(hooks, uuid),
        forall|i: int|
            0 <= i < active_hooks(with_hook_expired(hooks, uuid, block_height)).len() ==> (
            #[trigger] active_hooks(with_hook_expired(hooks, uuid, block_height))[i]).uuid@ != uuid,
{
    let after = with_hook_expired(hooks, uuid, block_height);
    hook_is_found_iff_present(hooks, uuid);
    hook_is_found_iff_present(after, uuid);
    if has_hook(hooks, uuid) {
        let i = position_of(hooks, uuid)->0;
        assert(is_first_hook(hooks, uuid, i));
        assert(after[i].uuid@ == uuid);
    }
    assert forall|j: int| 0 <= j < active_hooks(after).len() implies (
    #[trigger] active_hooks(after)[j]).uuid@ != uuid by {
        let hook = active_hooks(after)[j];
        assert(active_hooks(after).contains(hook));
        active_hooks_are_enabled_and_not_expired(after, hook);
        let k = choose|k: int| 0 <= k < after.len() && after[k] == hook;
        if hook.uuid@ == uuid {
            let i = position_of(hooks, uuid)->0;
            assert(is_first_hook(hooks, uuid, i)) by {
                assert(hooks[k].uuid@ == uuid);
            }
            assert(hooks[k].uuid@ == uuid);
            if k < i {
                assert(!(hooks[k].uuid@ == uuid && hooks[i].uuid@ == uuid));
            } else if i < k {
                assert(!(hooks[i].uuid@ == uuid && hooks[k].uuid@ == uuid));
            }
        }
    }
}

} // verus!
