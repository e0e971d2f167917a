//! Chainhooks: the predicates that clients register, and the store that holds
//! them.

use vstd::prelude::*;

use crate::network::{BitcoinNetwork, StacksNetwork};
use crate::text::same_text;

verus! {

/// A predicate registered for one network. What it matches and what it does
/// travels in `content`, in serialised form.
#[derive(Debug, PartialEq)]
pub struct NetworkChainhook<N> {
    pub uuid: String,
    pub owner_uuid: Option<String>,
    pub name: String,
    pub version: u32,
    pub network: N,
    pub expire_after_occurrence: Option<u64>,
    pub enabled: bool,
    pub expired_at: Option<u64>,
    pub content: String,
}

pub type BitcoinChainhookSpecification = NetworkChainhook<BitcoinNetwork>;

pub type StacksChainhookSpecification = NetworkChainhook<StacksNetwork>;

impl<N: Copy> Clone for NetworkChainhook<N> {
    fn clone(&self) -> (copy: Self)
        ensures
            copy == *self,
    {
        let owner_uuid = match &self.owner_uuid {
            Some(owner) => Some(owner.clone()),
            None => None,
        };
        NetworkChainhook {
            uuid: self.uuid.clone(),
            owner_uuid,
            name: self.name.clone(),
            version: self.version,
            network: self.network,
            expire_after_occurrence: self.expire_after_occurrence,
            enabled: self.enabled,
            expired_at: self.expired_at,
            content: self.content.clone(),
        }
    }
}

/// A predicate of either chain.
#[derive(Debug, PartialEq)]
pub enum ChainhookSpecification {
    Bitcoin(BitcoinChainhookSpecification),
    Stacks(StacksChainhookSpecification),
}

impl Clone for ChainhookSpecification {
    fn clone(&self) -> (copy: Self)
        ensures
            copy == *self,
    {
        match self {
            ChainhookSpecification::Bitcoin(hook) => ChainhookSpecification::Bitcoin(hook.clone()),
            ChainhookSpecification::Stacks(hook) => ChainhookSpecification::Stacks(hook.clone()),
        }
    }
}

/// What a predicate is on one of its networks.
#[derive(Clone, Debug, PartialEq)]
pub struct ChainhookOnNetwork<N> {
    pub network: N,
    pub expire_after_occurrence: Option<u64>,
    pub content: String,
}

/// A predicate as a client sends it, with a section for each network.
#[derive(Clone, Debug, PartialEq)]
pub struct MultiNetworkChainhook<N> {
    pub uuid: String,
    pub owner_uuid: Option<String>,
    pub name: String,
    pub version: u32,
    pub networks: Vec<ChainhookOnNetwork<N>>,
}

/// A client's predicate for either chain.
#[derive(Clone, Debug, PartialEq)]
pub enum ChainhookFullSpecification {
    Bitcoin(MultiNetworkChainhook<BitcoinNetwork>),
    Stacks(MultiNetworkChainhook<StacksNetwork>),
}

/// The section at `i` is the first one for `network`.
pub open spec fn is_first_section<N>(
    sections: Seq<ChainhookOnNetwork<N>>,
    network: N,
    i: int,
) -> bool {
    &&& 0 <= i < sections.len()
    &&& sections[i].network == network
    &&& forall|j: int| 0 <= j < i ==> #[trigger] sections[j].network != network
}

impl<N> MultiNetworkChainhook<N> {
    /// The predicate for one network: that of the section for the network, not
    /// yet enabled. There is none where the predicate has no such section.
    pub open spec fn on(self, network: N) -> Option<NetworkChainhook<N>> {
        if exists|i: int| is_first_section(self.networks@, network, i) {
            let section = self.networks@[choose|i: int|
                is_first_section(self.networks@, network, i)];
            Some(
                NetworkChainhook {
                    uuid: self.uuid,
                    owner_uuid: self.owner_uuid,
                    name: self.name,
                    version: self.version,
                    network,
                    expire_after_occurrence: section.expire_after_occurrence,
                    enabled: false,
                    expired_at: None,
                    content: section.content,
                },
            )
        } else {
            None
        }
    }

    /// Turns the predicate into that of the section at `i`.
    fn into_section(self, i: usize, network: N) -> (hook: NetworkChainhook<N>)
        requires
            is_first_section(self.networks@, network, i as int),
        ensures
            self.on(network) == Some(hook),
    {
        let content = self.networks[i].content.clone();
        let expire_after_occurrence = self.networks[i].expire_after_occurrence;
        NetworkChainhook {
            uuid: self.uuid,
            owner_uuid: self.owner_uuid,
            name: self.name,
            version: self.version,
            network,
            expire_after_occurrence,
            enabled: false,
            expired_at: None,
            content,
        }
    }
}

impl MultiNetworkChainhook<BitcoinNetwork> {
    /// The predicate for one network, where it has a section for it.
    pub fn into_selected_network_specification(self, network: BitcoinNetwork) -> (hook: Option<
        BitcoinChainhookSpecification,
    >)
        ensures
            hook == self.on(network),
    {
        let mut i: usize = 0;
        while i < self.networks.len() && self.networks[i].network != network
            invariant
                i <= self.networks.len(),
                forall|j: int| 0 <= j < i ==> #[trigger] self.networks@[j].network != network,
            decreases self.networks.len() - i,
        {
            i += 1;
        }
        if i < self.networks.len() {
            Some(self.into_section(i, network))
        } else {
            None
        }
    }
}

impl MultiNetworkChainhook<StacksNetwork> {
    /// The predicate for one network, where it has a section for it.
    pub fn into_selected_network_specification(self, network: StacksNetwork) -> (hook: Option<
        StacksChainhookSpecification,
    >)
        ensures
            hook == self.on(network),
    {
        let mut i: usize = 0;
        while i < self.networks.len() && self.networks[i].network != network
            invariant
                i <= self.networks.len(),
                forall|j: int| 0 <= j < i ==> #[trigger] self.networks@[j].network != network,
            decreases self.networks.len() - i,
        {
            i += 1;
        }
        if i < self.networks.len() {
            Some(self.into_section(i, network))
        } else {
            None
        }
    }
}

/// The hook at `i` is the first one with the given uuid.
pub open spec fn is_first_hook<N>(hooks: Seq<NetworkChainhook<N>>, uuid: Seq<char>, i: int) -> bool {
    &&& 0 <= i < hooks.len()
    &&& hooks[i].uuid@ == uuid
    &&& forall|j: int| 0 <= j < i ==> #[trigger] hooks[j].uuid@ != uuid
}

/// Where the first hook with the given uuid stands, if there is one.
pub open spec fn position_of<N>(hooks: Seq<NetworkChainhook<N>>, uuid: Seq<char>) -> Option<int> {
    if exists|i: int| is_first_hook(hooks, uuid, i) {
        Some(choose|i: int| is_first_hook(hooks, uuid, i))
    } else {
        None
    }
}

/// Whether some hook has the given uuid.
pub open spec fn has_hook<N>(hooks: Seq<NetworkChainhook<N>>, uuid: Seq<char>) -> bool {
    position_of(hooks, uuid) is Some
}

/// The hooks without the first one with the given uuid.
pub open spec fn without_hook<N>(hooks: Seq<NetworkChainhook<N>>, uuid: Seq<char>) -> Seq<
    NetworkChainhook<N>,
> {
    match position_of(hooks, uuid) {
        Some(i) => hooks.remove(i),
        None => hooks,
    }
}

/// A hook, enabled.
pub open spec fn enabled_hook<N>(hook: NetworkChainhook<N>) -> NetworkChainhook<N> {
    NetworkChainhook { enabled: true, ..hook }
}

/// The hooks with the first one with the given uuid enabled.
pub open spec fn with_hook_enabled<N>(hooks: Seq<NetworkChainhook<N>>, uuid: Seq<char>) -> Seq<
    NetworkChainhook<N>,
> {
    match position_of(hooks, uuid) {
        Some(i) => hooks.update(i, enabled_hook(hooks[i])),
        None => hooks,
    }
}

/// The hooks with the first one with the given uuid expired at a height.
pub open spec fn with_hook_expired<N>(
    hooks: Seq<NetworkChainhook<N>>,
    uuid: Seq<char>,
    block_height: u64,
) -> Seq<NetworkChainhook<N>> {
    match position_of(hooks, uuid) {
        Some(i) => hooks.update(
            i,
            NetworkChainhook { expired_at: Some(block_height), ..hooks[i] },
        ),
        None => hooks,
    }
}

/// Whether chain events are evaluated against a hook.
pub open spec fn is_active<N>(hook: NetworkChainhook<N>) -> bool {
    hook.enabled && hook.expired_at is None
}

/// The hooks that chain events are evaluated against, in the order in which
/// they were registered.
pub open spec fn active_hooks<N>(hooks: Seq<NetworkChainhook<N>>) -> Seq<NetworkChainhook<N>> {
    hooks.filter(|hook: NetworkChainhook<N>| is_active(hook))
}

/// Finds the first hook with the given uuid.
fn find_hook<N>(hooks: &Vec<NetworkChainhook<N>>, uuid: &str) -> (position: Option<usize>)
    ensures
        match position {
            Some(i) => is_first_hook(hooks@, uuid@, i as int) && position_of(hooks@, uuid@) == Some(
                i as int,
            ),
            None => position_of(hooks@, uuid@) is None,
        },
{
    let mut i: usize = 0;
    while i < hooks.len()
        invariant
            i <= hooks.len(),
            forall|j: int| 0 <= j < i ==> #[trigger] hooks@[j].uuid@ != uuid@,
        decreases hooks.len() - i,
    {
        if same_text(hooks[i].uuid.as_str(), uuid) {
            assert(is_first_hook(hooks@, uuid@, i as int));
            return Some(i);
        }
        i += 1;
    }
    None
}

/// Removes the first hook with the given uuid.
fn remove_hook<N>(hooks: &mut Vec<NetworkChainhook<N>>, uuid: &str) -> (removed: Option<
    NetworkChainhook<N>,
>)
    ensures
        final(hooks)@ == without_hook(old(hooks)@, uuid@),
        match position_of(old(hooks)@, uuid@) {
            Some(i) => removed == Some(old(hooks)@[i]),
            None => removed is None,
        },
{
    match find_hook(hooks, uuid) {
        Some(i) => Some(hooks.remove(i)),
        None => None,
    }
}

/// Enables the first hook with the given uuid, and tells whether there is one.
fn enable_hook<N>(hooks: &mut Vec<NetworkChainhook<N>>, uuid: &str) -> (found: bool)
    ensures
        final(hooks)@ == with_hook_enabled(old(hooks)@, uuid@),
        found == has_hook(old(hooks)@, uuid@),
{
    match find_hook(hooks, uuid) {
        Some(i) => {
            hooks[i].enabled = true;
            true
        },
        None => false,
    }
}

/// Marks the first hook with the given uuid as expired at a height.
fn expire_hook<N>(hooks: &mut Vec<NetworkChainhook<N>>, uuid: &str, block_height: u64)
    ensures
        final(hooks)@ == with_hook_expired(old(hooks)@, uuid@, block_height),
{
    if let Some(i) = find_hook(hooks, uuid) {
        hooks[i].expired_at = Some(block_height);
    }
}

/// Copies the hooks that chain events are evaluated against.
fn select_active<N: Copy>(hooks: &Vec<NetworkChainhook<N>>) -> (active: Vec<NetworkChainhook<N>>)
    ensures
        active@ == active_hooks(hooks@),
{
    let mut active: Vec<NetworkChainhook<N>> = Vec::new();
    for i in 0..hooks.len()
        invariant
            active@ == active_hooks(hooks@.take(i as int)),
    {
        if hooks[i].enabled && hooks[i].expired_at.is_none() {
            active.push(hooks[i].clone());
        }
        proof {
            reveal(Seq::filter);
            assert(hooks@.take(i + 1).drop_last() =~= hooks@.take(i as int));
        }
    }
    assert(hooks@.take(hooks@.len() as int) =~= hooks@);
    active
}

/// The registered hooks of both chains.
#[derive(Clone, Debug)]
pub struct ChainhookConfig {
    pub stacks_chainhooks: Vec<StacksChainhookSpecification>,
    pub bitcoin_chainhooks: Vec<BitcoinChainhookSpecification>,
}

impl ChainhookConfig {
    /// Adds a client's predicate as it is on the observed network of its chain.
    /// One that has no section for that network is refused.
    pub fn register_full_specification(
        &mut self,
        networks: (&BitcoinNetwork, &StacksNetwork),
        hook: ChainhookFullSpecification,
    ) -> (registered: Option<ChainhookSpecification>)
        ensures
            match hook {
                ChainhookFullSpecification::Bitcoin(hook) => {
                    &&& final(self).stacks_chainhooks == old(self).stacks_chainhooks
                    &&& match hook.on(*networks.0) {
                        Some(spec) => {
                            &&& final(self).bitcoin_chainhooks@ == old(
                                self,
                            ).bitcoin_chainhooks@.push(spec)
                            &&& registered == Some(ChainhookSpecification::Bitcoin(spec))
                        },
                        None => {
                            &&& final(self).bitcoin_chainhooks == old(self).bitcoin_chainhooks
                            &&& registered is None
                        },
                    }
                },
                ChainhookFullSpecification::Stacks(hook) => {
                    &&& final(self).bitcoin_chainhooks == old(self).bitcoin_chainhooks
                    &&& match hook.on(*networks.1) {
                        Some(spec) => {
                            &&& final(self).stacks_chainhooks@ == old(
                                self,
                            ).stacks_chainhooks@.push(spec)
                            &&& registered == Some(ChainhookSpecification::Stacks(spec))
                        },
                        None => {
                            &&& final(self).stacks_chainhooks == old(self).stacks_chainhooks
                            &&& registered is None
                        },
                    }
                },
            },
    {
        match hook {
            ChainhookFullSpecification::Bitcoin(hook) => {
                match hook.into_selected_network_specification(*networks.0) {
                    Some(spec) => {
                        self.bitcoin_chainhooks.push(spec.clone());
                        Some(ChainhookSpecification::Bitcoin(spec))
                    },
                    None => None,
                }
            },
            ChainhookFullSpecification::Stacks(hook) => {
                match hook.into_selected_network_specification(*networks.1) {
                    Some(spec) => {
                        self.stacks_chainhooks.push(spec.clone());
                        Some(ChainhookSpecification::Stacks(spec))
                    },
                    None => None,
                }
            },
        }
    }

    /// Enables the hook that has the uuid of `spec`; where there is one, marks
    /// `spec` as enabled too.
    pub fn enable_specification(&mut self, spec: &mut ChainhookSpecification)
        ensures
            match *old(spec) {
                ChainhookSpecification::Bitcoin(hook) => {
                    &&& final(self).stacks_chainhooks == old(self).stacks_chainhooks
                    &&& final(self).bitcoin_chainhooks@ == with_hook_enabled(
                        old(self).bitcoin_chainhooks@,
                        hook.uuid@,
                    )
                    &&& *final(spec) == ChainhookSpecification::Bitcoin(
                        if has_hook(old(self).bitcoin_chainhooks@, hook.uuid@) {
                            enabled_hook(hook)
                        } else {
                            hook
                        },
                    )
                },
                ChainhookSpecification::Stacks(hook) => {
                    &&& final(self).bitcoin_chainhooks == old(self).bitcoin_chainhooks
                    &&& final(self).stacks_chainhooks@ == with_hook_enabled(
                        old(self).stacks_chainhooks@,
                        hook.uuid@,
                    )
                    &&& *final(spec) == ChainhookSpecification::Stacks(
                        if has_hook(old(self).stacks_chainhooks@, hook.uuid@) {
                            enabled_hook(hook)
                        } else {
                            hook
                        },
                    )
                },
            },
    {
        match spec {
            ChainhookSpecification::Bitcoin(hook) => {
                if enable_hook(&mut self.bitcoin_chainhooks, hook.uuid.as_str()) {
                    hook.enabled = true;
                }
            },
            ChainhookSpecification::Stacks(hook) => {
                if enable_hook(&mut self.stacks_chainhooks, hook.uuid.as_str()) {
                    hook.enabled = true;
                }
            },
        }
    }

    /// Removes the Bitcoin hook with the given uuid, and hands it back.
    pub fn deregister_bitcoin_hook(&mut self, hook_uuid: &str) -> (removed: Option<
        BitcoinChainhookSpecification,
    >)
        ensures
            final(self).stacks_chainhooks == old(self).stacks_chainhooks,
            final(self).bitcoin_chainhooks@ == without_hook(
                old(self).bitcoin_chainhooks@,
                hook_uuid@,
            ),
            match position_of(old(self).bitcoin_chainhooks@, hook_uuid@) {
                Some(i) => removed == Some(old(self).bitcoin_chainhooks@[i]),
                None => removed is None,
            },
    {
        remove_hook(&mut self.bitcoin_chainhooks, hook_uuid)
    }

    /// Removes the Stacks hook with the given uuid, and hands it back.
    pub fn deregister_stacks_hook(&mut self, hook_uuid: &str) -> (removed: Option<
        StacksChainhookSpecification,
    >)
        ensures
            final(self).bitcoin_chainhooks == old(self).bitcoin_chainhooks,
            final(self).stacks_chainhooks@ == without_hook(
                old(self).stacks_chainhooks@,
                hook_uuid@,
            ),
            match position_of(old(self).stacks_chainhooks@, hook_uuid@) {
                Some(i) => removed == Some(old(self).stacks_chainhooks@[i]),
                None => removed is None,
            },
    {
        remove_hook(&mut self.stacks_chainhooks, hook_uuid)
    }

    /// Marks the Bitcoin hook with the given uuid as expired at a height.
    pub fn expire_bitcoin_hook(&mut self, hook_uuid: &str, block_height: u64)
        ensures
            final(self).stacks_chainhooks == old(self).stacks_chainhooks,
            final(self).bitcoin_chainhooks@ == with_hook_expired(
                old(self).bitcoin_chainhooks@,
                hook_uuid@,
                block_height,
            ),
    {
        expire_hook(&mut self.bitcoin_chainhooks, hook_uuid, block_height);
    }

    /// Marks the Stacks hook with the given uuid as expired at a height.
    pub fn expire_stacks_hook(&mut self, hook_uuid: &str, block_height: u64)
        ensures
            final(self).bitcoin_chainhooks == old(self).bitcoin_chainhooks,
            final(self).stacks_chainhooks@ == with_hook_expired(
                old(self).stacks_chainhooks@,
                hook_uuid@,
                block_height,
            ),
    {
        expire_hook(&mut self.stacks_chainhooks, hook_uuid, block_height);
    }

    /// The Bitcoin hooks that chain events are evaluated against.
    pub fn active_bitcoin_hooks(&self) -> (active: Vec<BitcoinChainhookSpecification>)
        ensures
            active@ == active_hooks(self.bitcoin_chainhooks@),
    {
        select_active(&self.bitcoin_chainhooks)
    }

    /// The Stacks hooks that chain events are evaluated against.
    pub fn active_stacks_hooks(&self) -> (active: Vec<StacksChainhookSpecification>)
        ensures
            active@ == active_hooks(self.stacks_chainhooks@),
    {
        select_active(&self.stacks_chainhooks)
    }
}

/// The observer's store of predicates.
#[derive(Clone, Debug)]
pub struct ChainhookStore {
    pub predicates: ChainhookConfig,
}

impl ChainhookStore {
    /// An empty store.
    pub fn new() -> (store: Self)
        ensures
            store.predicates.stacks_chainhooks@.len() == 0,
            store.predicates.bitcoin_chainhooks@.len() == 0,
    {
        ChainhookStore {
            predicates: ChainhookConfig {
                stacks_chainhooks: Vec::new(),
                bitcoin_chainhooks: Vec::new(),
            },
        }
    }
}

} // verus!
