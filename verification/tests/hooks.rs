use chainhook_observer::hooks::{
    ChainhookFullSpecification, ChainhookOnNetwork, ChainhookSpecification, ChainhookStore,
    MultiNetworkChainhook,
};
use chainhook_observer::network::{BitcoinNetwork, StacksNetwork};

fn bitcoin_predicate(uuid: &str) -> MultiNetworkChainhook<BitcoinNetwork> {
    MultiNetworkChainhook {
        uuid: uuid.to_string(),
        owner_uuid: Some("owner".to_string()),
        name: "name".to_string(),
        version: 3,
        networks: vec![
            ChainhookOnNetwork {
                network: BitcoinNetwork::Mainnet,
                expire_after_occurrence: None,
                content: "main".to_string(),
            },
            ChainhookOnNetwork {
                network: BitcoinNetwork::Regtest,
                expire_after_occurrence: Some(2),
                content: "reg".to_string(),
            },
        ],
    }
}

fn stacks_predicate(uuid: &str) -> MultiNetworkChainhook<StacksNetwork> {
    MultiNetworkChainhook {
        uuid: uuid.to_string(),
        owner_uuid: None,
        name: "name".to_string(),
        version: 1,
        networks: vec![ChainhookOnNetwork {
            network: StacksNetwork::Devnet,
            expire_after_occurrence: None,
            content: "dev".to_string(),
        }],
    }
}

fn networks() -> (BitcoinNetwork, StacksNetwork) {
    (BitcoinNetwork::Regtest, StacksNetwork::Devnet)
}

fn store_with(uuids: &[&str]) -> ChainhookStore {
    let (bitcoin, stacks) = networks();
    let mut store = ChainhookStore::new();
    for uuid in uuids {
        store
            .predicates
            .register_full_specification(
                (&bitcoin, &stacks),
                ChainhookFullSpecification::Bitcoin(bitcoin_predicate(uuid)),
            )
            .unwrap();
    }
    store
}

fn uuids(store: &ChainhookStore) -> Vec<String> {
    store.predicates.bitcoin_chainhooks.iter().map(|hook| hook.uuid.clone()).collect()
}

#[test]
fn predicate_is_registered_for_the_observed_network() {
    let store = store_with(&["a"]);
    let hook = &store.predicates.bitcoin_chainhooks[0];
    assert_eq!(hook.uuid, "a");
    assert_eq!(hook.owner_uuid, Some("owner".to_string()));
    assert_eq!(hook.name, "name");
    assert_eq!(hook.version, 3);
    assert_eq!(hook.network, BitcoinNetwork::Regtest);
    assert_eq!(hook.expire_after_occurrence, Some(2));
    assert!(!hook.enabled);
    assert_eq!(hook.expired_at, None);
    assert_eq!(hook.content, "reg");
}

#[test]
fn predicate_for_other_networks_is_refused() {
    let mut store = ChainhookStore::new();
    let refused = store.predicates.register_full_specification(
        (&BitcoinNetwork::Signet, &StacksNetwork::Mainnet),
        ChainhookFullSpecification::Bitcoin(bitcoin_predicate("a")),
    );
    assert!(refused.is_none());
    let refused = store.predicates.register_full_specification(
        (&BitcoinNetwork::Signet, &StacksNetwork::Mainnet),
        ChainhookFullSpecification::Stacks(stacks_predicate("a")),
    );
    assert!(refused.is_none());
    assert!(store.predicates.bitcoin_chainhooks.is_empty());
    assert!(store.predicates.stacks_chainhooks.is_empty());
}

#[test]
fn deregistration_undoes_registration() {
    let mut store = store_with(&["a", "b"]);
    let before = store.predicates.bitcoin_chainhooks.clone();
    let (bitcoin, stacks) = networks();
    store.predicates.register_full_specification(
        (&bitcoin, &stacks),
        ChainhookFullSpecification::Bitcoin(bitcoin_predicate("c")),
    );
    let removed = store.predicates.deregister_bitcoin_hook("c").unwrap();
    assert_eq!(removed.uuid, "c");
    assert_eq!(store.predicates.bitcoin_chainhooks, before);
    assert!(store.predicates.deregister_bitcoin_hook("c").is_none());
    assert_eq!(store.predicates.bitcoin_chainhooks, before);
}

#[test]
fn deregistration_spares_other_hooks() {
    let mut store = store_with(&["a", "b", "c"]);
    assert!(store.predicates.deregister_bitcoin_hook("b").is_some());
    assert_eq!(uuids(&store), vec!["a", "c"]);
    assert!(store.predicates.deregister_stacks_hook("a").is_none());
    assert_eq!(uuids(&store), vec!["a", "c"]);
}

#[test]
fn first_of_two_hooks_with_one_uuid_goes() {
    let mut store = store_with(&["a", "a"]);
    assert!(store.predicates.deregister_bitcoin_hook("a").is_some());
    assert_eq!(uuids(&store), vec!["a"]);
}

#[test]
fn hook_is_active_from_enabling_to_expiration() {
    let mut store = store_with(&["a", "b"]);
    assert!(store.predicates.active_bitcoin_hooks().is_empty());
    let mut spec =
        ChainhookSpecification::Bitcoin(store.predicates.bitcoin_chainhooks[1].clone());
    store.predicates.enable_specification(&mut spec);
    let active = store.predicates.active_bitcoin_hooks();
    assert_eq!(active.len(), 1);
    assert_eq!(active[0].uuid, "b");
    assert!(active[0].enabled);
    assert_eq!(spec, ChainhookSpecification::Bitcoin(active[0].clone()));
    store.predicates.expire_bitcoin_hook("b", 12);
    assert!(store.predicates.active_bitcoin_hooks().is_empty());
    assert_eq!(store.predicates.bitcoin_chainhooks[1].expired_at, Some(12));
    assert_eq!(uuids(&store), vec!["a", "b"]);
}

#[test]
fn unknown_hook_is_neither_enabled_nor_expired() {
    let mut store = store_with(&["a"]);
    let mut hook = store.predicates.bitcoin_chainhooks[0].clone();
    hook.uuid = "z".to_string();
    let mut spec = ChainhookSpecification::Bitcoin(hook.clone());
    store.predicates.enable_specification(&mut spec);
    assert_eq!(spec, ChainhookSpecification::Bitcoin(hook));
    store.predicates.expire_bitcoin_hook("z", 12);
    store.predicates.expire_stacks_hook("a", 12);
    assert!(!store.predicates.bitcoin_chainhooks[0].enabled);
    assert_eq!(store.predicates.bitcoin_chainhooks[0].expired_at, None);
}

#[test]
fn stacks_hooks_stand_apart() {
    let (bitcoin, stacks) = networks();
    let mut store = store_with(&["a"]);
    let registered = store.predicates.register_full_specification(
        (&bitcoin, &stacks),
        ChainhookFullSpecification::Stacks(stacks_predicate("a")),
    );
    let mut spec = registered.unwrap();
    store.predicates.enable_specification(&mut spec);
    assert!(store.predicates.active_bitcoin_hooks().is_empty());
    assert_eq!(store.predicates.active_stacks_hooks().len(), 1);
    assert_eq!(store.predicates.active_stacks_hooks()[0].content, "dev");
    store.predicates.expire_stacks_hook("a", 1);
    assert!(store.predicates.active_stacks_hooks().is_empty());
    assert_eq!(store.predicates.deregister_stacks_hook("a").unwrap().expired_at, Some(1));
    assert_eq!(uuids(&store), vec!["a"]);
}
