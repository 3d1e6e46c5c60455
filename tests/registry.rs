use ring_sig_kyc::group::G1Point;
use ring_sig_kyc::registry::{RegistryError, RingSigContract};
use soroban_sdk::testutils::Address as _;
use soroban_sdk::{Address, Env};

#[test]
fn test_initialization() {
    let env = Env::default();
    let mut client = RingSigContract::new();
    let admin = Address::generate(&env);
    assert_eq!(client.initialize(admin.clone()), Ok(()));
    assert_eq!(client.get_admin(), Some(&admin));
}

#[test]
fn test_register_issuer() {
    let env = Env::default();
    let mut client = RingSigContract::new();
    let admin = Address::generate(&env);
    client.initialize(admin).unwrap();

    let issuer_pub = [1u8; 96];
    client.register_issuer(issuer_pub).unwrap();

    let issuers = client.get_issuers();
    assert_eq!(issuers.len(), 1);
    assert_eq!(issuers[0], issuer_pub);
}

#[test]
fn test_attribute_ring() {
    let env = Env::default();
    let mut client = RingSigContract::new();
    let admin = Address::generate(&env);
    client.initialize(admin).unwrap();

    let attribute = b"over_18".to_vec();
    let users: Vec<G1Point> = RingSigContract::create_keys(&env, 2).ring;

    client.create_ring_for_attribute(attribute.clone(), users.clone());

    let retrieved_ring = client.get_ring_for_attribute(&attribute);
    assert_eq!(retrieved_ring, Some(&users));
}

#[test]
fn second_initialization_is_refused() {
    let env = Env::default();
    let mut client = RingSigContract::new();
    let first = Address::generate(&env);
    let second = Address::generate(&env);
    client.initialize(first.clone()).unwrap();
    assert_eq!(client.initialize(second), Err(RegistryError::AlreadyInitialized));
    assert_eq!(client.get_admin(), Some(&first));
}

#[test]
fn issuer_before_initialization_is_refused() {
    let mut client = RingSigContract::new();
    assert_eq!(client.register_issuer([7u8; 96]), Err(RegistryError::NotInitialized));
    assert!(client.get_issuers().is_empty());
    assert_eq!(client.get_admin(), None);
}

#[test]
fn issuers_are_kept_without_repeats() {
    let env = Env::default();
    let mut client = RingSigContract::new();
    client.initialize(Address::generate(&env)).unwrap();
    client.register_issuer([1u8; 96]).unwrap();
    client.register_issuer([2u8; 96]).unwrap();
    client.register_issuer([1u8; 96]).unwrap();
    assert_eq!(client.get_issuers(), &vec![[1u8; 96], [2u8; 96]]);
}

#[test]
fn attribute_ring_is_replaced_by_the_latest() {
    let env = Env::default();
    let mut client = RingSigContract::new();
    let keys = RingSigContract::create_keys(&env, 3).ring;
    let attribute = b"over_18".to_vec();
    client.create_ring_for_attribute(attribute.clone(), keys[..2].to_vec());
    client.create_ring_for_attribute(b"resident".to_vec(), keys[2..].to_vec());
    client.create_ring_for_attribute(attribute.clone(), keys.clone());
    assert_eq!(client.get_ring_for_attribute(&attribute), Some(&keys));
    assert_eq!(client.get_ring_for_attribute(&b"resident".to_vec()), Some(&keys[2..].to_vec()));
    assert_eq!(client.get_ring_for_attribute(&b"unknown".to_vec()), None);
}

#[test]
fn init_sets_default_ring_and_keeps_counter() {
    let env = Env::default();
    env.cost_estimate().budget().reset_unlimited();
    let mut client = RingSigContract::new();
    assert_eq!(client.get_ring(), None);
    assert_eq!(client.get_login_count(), 0);
    let keys = RingSigContract::create_keys(&env, 2);
    client.init(keys.ring.clone());
    assert_eq!(client.get_ring(), Some(&keys.ring));
    let msg = b"in".to_vec();
    let sig = RingSigContract::sign(&env, &msg, &keys.ring, 0, &keys.secret_keys[0]);
    assert!(client.verify(&env, &msg, &sig));
    assert_eq!(client.get_login_count(), 1);
    let other = RingSigContract::create_keys(&env, 3).ring;
    client.init(other.clone());
    assert_eq!(client.get_ring(), Some(&other));
    assert_eq!(client.get_login_count(), 1);
}

#[test]
fn ring_of_keys_given_as_bytes() {
    let env = Env::default();
    let mut client = RingSigContract::new();
    let derived = RingSigContract::create_keys(&env, 2).ring;
    let users: Vec<G1Point> = derived
        .iter()
        .map(|p| G1Point::from_bytes(&env, &p.to_bytes()).unwrap())
        .collect();
    assert_eq!(users, derived);
    let attribute = b"over_18".to_vec();
    client.create_ring_for_attribute(attribute.clone(), users.clone());
    assert_eq!(client.get_ring_for_attribute(&attribute), Some(&users));
}
