use ring_sig_kyc::group::G1Point;
use ring_sig_kyc::registry::RingSigContract;
use ring_sig_kyc::ring::RingSignature;
use soroban_sdk::Env;

fn fresh_env() -> Env {
    let env = Env::default();
    env.cost_estimate().budget().reset_unlimited();
    env
}

#[test]
fn signature_verifies_at_every_position() {
    let env = fresh_env();
    let keys = RingSigContract::create_keys(&env, 3);
    let msg = b"login".to_vec();
    for idx in 0..3u32 {
        let sig = RingSigContract::sign(&env, &msg, &keys.ring, idx, &keys.secret_keys[idx as usize]);
        assert_eq!(sig.responses.len(), 3);
        assert!(RingSigContract::verify_ring(&env, &msg, &sig, &keys.ring));
    }
}

#[test]
fn signature_verifies_on_a_ring_of_one() {
    let env = fresh_env();
    let keys = RingSigContract::create_keys(&env, 1);
    let msg = b"solo".to_vec();
    let sig = RingSigContract::sign(&env, &msg, &keys.ring, 0, &keys.secret_keys[0]);
    assert!(RingSigContract::verify_ring(&env, &msg, &sig, &keys.ring));
}

#[test]
fn signature_verifies_for_an_empty_message() {
    let env = fresh_env();
    let keys = RingSigContract::create_keys(&env, 2);
    let msg: Vec<u8> = Vec::new();
    let sig = RingSigContract::sign(&env, &msg, &keys.ring, 1, &keys.secret_keys[1]);
    assert!(RingSigContract::verify_ring(&env, &msg, &sig, &keys.ring));
}

#[test]
fn same_secret_at_two_positions_verifies_on_each_ring() {
    let env = fresh_env();
    let keys = RingSigContract::create_keys(&env, 3);
    let msg = b"anon".to_vec();
    let ring_a = vec![keys.ring[0], keys.ring[1], keys.ring[2]];
    let ring_b = vec![keys.ring[1], keys.ring[0], keys.ring[2]];
    let sk = &keys.secret_keys[0];
    let sig_a = RingSigContract::sign(&env, &msg, &ring_a, 0, sk);
    let sig_b = RingSigContract::sign(&env, &msg, &ring_b, 1, sk);
    assert!(RingSigContract::verify_ring(&env, &msg, &sig_a, &ring_a));
    assert!(RingSigContract::verify_ring(&env, &msg, &sig_b, &ring_b));
}

#[test]
fn signer_position_is_normalised_to_its_own_key() {
    let env = fresh_env();
    let keys = RingSigContract::create_keys(&env, 3);
    let msg = b"normalise".to_vec();
    let stale = vec![keys.ring[0], keys.ring[0], keys.ring[2]];
    let sig = RingSigContract::sign(&env, &msg, &stale, 1, &keys.secret_keys[1]);
    assert!(RingSigContract::verify_ring(&env, &msg, &sig, &keys.ring));
    assert!(!RingSigContract::verify_ring(&env, &msg, &sig, &stale));
}

#[test]
fn changed_message_is_rejected() {
    let env = fresh_env();
    let keys = RingSigContract::create_keys(&env, 3);
    let msg = b"hello".to_vec();
    let sig = RingSigContract::sign(&env, &msg, &keys.ring, 2, &keys.secret_keys[2]);
    let mut other = msg.clone();
    other[0] ^= 1;
    assert!(!RingSigContract::verify_ring(&env, &other, &sig, &keys.ring));
}

#[test]
fn changed_ring_member_is_rejected() {
    let env = fresh_env();
    let keys = RingSigContract::create_keys(&env, 4);
    let msg = b"hello".to_vec();
    let ring = keys.ring[..3].to_vec();
    let sig = RingSigContract::sign(&env, &msg, &ring, 0, &keys.secret_keys[0]);
    for pos in 0..3 {
        let mut tampered = ring.clone();
        tampered[pos] = keys.ring[3];
        assert!(!RingSigContract::verify_ring(&env, &msg, &sig, &tampered));
    }
}

#[test]
fn length_mismatch_is_rejected() {
    let env = fresh_env();
    let keys = RingSigContract::create_keys(&env, 3);
    let msg = b"hello".to_vec();
    let sig = RingSigContract::sign(&env, &msg, &keys.ring, 1, &keys.secret_keys[1]);
    let mut short = RingSignature { challenge: sig.challenge, responses: sig.responses.clone() };
    short.responses.pop();
    assert!(!RingSigContract::verify_ring(&env, &msg, &short, &keys.ring));
    assert!(!RingSigContract::verify_ring(&env, &msg, &sig, &keys.ring[..2].to_vec()));
}

#[test]
fn empty_ring_is_rejected() {
    let env = fresh_env();
    let empty: Vec<G1Point> = Vec::new();
    let sig = RingSignature { challenge: [0u8; 32], responses: Vec::new() };
    assert!(!RingSigContract::verify_ring(&env, &b"m".to_vec(), &sig, &empty));
}

#[test]
fn derivation_is_deterministic() {
    let env = fresh_env();
    let first = RingSigContract::create_keys(&env, 5);
    let second = RingSigContract::create_keys(&env, 5);
    assert_eq!(first.secret_keys, second.secret_keys);
    assert_eq!(first.ring, second.ring);
    assert_eq!(first.secret_keys.len(), 5);
}

#[test]
fn derivation_of_zero_keys_is_empty() {
    let env = fresh_env();
    let keys = RingSigContract::create_keys(&env, 0);
    assert!(keys.secret_keys.is_empty());
    assert!(keys.ring.is_empty());
}

#[test]
fn derived_keys_differ_from_their_seeds() {
    let env = fresh_env();
    let keys = RingSigContract::create_keys(&env, 2);
    assert_ne!(keys.secret_keys[0], [0u8; 32]);
    assert_ne!(keys.secret_keys[1], [1u8; 32]);
    assert_ne!(keys.secret_keys[0], keys.secret_keys[1]);
    assert_ne!(keys.ring[0], G1Point::generator());
    assert_ne!(keys.ring[0], keys.ring[1]);
}

#[test]
fn login_counter_counts_successes_only() {
    let env = fresh_env();
    let keys = RingSigContract::create_keys(&env, 3);
    let mut client = RingSigContract::new();
    client.init(keys.ring.clone());
    assert_eq!(client.get_login_count(), 0);
    let msg = b"login".to_vec();
    for idx in 0..3u32 {
        let sig = RingSigContract::sign(&env, &msg, &keys.ring, idx, &keys.secret_keys[idx as usize]);
        assert!(client.verify(&env, &msg, &sig));
    }
    assert_eq!(client.get_login_count(), 3);
    let sig = RingSigContract::sign(&env, &msg, &keys.ring, 0, &keys.secret_keys[0]);
    assert!(!client.verify(&env, &b"logout".to_vec(), &sig));
    assert_eq!(client.get_login_count(), 3);
}

#[test]
fn verify_without_default_ring_is_false() {
    let env = fresh_env();
    let keys = RingSigContract::create_keys(&env, 1);
    let msg = b"m".to_vec();
    let sig = RingSigContract::sign(&env, &msg, &keys.ring, 0, &keys.secret_keys[0]);
    let mut client = RingSigContract::new();
    assert!(!client.verify(&env, &msg, &sig));
    assert_eq!(client.get_login_count(), 0);
}

#[test]
fn verify_attribute_uses_the_attribute_ring() {
    let env = fresh_env();
    let keys = RingSigContract::create_keys(&env, 2);
    let mut client = RingSigContract::new();
    let attribute = b"over_18".to_vec();
    let msg = b"kyc".to_vec();
    let sig = RingSigContract::sign(&env, &msg, &keys.ring, 1, &keys.secret_keys[1]);
    assert!(!client.verify_attribute(&env, &msg, &sig, &attribute));
    client.init(keys.ring.clone());
    assert!(!client.verify_attribute(&env, &msg, &sig, &attribute));
    client.create_ring_for_attribute(attribute.clone(), keys.ring.clone());
    assert!(client.verify_attribute(&env, &msg, &sig, &attribute));
    assert_eq!(client.get_login_count(), 1);
}

#[test]
fn point_bytes_round_trip() {
    let env = fresh_env();
    let keys = RingSigContract::create_keys(&env, 1);
    let bytes = keys.ring[0].to_bytes();
    assert_eq!(G1Point::from_bytes(&env, &bytes), Some(keys.ring[0]));
    let gen = G1Point::generator();
    assert_eq!(G1Point::from_bytes(&env, &gen.to_bytes()), Some(gen));
}

#[test]
fn point_off_the_curve_is_refused() {
    let env = fresh_env();
    assert_eq!(G1Point::from_bytes(&env, &[1u8; 96]), None);
    assert_eq!(G1Point::from_bytes(&env, &[2u8; 96]), None);
}

#[test]
fn point_with_bad_flags_is_refused() {
    let env = fresh_env();
    assert_eq!(G1Point::from_bytes(&env, &[0xffu8; 96]), None);
    let mut compressed = G1Point::generator().to_bytes();
    compressed[0] |= 0x80;
    assert_eq!(G1Point::from_bytes(&env, &compressed), None);
    let mut infinity_with_bits = [0u8; 96];
    infinity_with_bits[0] = 0x40;
    infinity_with_bits[95] = 1;
    assert_eq!(G1Point::from_bytes(&env, &infinity_with_bits), None);
}

#[test]
fn point_with_coordinate_above_modulus_is_refused() {
    let env = fresh_env();
    let mut big_x = [0u8; 96];
    big_x[0] = 0x1b;
    assert_eq!(G1Point::from_bytes(&env, &big_x), None);
    let mut big_y = G1Point::generator().to_bytes();
    for b in big_y[48..].iter_mut() {
        *b = 0xff;
    }
    big_y[48] = 0x1f;
    assert_eq!(G1Point::from_bytes(&env, &big_y), None);
}

#[test]
fn sign_with_given_randomness_verifies() {
    let env = fresh_env();
    let keys = RingSigContract::create_keys(&env, 3);
    let msg = b"chosen".to_vec();
    let nonce = [7u8; 32];
    let fillers = vec![[3u8; 32], [4u8; 32], [5u8; 32]];
    let sig = RingSigContract::sign_with(&env, &msg, &keys.ring, 1, &keys.secret_keys[1], &nonce, &fillers);
    assert_eq!(sig.responses[0], [3u8; 32]);
    assert_eq!(sig.responses[2], [5u8; 32]);
    assert_ne!(sig.responses[1], [4u8; 32]);
    assert!(RingSigContract::verify_ring(&env, &msg, &sig, &keys.ring));
    let plain = RingSigContract::sign(&env, &msg, &keys.ring, 1, &keys.secret_keys[1]);
    assert_ne!(plain.challenge, sig.challenge);
}

#[test]
fn effective_ring_puts_the_signers_key_in_place() {
    let env = fresh_env();
    let keys = RingSigContract::create_keys(&env, 3);
    let stale = vec![keys.ring[0], keys.ring[0], keys.ring[2]];
    let eff = RingSigContract::effective_ring_of(&env, &stale, 1, &keys.secret_keys[1]);
    assert_eq!(eff, keys.ring);
}
