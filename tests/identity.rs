use mesh_core::identity::{IdentityError, NodeIdentity};

#[test]
fn test_generate_identity() {
    let id = NodeIdentity::generate("TestNode".into());
    assert_eq!(id.node_id.len(), 32);
    assert!(!id.node_id_hex().is_empty());
    assert_eq!(id.node_id_short().len(), 8);
}

#[test]
fn test_sign_and_verify() {
    let id = NodeIdentity::generate("TestNode".into());
    let message = b"hello mesh network";
    let sig = id.sign(message);
    assert!(NodeIdentity::verify(&id.node_id, message, &sig).is_ok());
}

#[test]
fn test_verify_wrong_message() {
    let id = NodeIdentity::generate("TestNode".into());
    let sig = id.sign(b"correct message");
    assert!(NodeIdentity::verify(&id.node_id, b"wrong message", &sig).is_err());
}

#[test]
fn test_save_and_load() {
    let id1 = NodeIdentity::generate("TestNode".into());
    let stored = id1.secret_bytes();
    let id2 = NodeIdentity::from_key_bytes(&stored, "TestNode".into()).unwrap();
    assert_eq!(id1.node_id, id2.node_id);
    let sig = id1.sign(b"persistence test");
    assert!(NodeIdentity::verify(&id2.node_id, b"persistence test", &sig).is_ok());
}

#[test]
fn test_load_or_create() {
    let id1 = NodeIdentity::generate("Node1".into());
    let id2 = NodeIdentity::from_key_bytes(&id1.secret_bytes(), "Node1".into()).unwrap();
    assert_eq!(id1.node_id, id2.node_id);
}

#[test]
fn key_file_of_wrong_length_is_refused() {
    assert!(matches!(NodeIdentity::from_key_bytes(&[0u8; 31], "x".into()), Err(IdentityError::InvalidLength)));
    assert!(matches!(NodeIdentity::from_key_bytes(&[0u8; 33], "x".into()), Err(IdentityError::InvalidLength)));
    assert!(NodeIdentity::from_key_bytes(&[5u8; 32], "x".into()).is_ok());
}

#[test]
fn hex_forms_of_identifier() {
    let id = NodeIdentity::from_key_bytes(&[5u8; 32], "x".into()).unwrap();
    let hex = id.node_id_hex();
    assert_eq!(hex.len(), 64);
    assert!(hex.chars().all(|c| c.is_ascii_hexdigit() && !c.is_ascii_uppercase()));
    assert_eq!(&hex[..8], id.node_id_short());
    let expected: String = id.node_id[..4].iter().map(|b| format!("{:02x}", b)).collect();
    assert_eq!(id.node_id_short(), expected);
    assert_eq!(id.verifying_key_bytes(), id.node_id);
}

#[test]
fn signature_is_deterministic_and_bound_to_key() {
    let a = NodeIdentity::from_key_bytes(&[1u8; 32], "a".into()).unwrap();
    let b = NodeIdentity::from_key_bytes(&[2u8; 32], "b".into()).unwrap();
    assert_eq!(a.sign(b"m"), a.sign(b"m"));
    assert!(NodeIdentity::verify(&b.node_id, b"m", &a.sign(b"m")).is_err());
    assert_ne!(a.node_id, b.node_id);
}

#[test]
fn fresh_identities_differ() {
    let a = NodeIdentity::generate("n".into());
    let b = NodeIdentity::generate("n".into());
    assert_ne!(a.node_id, b.node_id);
}
