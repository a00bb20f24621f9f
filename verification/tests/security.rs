use simple_network::security::pairing::PairingManager;
use simple_network::security::pqc::{
    check_peer_key, check_pin, direction_labels, key_input, le_bytes, pairing_code, to_hex,
    PqcError, RecordSequence, Role, LABEL_C2S, LABEL_S2C, VERIFYING_KEY_LEN,
};
use simple_network::security::simple_secrets::SimpleSecretsProvider;
use simple_network::unsupported::Unsupported;

#[test]
fn hex_is_lowercase_two_digits_per_byte() {
    assert_eq!(to_hex(&[0x00, 0x0f, 0xa5, 0xff]), "000fa5ff");
    assert_eq!(to_hex(&[]), "");
}

#[test]
fn pin_must_match_exactly() {
    assert_eq!(check_pin(b"key", b"key"), Ok(()));
    assert_eq!(check_pin(b"key", b"kez"), Err(PqcError::PinMismatch));
    assert_eq!(check_pin(b"key", b"keys"), Err(PqcError::PinMismatch));
    assert_eq!(PqcError::PinMismatch.to_string(), "peer identity does not match pinned key");
}

#[test]
fn peer_key_size_is_checked() {
    assert_eq!(check_peer_key(&vec![0u8; VERIFYING_KEY_LEN]), Ok(()));
    assert_eq!(check_peer_key(&vec![0u8; 32]), Err(PqcError::PeerKeySize));
    assert_eq!(PqcError::PeerKeySize.to_string(), "paired peer key has unexpected size");
}

#[test]
fn directions_pair_up() {
    let (is, ir) = direction_labels(Role::Initiator);
    let (rs, rr) = direction_labels(Role::Responder);
    assert_eq!(is, LABEL_C2S);
    assert_eq!(ir, LABEL_S2C);
    assert_eq!(is, rr);
    assert_eq!(ir, rs);
    assert_ne!(is, ir);
}

#[test]
fn key_input_is_secret_then_label() {
    assert_eq!(key_input(&[1, 2], "ab"), vec![1, 2, b'a', b'b']);
}

#[test]
fn sequence_numbers_advance_and_bind_aad() {
    assert_eq!(le_bytes(0x0102030405060708), 0x0102030405060708u64.to_le_bytes());
    let mut s = RecordSequence::new();
    assert_eq!(s.send_aad(), [0; 8]);
    assert_eq!(s.advance_send(), Ok(()));
    assert_eq!(s.send_aad(), 1u64.to_le_bytes());
    assert_eq!(s.recv_aad(), [0; 8]);
    s.recv_seq = u64::MAX;
    assert_eq!(s.advance_recv(), Err(PqcError::RecvExhausted));
    assert_eq!(s.recv_seq, u64::MAX);
    s.send_seq = u64::MAX;
    assert_eq!(s.advance_send(), Err(PqcError::SendExhausted));
    assert_eq!(PqcError::SendExhausted.to_string(), "send sequence exhausted; rekey required");
}

#[test]
fn pairing_code_is_trimmed() {
    assert_eq!(pairing_code("  ab12\n"), "ab12");
    assert_eq!(pairing_code("\u{3000}x y\t"), "x y");
    assert_eq!(pairing_code("   "), "");
}

#[test]
fn unimplemented_security_refuses() {
    assert_eq!(PairingManager::mtls_pairing_procedure("n"), Err(Unsupported::MtlsPairing));
    assert_eq!(PairingManager::verify_and_sign_csr("c"), Err(Unsupported::CsrSigning));
    assert_eq!(PairingManager::cluster_pairing_procedure("n"), Err(Unsupported::ClusterPairing));
    assert_eq!(SimpleSecretsProvider::read_json_secret_from_stdin(), Err(Unsupported::StdinSecret));
    assert_eq!(
        Unsupported::CsrSigning.to_string(),
        "CSR signing is not implemented; no CA is wired up"
    );
}
