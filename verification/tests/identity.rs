use slipstream::identity::{create_quic_config, ed25519_pkcs8, quic_identity, tls_error, TlsStage};

#[test]
fn key_document_has_its_header() {
    let der = ed25519_pkcs8(&[9; 32]);
    assert_eq!(der.len(), 48);
    assert_eq!(der[..16], [0x30, 0x2e, 2, 1, 0, 0x30, 5, 6, 3, 0x2b, 0x65, 0x70, 4, 0x22, 4, 0x20]);
    assert_eq!(der[16..], [9; 32]);
}

#[test]
fn identity_is_made_for_any_key() {
    let id = create_quic_config(&[7; 32]).unwrap();
    assert_eq!(id.key_der, ed25519_pkcs8(&[7; 32]));
    assert_eq!(id.alpn_protocols, vec![b"solana-tpu".to_vec()]);
    assert!(id.cert_der.len() > 100);
    assert_eq!(id.cert_der[0], 0x30);
    assert!(id.cert_der.windows(6).any(|w| w == b"solana"));
    let again = create_quic_config(&[7; 32]).unwrap();
    assert_eq!(id.cert_der, again.cert_der);
    assert_ne!(id.cert_der, create_quic_config(&[8; 32]).unwrap().cert_der);
}

#[test]
fn certificate_shows_the_public_key() {
    let id = create_quic_config(&[7; 32]).unwrap();
    let key = slipstream::transaction::wallet(&[7; 32]);
    assert!(id.cert_der.windows(32).any(|w| w == key.bytes));
}

#[test]
fn missing_parts_are_told() {
    let e = quic_identity(Err("k".to_string()), Err("c".to_string())).unwrap_err();
    assert_eq!(e.message(), "certificate error: key conversion failed: k");
    let e = quic_identity(Ok(vec![1]), Err("c".to_string())).unwrap_err();
    assert_eq!(e.message(), "certificate error: c");
    let id = quic_identity(Ok(vec![1]), Ok(vec![2])).unwrap();
    assert_eq!((id.key_der, id.cert_der), (vec![1], vec![2]));
}

#[test]
fn failed_tls_stage_is_told() {
    assert_eq!(tls_error(TlsStage::ClientAuth, "x").message(), "certificate error: x");
    assert_eq!(
        tls_error(TlsStage::Quic, "x").message(),
        "certificate error: quic tls config failed: x"
    );
}
