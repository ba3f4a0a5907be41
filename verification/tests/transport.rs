use shatters_relay::transport::quic::{frame_header, frame_len, FrameError, MAX_FRAME_SIZE};
use shatters_relay::transport::tls::{assemble, load_credentials, KeyKind, PrivateKey, TlsError};

#[test]
fn frame_lengths_are_read() {
    assert_eq!(frame_len(&[0, 0, 0, 0]), Ok(0));
    assert_eq!(frame_len(&[0, 0, 1, 2]), Ok(258));
    assert_eq!(frame_len(&[0, 0x10, 0, 0]), Ok(1_048_576));
    assert_eq!(
        frame_len(&[0, 0x10, 0, 1]),
        Err(FrameError::FrameTooLarge { size: 1_048_577, max: MAX_FRAME_SIZE })
    );
}

#[test]
fn frame_lengths_are_written() {
    assert_eq!(frame_header(&[]), Ok(vec![0, 0, 0, 0]));
    assert_eq!(frame_header(&[7; 258]), Ok(vec![0, 0, 1, 2]));
    let header = frame_header(&vec![0; 70_000]).unwrap();
    let read = [header[0], header[1], header[2], header[3]];
    assert_eq!(frame_len(&read), Ok(70_000));
}

#[test]
fn credentials_are_loaded_from_pem() {
    let made = rcgen::generate_simple_self_signed(vec!["localhost".to_string()]).unwrap();
    let cert_pem = made.cert.pem().into_bytes();
    let key_pem = made.key_pair.serialize_pem().into_bytes();
    let loaded = load_credentials(Some((cert_pem.clone(), key_pem)), false);
    let loaded = loaded.unwrap().unwrap();
    assert_eq!(loaded.certs, vec![made.cert.der().as_ref().to_vec()]);
    assert_eq!(loaded.key.kind, KeyKind::Pkcs8);
    assert_eq!(loaded.key.der, made.key_pair.serialize_der());
    let no_key = load_credentials(Some((cert_pem.clone(), cert_pem)), true);
    assert!(matches!(no_key, Err(TlsError::NoPrivateKey)));
}

#[test]
fn torn_files_are_errors() {
    let torn = b"-----BEGIN CERTIFICATE-----\nAAAA\n".to_vec();
    let r = load_credentials(Some((torn.clone(), vec![])), true);
    assert!(matches!(r, Err(TlsError::Io(_))));
    let r = load_credentials(Some((vec![], torn)), true);
    assert!(matches!(r, Err(TlsError::Io(_))));
}

#[test]
fn missing_files_may_be_replaced() {
    assert!(matches!(load_credentials(None, true), Ok(None)));
    assert!(matches!(
        load_credentials(None, false),
        Err(TlsError::CertRequired)
    ));
}

#[test]
fn credentials_are_put_together() {
    let key = || PrivateKey { kind: KeyKind::Sec1, der: vec![1, 2] };
    let made = assemble(Ok(vec![vec![9]]), Ok(Some(key()))).unwrap();
    assert_eq!(made.certs, vec![vec![9]]);
    assert_eq!(made.key.kind, KeyKind::Sec1);
    assert_eq!(made.key.der, vec![1, 2]);
    let r = assemble(Ok(vec![]), Ok(None));
    assert!(matches!(r, Err(TlsError::NoPrivateKey)));
    let r = assemble(Err("bad".to_string()), Err("worse".to_string()));
    assert!(matches!(r, Err(TlsError::Io(reason)) if reason == "bad"));
    let r = assemble(Ok(vec![]), Err("worse".to_string()));
    assert!(matches!(r, Err(TlsError::Io(reason)) if reason == "worse"));
}
