use da::hostkey::{fingerprint, host_key_step, known_host_name, trust_answer, HostKeyCheck, HostKeyStep};

#[test]
fn known_keys_proceed_changed_keys_abort() {
    assert_eq!(host_key_step(HostKeyCheck::Match), HostKeyStep::Proceed);
    assert_eq!(host_key_step(HostKeyCheck::NotFound), HostKeyStep::Ask);
    assert_eq!(host_key_step(HostKeyCheck::Mismatch), HostKeyStep::Abort);
    assert_eq!(host_key_step(HostKeyCheck::Failure), HostKeyStep::Abort);
}

#[test]
fn unknown_host_is_remembered_only_when_confirmed() {
    assert_eq!(trust_answer(true), HostKeyStep::Remember);
    assert_eq!(trust_answer(false), HostKeyStep::Abort);
}

#[test]
fn known_hosts_names() {
    assert_eq!(known_host_name("1.2.3.4", 22), "1.2.3.4");
    assert_eq!(known_host_name("example.com", 2222), "[example.com]:2222");
    assert_eq!(known_host_name("h", 0), "[h]:0");
}

#[test]
fn fingerprint_is_unpadded_base64() {
    // The test vectors of RFC 4648, without padding.
    assert_eq!(fingerprint(b""), "SHA256:");
    assert_eq!(fingerprint(b"f"), "SHA256:Zg");
    assert_eq!(fingerprint(b"fo"), "SHA256:Zm8");
    assert_eq!(fingerprint(b"foo"), "SHA256:Zm9v");
    assert_eq!(fingerprint(b"foob"), "SHA256:Zm9vYg");
    assert_eq!(fingerprint(b"fooba"), "SHA256:Zm9vYmE");
    assert_eq!(fingerprint(b"foobar"), "SHA256:Zm9vYmFy");
    // The last two digits of the alphabet.
    assert_eq!(fingerprint(&[0xfb, 0xff, 0xbf]), "SHA256:+/+/");
    assert_eq!(fingerprint(&[0u8; 32]), format!("SHA256:{}", "A".repeat(43)));
}
