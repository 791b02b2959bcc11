use meeting_notes::secrets::{
    exists_outcome, keychain_error, load_outcome, removal_outcome, remove_entry, validate_key_input, KeychainFailure,
};

#[test]
fn settings_key_input_rejects_oversize_and_header_controls() {
    for invalid in [
        "".to_owned(),
        " ".into(),
        "x".repeat(4097),
        "key\r\nheader".into(),
        "key\0".into(),
        "key\t".into(),
        "key value".into(),
    ] {
        assert_eq!(validate_key_input(&invalid).unwrap_err().code, "invalid_api_key");
    }
    assert_eq!(validate_key_input("  valid-test-key  ").unwrap(), "valid-test-key");
    assert!(validate_key_input(&"x".repeat(4096)).is_ok());
}

#[test]
fn settings_key_removal_is_idempotent_and_keeps_credential_on_failure() {
    let entry = keyring::Entry::new_with_credential(Box::<keyring::mock::MockCredential>::default());
    entry.set_password("test-only").unwrap();
    entry
        .get_credential()
        .downcast_ref::<keyring::mock::MockCredential>()
        .unwrap()
        .set_error(keyring::Error::Invalid("test".into(), "unavailable".into()));
    assert_eq!(remove_entry(&entry).unwrap_err().code, "keychain");
    assert_eq!(entry.get_password().unwrap(), "test-only");
    remove_entry(&entry).unwrap();
    remove_entry(&entry).unwrap();
    assert!(matches!(entry.get_password(), Err(keyring::Error::NoEntry)));

    let error = removal_outcome(Err(KeychainFailure::Other("unavailable".into()))).unwrap_err();
    assert_eq!(error.code, "keychain");
    assert_eq!(error.message, "unavailable");
    assert!(removal_outcome(Ok(())).is_ok());
    assert!(removal_outcome(Err(KeychainFailure::NoEntry)).is_ok());
}

#[test]
fn a_missing_key_reads_as_none() {
    assert_eq!(load_outcome(Ok("secret".into())).unwrap().as_deref(), Some("secret"));
    assert_eq!(load_outcome(Err(KeychainFailure::NoEntry)).unwrap(), None);
    assert_eq!(
        load_outcome(Err(KeychainFailure::Other("locked".into()))).unwrap_err().message,
        "locked"
    );
    assert_eq!(keychain_error(KeychainFailure::NoEntry).code, "keychain");
}

#[test]
fn a_saved_credential_means_a_key_exists() {
    assert_eq!(exists_outcome(Ok("secret".into())).unwrap(), true);
    assert_eq!(exists_outcome(Err(KeychainFailure::NoEntry)).unwrap(), false);
    let error = exists_outcome(Err(KeychainFailure::Other("locked".into()))).unwrap_err();
    assert_eq!(error.code, "keychain");
    assert_eq!(error.message, "locked");
}
