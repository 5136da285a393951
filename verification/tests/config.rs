use ragfs_cache_memstore::config::{connect_without_native, InitFingerprint, MemStoreConfig};
use ragfs_cache_memstore::error::CacheError;

fn valid_tls_config() -> MemStoreConfig {
    MemStoreConfig {
        tls_enabled: true,
        certification_path: "/tls/cert.pem".into(),
        ca_cert_path: "/tls/ca.pem".into(),
        ca_crl_path: "/tls/ca.crl".into(),
        private_key_path: "/tls/key.pem".into(),
        private_key_password_path: "/tls/password".into(),
        decrypter_lib_path: "/tls/decrypter.so".into(),
        openssl_lib_dir: "/tls/lib".into(),
        ..MemStoreConfig::default()
    }
}

fn refusal(config: &MemStoreConfig) -> String {
    match config.validate() {
        Err(CacheError::InvalidArgument(message)) => message,
        other => panic!("expected a refusal, got {other:?}"),
    }
}

#[test]
fn defaults_match_memstore_sdk_settings() {
    assert_eq!(
        MemStoreConfig::default(),
        MemStoreConfig {
            net_connect_count: 16,
            net_group_count: 1,
            busy_polling: true,
            sdk_concurrency: 16,
            operation_timeout_ms: 5_000,
            max_value_size_bytes: 67_108_864,
            tls_enabled: false,
            certification_path: String::new(),
            ca_cert_path: String::new(),
            ca_crl_path: String::new(),
            private_key_path: String::new(),
            private_key_password_path: String::new(),
            decrypter_lib_path: String::new(),
            openssl_lib_dir: String::new(),
        }
    );
}

#[test]
fn validation_rejects_zero_and_c_integer_overflow_values() {
    let mut config = MemStoreConfig::default();
    config.net_connect_count = 0;
    assert!(matches!(
        config.validate(),
        Err(CacheError::InvalidArgument(_))
    ));

    let mut config = MemStoreConfig::default();
    config.net_group_count = 0;
    assert!(matches!(
        config.validate(),
        Err(CacheError::InvalidArgument(_))
    ));

    let mut config = MemStoreConfig::default();
    config.sdk_concurrency = 0;
    assert!(matches!(
        config.validate(),
        Err(CacheError::InvalidArgument(_))
    ));

    let mut config = MemStoreConfig::default();
    config.operation_timeout_ms = 0;
    assert!(matches!(
        config.validate(),
        Err(CacheError::InvalidArgument(_))
    ));

    let mut config = MemStoreConfig::default();
    config.max_value_size_bytes = 0;
    assert!(matches!(
        config.validate(),
        Err(CacheError::InvalidArgument(_))
    ));

    if usize::BITS > 32 {
        let mut config = MemStoreConfig::default();
        config.sdk_concurrency = u32::MAX as usize + 1;
        assert!(matches!(
            config.validate(),
            Err(CacheError::InvalidArgument(_))
        ));

        let mut config = MemStoreConfig::default();
        config.max_value_size_bytes = u32::MAX as usize - 8;
        assert!(matches!(
            config.validate(),
            Err(CacheError::InvalidArgument(_))
        ));
    }
}

#[test]
fn validation_rejects_invalid_tls_paths() {
    let mut config = valid_tls_config();
    config.private_key_path.clear();
    assert!(matches!(
        config.validate(),
        Err(CacheError::InvalidArgument(_))
    ));

    let mut config = valid_tls_config();
    config.ca_cert_path.push('\0');
    assert!(matches!(
        config.validate(),
        Err(CacheError::InvalidArgument(_))
    ));

    let mut config = valid_tls_config();
    config.certification_path = "x".repeat(libc::PATH_MAX as usize);
    assert!(matches!(
        config.validate(),
        Err(CacheError::InvalidArgument(_))
    ));

    valid_tls_config().validate().unwrap();
}

#[test]
fn refusals_name_the_first_bad_setting() {
    let mut config = valid_tls_config();
    config.net_connect_count = 0;
    config.net_group_count = 0;
    assert_eq!(
        refusal(&config),
        "MemStore net_connect_count must be greater than zero"
    );
    config.net_connect_count = 1;
    assert_eq!(
        refusal(&config),
        "MemStore net_group_count must be greater than zero"
    );

    let mut config = MemStoreConfig::default();
    config.sdk_concurrency = 0;
    assert_eq!(
        refusal(&config),
        "MemStore sdk_concurrency must be between 1 and u32::MAX"
    );
    let mut config = MemStoreConfig::default();
    config.operation_timeout_ms = 0;
    assert_eq!(
        refusal(&config),
        "MemStore operation_timeout_ms must be greater than zero"
    );
    let mut config = MemStoreConfig::default();
    config.max_value_size_bytes = 0;
    assert_eq!(
        refusal(&config),
        "MemStore max_value_size_bytes must fit in a framed C unsigned integer value"
    );

    let mut config = valid_tls_config();
    config.ca_crl_path.clear();
    config.openssl_lib_dir.push('\0');
    assert_eq!(
        refusal(&config),
        "MemStore ca_crl_path is required when TLS is enabled"
    );
    config.ca_crl_path = "/crl".into();
    assert_eq!(
        refusal(&config),
        "MemStore openssl_lib_dir contains an embedded NUL byte"
    );

    let mut config = MemStoreConfig::default();
    config.decrypter_lib_path = "x".repeat(libc::PATH_MAX as usize);
    assert_eq!(
        refusal(&config),
        "MemStore decrypter_lib_path must be shorter than PATH_MAX bytes"
    );
    config.decrypter_lib_path.pop();
    assert!(config.validate().is_ok());
}

#[test]
fn the_path_limit_can_be_given() {
    let mut config = MemStoreConfig::default();
    config.ca_crl_path = "12345".into();
    assert!(config.validate_within(6).is_ok());
    assert!(config.validate_within(5).is_err());
}

#[test]
fn largest_frame_still_fits_a_c_unsigned_integer() {
    let mut config = MemStoreConfig::default();
    config.max_value_size_bytes = u32::MAX as usize - 9;
    assert!(config.validate().is_ok());
}

#[test]
fn connect_without_native_feature_returns_exact_startup_error() {
    let error = connect_without_native(&MemStoreConfig::default());
    assert!(matches!(
        error,
        CacheError::Unavailable(message)
            if message == "MemStore support requires the memstore-native feature"
    ));
    let mut config = MemStoreConfig::default();
    config.net_group_count = 0;
    assert!(matches!(
        connect_without_native(&config),
        CacheError::InvalidArgument(_)
    ));
}

#[test]
fn fingerprints_differ_in_what_the_runtime_is_initialized_with() {
    let base = InitFingerprint::from(&valid_tls_config());

    let mut config = valid_tls_config();
    config.sdk_concurrency = 3;
    config.operation_timeout_ms = 7;
    config.max_value_size_bytes = 9;
    assert!(base.matches(&InitFingerprint::from(&config)));

    let mut config = valid_tls_config();
    config.net_connect_count += 1;
    assert!(!base.matches(&InitFingerprint::from(&config)));
    let mut config = valid_tls_config();
    config.busy_polling = false;
    assert!(!base.matches(&InitFingerprint::from(&config)));
    let mut config = valid_tls_config();
    config.openssl_lib_dir = "/other".into();
    assert!(!base.matches(&InitFingerprint::from(&config)));
}
