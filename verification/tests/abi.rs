use ragfs_cache_memstore::config::{build_options, build_options_within, path_array, MemStoreConfig};
use ragfs_cache_memstore::status::{
    CResult, RET_MMS_BUSY, RET_MMS_CONFLICT, RET_MMS_EPERM, RET_MMS_ERROR, RET_MMS_EXCEED_QUOTA,
    RET_MMS_EXISTS, RET_MMS_MISS, RET_MMS_NEED_RETRY, RET_MMS_NOT_FOUND, RET_MMS_NOT_READY,
    RET_MMS_NO_SPACE, RET_MMS_OK, RET_MMS_PROTECTED, RET_MMS_PT_FAULT, RET_MMS_READ_EXCEED,
    RET_MMS_UNAVAILABLE,
};

fn aligned_offset(offset: usize, alignment: usize) -> usize {
    (offset + alignment - 1) & !(alignment - 1)
}

fn c_layout(field_types: &[(usize, usize)]) -> (Vec<usize>, usize, usize) {
    let mut offsets = Vec::with_capacity(field_types.len());
    let mut offset = 0;
    let mut alignment = 1;

    for &(size, field_alignment) in field_types {
        offset = aligned_offset(offset, field_alignment);
        offsets.push(offset);
        offset += size;
        alignment = alignment.max(field_alignment);
    }

    (offsets, aligned_offset(offset, alignment), alignment)
}

#[test]
fn c_layout_math_catches_the_32_bit_pointer_padding_case() {
    let (offsets, size, alignment) =
        c_layout(&[(4, 4), (4, 4), (4, 4), (2, 2), (2, 2), (4, 4), (4, 4)]);

    assert_eq!(offsets, [0, 4, 8, 12, 14, 16, 20]);
    assert_eq!(size, 24);
    assert_eq!(alignment, 4);
    assert_ne!(size, 4 * 5);
}

#[test]
fn c_result_values_match_mms_c_header() {
    let values: [CResult; 16] = [
        RET_MMS_OK,
        RET_MMS_PROTECTED,
        RET_MMS_ERROR,
        RET_MMS_EPERM,
        RET_MMS_BUSY,
        RET_MMS_NEED_RETRY,
        RET_MMS_NOT_READY,
        RET_MMS_NOT_FOUND,
        RET_MMS_CONFLICT,
        RET_MMS_MISS,
        RET_MMS_NO_SPACE,
        RET_MMS_UNAVAILABLE,
        RET_MMS_EXCEED_QUOTA,
        RET_MMS_PT_FAULT,
        RET_MMS_READ_EXCEED,
        RET_MMS_EXISTS,
    ];

    assert_eq!(values, core::array::from_fn(|index| index as CResult));
}

fn until_zero(field: &[u8]) -> String {
    let bytes = field
        .iter()
        .take_while(|byte| **byte != 0)
        .copied()
        .collect::<Vec<_>>();
    String::from_utf8(bytes).unwrap()
}

#[test]
fn options_carry_the_settings_and_the_paths() {
    let config = MemStoreConfig {
        net_connect_count: 7,
        net_group_count: 3,
        busy_polling: false,
        tls_enabled: true,
        certification_path: "/tls/cert.pem".into(),
        ca_cert_path: "/tls/ca.pem".into(),
        ca_crl_path: "/tls/ca.crl".into(),
        private_key_path: "/tls/key.pem".into(),
        private_key_password_path: "/tls/password".into(),
        decrypter_lib_path: "/tls/decrypter.so".into(),
        openssl_lib_dir: "/tls/lib".into(),
        ..MemStoreConfig::default()
    };
    let options = build_options(&config);

    assert_eq!(options.net_connect_cnt, 7);
    assert_eq!(options.net_group_num, 3);
    assert_eq!(options.net_is_busy_polling, 0);
    assert_eq!(options.tls_enable, 1);
    assert_eq!(options.certification_path.len(), libc::PATH_MAX as usize);
    assert_eq!(until_zero(&options.certification_path), "/tls/cert.pem");
    assert_eq!(until_zero(&options.ca_cer_path), "/tls/ca.pem");
    assert_eq!(until_zero(&options.ca_crl_path), "/tls/ca.crl");
    assert_eq!(until_zero(&options.private_key_path), "/tls/key.pem");
    assert_eq!(until_zero(&options.private_key_password_path), "/tls/password");
    assert_eq!(until_zero(&options.decrypter_lib_path), "/tls/decrypter.so");
    assert_eq!(until_zero(&options.openssl_lib_dir), "/tls/lib");

    let defaults = build_options(&MemStoreConfig::default());
    assert_eq!(defaults.net_connect_cnt, 16);
    assert_eq!(defaults.net_group_num, 1);
    assert_eq!(defaults.net_is_busy_polling, 1);
    assert_eq!(defaults.tls_enable, 0);
    assert_eq!(until_zero(&defaults.openssl_lib_dir), "");
}

#[test]
fn path_fields_are_filled_up_with_zeros_or_cut() {
    assert_eq!(path_array("/a", 5), b"/a\0\0\0");
    assert_eq!(path_array("/abcdef", 4), b"/abc");
    assert_eq!(path_array("", 2), b"\0\0");
    let config = MemStoreConfig {
        ca_crl_path: "/crl".into(),
        ..MemStoreConfig::default()
    };
    assert_eq!(build_options_within(&config, 6).ca_crl_path, b"/crl\0\0");
}
