//! Connection, execution and TLS settings.

use crate::error;
use crate::error::{CacheError, CacheResult, ErrorKind, Failure};
use crate::frame::HEADER_LEN;
use crate::outside;
use vstd::prelude::*;
use vstd::std_specs::convert::FromSpecImpl;
use vstd::string::StringExecFns;
use vstd::utf8;

verus! {

/// Connection, execution, and TLS settings for a MemStore provider.
#[derive(Debug, Clone, PartialEq, Eq)]
pub struct MemStoreConfig {
    pub net_connect_count: u16,
    pub net_group_count: u16,
    pub busy_polling: bool,
    pub sdk_concurrency: usize,
    pub operation_timeout_ms: u64,
    pub max_value_size_bytes: usize,
    pub tls_enabled: bool,
    pub certification_path: String,
    pub ca_cert_path: String,
    pub ca_crl_path: String,
    pub private_key_path: String,
    pub private_key_password_path: String,
    pub decrypter_lib_path: String,
    pub openssl_lib_dir: String,
}

/// The content of a `MemStoreConfig`.
pub struct ConfigView {
    pub net_connect_count: u16,
    pub net_group_count: u16,
    pub busy_polling: bool,
    pub sdk_concurrency: usize,
    pub operation_timeout_ms: u64,
    pub max_value_size_bytes: usize,
    pub tls_enabled: bool,
    pub certification_path: Seq<char>,
    pub ca_cert_path: Seq<char>,
    pub ca_crl_path: Seq<char>,
    pub private_key_path: Seq<char>,
    pub private_key_password_path: Seq<char>,
    pub decrypter_lib_path: Seq<char>,
    pub openssl_lib_dir: Seq<char>,
}

impl View for MemStoreConfig {
    type V = ConfigView;

    open spec fn view(&self) -> ConfigView {
        ConfigView {
            net_connect_count: self.net_connect_count,
            net_group_count: self.net_group_count,
            busy_polling: self.busy_polling,
            sdk_concurrency: self.sdk_concurrency,
            operation_timeout_ms: self.operation_timeout_ms,
            max_value_size_bytes: self.max_value_size_bytes,
            tls_enabled: self.tls_enabled,
            certification_path: self.certification_path@,
            ca_cert_path: self.ca_cert_path@,
            ca_crl_path: self.ca_crl_path@,
            private_key_path: self.private_key_path@,
            private_key_password_path: self.private_key_password_path@,
            decrypter_lib_path: self.decrypter_lib_path@,
            openssl_lib_dir: self.openssl_lib_dir@,
        }
    }
}

/// The settings that apply where nothing is configured.
pub open spec fn default_config() -> ConfigView {
    ConfigView {
        net_connect_count: 16,
        net_group_count: 1,
        busy_polling: true,
        sdk_concurrency: 16,
        operation_timeout_ms: 5_000,
        max_value_size_bytes: 67_108_864,
        tls_enabled: false,
        certification_path: Seq::empty(),
        ca_cert_path: Seq::empty(),
        ca_crl_path: Seq::empty(),
        private_key_path: Seq::empty(),
        private_key_password_path: Seq::empty(),
        decrypter_lib_path: Seq::empty(),
        openssl_lib_dir: Seq::empty(),
    }
}

impl Default for MemStoreConfig {
    fn default() -> (config: Self)
        ensures
            config@ == default_config(),
    {
        MemStoreConfig {
            net_connect_count: 16,
            net_group_count: 1,
            busy_polling: true,
            sdk_concurrency: 16,
            operation_timeout_ms: 5_000,
            max_value_size_bytes: 67_108_864,
            tls_enabled: false,
            certification_path: String::new(),
            ca_cert_path: String::new(),
            ca_crl_path: String::new(),
            private_key_path: String::new(),
            private_key_password_path: String::new(),
            decrypter_lib_path: String::new(),
            openssl_lib_dir: String::new(),
        }
    }
}

/// A setting refused with this message.
pub open spec fn refused(message: Seq<char>) -> Result<(), Failure> {
    Err(error::failure(ErrorKind::InvalidArgument, message))
}

/// The first check where it fails, and the second one otherwise.
pub open spec fn also(first: Result<(), Failure>, second: Result<(), Failure>) -> Result<
    (),
    Failure,
> {
    if first is Err {
        first
    } else {
        second
    }
}

/// What is checked of the numbers.
pub open spec fn numbers_check(config: ConfigView) -> Result<(), Failure> {
    if config.net_connect_count == 0 {
        refused("MemStore net_connect_count must be greater than zero"@)
    } else if config.net_group_count == 0 {
        refused("MemStore net_group_count must be greater than zero"@)
    } else if config.sdk_concurrency == 0 || config.sdk_concurrency > u32::MAX {
        refused("MemStore sdk_concurrency must be between 1 and u32::MAX"@)
    } else if config.operation_timeout_ms == 0 {
        refused("MemStore operation_timeout_ms must be greater than zero"@)
    } else if config.max_value_size_bytes == 0 || config.max_value_size_bytes > u32::MAX
        - HEADER_LEN {
        refused("MemStore max_value_size_bytes must fit in a framed C unsigned integer value"@)
    } else {
        Ok(())
    }
}

/// What is checked of the path called `name`.
pub open spec fn path_check(
    name: Seq<char>,
    path: Seq<char>,
    tls_enabled: bool,
    path_limit: nat,
) -> Result<(), Failure> {
    let bytes = utf8::encode_utf8(path);
    if bytes.contains(0u8) {
        refused("MemStore "@ + name + " contains an embedded NUL byte"@)
    } else if bytes.len() >= path_limit {
        refused("MemStore "@ + name + " must be shorter than PATH_MAX bytes"@)
    } else if tls_enabled && path.len() == 0 {
        refused("MemStore "@ + name + " is required when TLS is enabled"@)
    } else {
        Ok(())
    }
}

/// What is checked of the paths, in their order.
pub open spec fn paths_check(config: ConfigView, path_limit: nat) -> Result<(), Failure> {
    let tls = config.tls_enabled;
    let certification_path = path_check(
        "certification_path"@,
        config.certification_path,
        tls,
        path_limit,
    );
    let ca_cert_path = path_check("ca_cert_path"@, config.ca_cert_path, tls, path_limit);
    let ca_crl_path = path_check("ca_crl_path"@, config.ca_crl_path, tls, path_limit);
    let private_key_path = path_check(
        "private_key_path"@,
        config.private_key_path,
        tls,
        path_limit,
    );
    let private_key_password_path = path_check(
        "private_key_password_path"@,
        config.private_key_password_path,
        tls,
        path_limit,
    );
    let decrypter_lib_path = path_check(
        "decrypter_lib_path"@,
        config.decrypter_lib_path,
        tls,
        path_limit,
    );
    let openssl_lib_dir = path_check("openssl_lib_dir"@, config.openssl_lib_dir, tls, path_limit);
    also(
        also(also(certification_path, ca_cert_path), also(ca_crl_path, private_key_path)),
        also(also(private_key_password_path, decrypter_lib_path), openssl_lib_dir),
    )
}

/// What is checked of the settings, where a path must be shorter than `path_limit` bytes.
pub open spec fn config_check(config: ConfigView, path_limit: nat) -> Result<(), Failure> {
    also(numbers_check(config), paths_check(config, path_limit))
}

/// Whether `path_limit` is the path limit of some system.
pub open spec fn is_path_limit(path_limit: nat) -> bool {
    260 <= path_limit <= 4096
}

/// Whether one of the bytes is zero.
fn holds_zero(bytes: &[u8]) -> (found: bool)
    ensures
        found == bytes@.contains(0u8),
{
    let mut index: usize = 0;
    while index < bytes.len()
        invariant
            index <= bytes@.len(),
            forall|i: int| 0 <= i < index ==> bytes@[i] != 0,
        decreases bytes@.len() - index,
    {
        if bytes[index] == 0 {
            return true;
        }
        index = index + 1;
    }
    false
}

/// An `InvalidArgument` error with the given message.
pub fn invalid(message: String) -> (refusal: CacheResult<()>)
    ensures
        error::settled(refusal) == refused(message@),
{
    Err(CacheError::InvalidArgument(message))
}

/// Checks one path.
fn check_path(name: &str, path: &str, tls_enabled: bool, path_limit: usize) -> (checked:
    CacheResult<()>)
    ensures
        error::settled(checked) == path_check(name@, path@, tls_enabled, path_limit as nat),
{
    let mut message = "MemStore ".to_owned();
    message.append(name);
    if holds_zero(path.as_bytes()) {
        message.append(" contains an embedded NUL byte");
        return invalid(message);
    }
    if path.as_bytes().len() >= path_limit {
        message.append(" must be shorter than PATH_MAX bytes");
        return invalid(message);
    }
    if tls_enabled && path.is_empty() {
        message.append(" is required when TLS is enabled");
        return invalid(message);
    }
    Ok(())
}

impl MemStoreConfig {
    /// Checks the settings against the path limit of this system.
    pub fn validate(&self) -> (checked: CacheResult<()>)
        ensures
            exists|path_limit: nat| #[trigger]
                is_path_limit(path_limit) && error::settled(checked) == config_check(
                    self@,
                    path_limit,
                ),
    {
        let path_limit: usize = outside::path_max();
        assert(is_path_limit(path_limit as nat));
        self.validate_within(path_limit)
    }

    /// Checks the settings. The first one that cannot be used decides.
    pub fn validate_within(&self, path_limit: usize) -> (checked: CacheResult<()>)
        ensures
            error::settled(checked) == config_check(self@, path_limit as nat),
    {
        if self.net_connect_count == 0 {
            return invalid("MemStore net_connect_count must be greater than zero".to_owned());
        }
        if self.net_group_count == 0 {
            return invalid("MemStore net_group_count must be greater than zero".to_owned());
        }
        if self.sdk_concurrency == 0 || self.sdk_concurrency > u32::MAX as usize {
            return invalid("MemStore sdk_concurrency must be between 1 and u32::MAX".to_owned());
        }
        if self.operation_timeout_ms == 0 {
            return invalid("MemStore operation_timeout_ms must be greater than zero".to_owned());
        }
        if self.max_value_size_bytes == 0 || self.max_value_size_bytes > u32::MAX as usize
            - HEADER_LEN {
            return invalid(
                "MemStore max_value_size_bytes must fit in a framed C unsigned integer value".to_owned(),
            );
        }
        let tls: bool = self.tls_enabled;
        match check_path("certification_path", self.certification_path.as_str(), tls, path_limit) {
            Ok(_) => {},
            Err(error) => return Err(error),
        }
        match check_path("ca_cert_path", self.ca_cert_path.as_str(), tls, path_limit) {
            Ok(_) => {},
            Err(error) => return Err(error),
        }
        match check_path("ca_crl_path", self.ca_crl_path.as_str(), tls, path_limit) {
            Ok(_) => {},
            Err(error) => return Err(error),
        }
        match check_path("private_key_path", self.private_key_path.as_str(), tls, path_limit) {
            Ok(_) => {},
            Err(error) => return Err(error),
        }
        match check_path(
            "private_key_password_path",
            self.private_key_password_path.as_str(),
            tls,
            path_limit,
        ) {
            Ok(_) => {},
            Err(error) => return Err(error),
        }
        match check_path("decrypter_lib_path", self.decrypter_lib_path.as_str(), tls, path_limit) {
            Ok(_) => {},
            Err(error) => return Err(error),
        }
        check_path("openssl_lib_dir", self.openssl_lib_dir.as_str(), tls, path_limit)
    }
}

/// What a build without the native runtime answers to settings that were found valid or not.
pub open spec fn unsupported(checked: Result<(), Failure>) -> Failure {
    match checked {
        Err(failure) => failure,
        Ok(_) => error::failure(
            ErrorKind::Unavailable,
            "MemStore support requires the memstore-native feature"@,
        ),
    }
}

/// Checks the settings and says that this build cannot connect.
pub fn connect_without_native(config: &MemStoreConfig) -> (refusal: CacheError)
    ensures
        exists|path_limit: nat| #[trigger]
            is_path_limit(path_limit) && refusal@ == unsupported(
                config_check(config@, path_limit),
            ),
{
    match config.validate() {
        Err(error) => error,
        Ok(_) => CacheError::Unavailable(
            "MemStore support requires the memstore-native feature".to_owned(),
        ),
    }
}

// Native options.

/// The settings that the native runtime is initialized with. Two configurations can share the
/// runtime where these are the same.
#[derive(Debug, Clone, PartialEq, Eq)]
pub struct InitFingerprint {
    net_connect_count: u16,
    net_group_count: u16,
    busy_polling: bool,
    tls_enabled: bool,
    certification_path: String,
    ca_cert_path: String,
    ca_crl_path: String,
    private_key_path: String,
    private_key_password_path: String,
    decrypter_lib_path: String,
    openssl_lib_dir: String,
}

/// The content of an `InitFingerprint`.
pub struct FingerprintView {
    pub net_connect_count: u16,
    pub net_group_count: u16,
    pub busy_polling: bool,
    pub tls_enabled: bool,
    pub certification_path: Seq<char>,
    pub ca_cert_path: Seq<char>,
    pub ca_crl_path: Seq<char>,
    pub private_key_path: Seq<char>,
    pub private_key_password_path: Seq<char>,
    pub decrypter_lib_path: Seq<char>,
    pub openssl_lib_dir: Seq<char>,
}

impl View for InitFingerprint {
    type V = FingerprintView;

    closed spec fn view(&self) -> FingerprintView {
        FingerprintView {
            net_connect_count: self.net_connect_count,
            net_group_count: self.net_group_count,
            busy_polling: self.busy_polling,
            tls_enabled: self.tls_enabled,
            certification_path: self.certification_path@,
            ca_cert_path: self.ca_cert_path@,
            ca_crl_path: self.ca_crl_path@,
            private_key_path: self.private_key_path@,
            private_key_password_path: self.private_key_password_path@,
            decrypter_lib_path: self.decrypter_lib_path@,
            openssl_lib_dir: self.openssl_lib_dir@,
        }
    }
}

/// The part of the settings that the native runtime is initialized with.
pub open spec fn fingerprint_of(config: ConfigView) -> FingerprintView {
    FingerprintView {
        net_connect_count: config.net_connect_count,
        net_group_count: config.net_group_count,
        busy_polling: config.busy_polling,
        tls_enabled: config.tls_enabled,
        certification_path: config.certification_path,
        ca_cert_path: config.ca_cert_path,
        ca_crl_path: config.ca_crl_path,
        private_key_path: config.private_key_path,
        private_key_password_path: config.private_key_password_path,
        decrypter_lib_path: config.decrypter_lib_path,
        openssl_lib_dir: config.openssl_lib_dir,
    }
}

impl FromSpecImpl<&MemStoreConfig> for InitFingerprint {
    open spec fn obeys_from_spec() -> bool {
        true
    }

    closed spec fn from_spec(config: &MemStoreConfig) -> Self {
        InitFingerprint {
            net_connect_count: config.net_connect_count,
            net_group_count: config.net_group_count,
            busy_polling: config.busy_polling,
            tls_enabled: config.tls_enabled,
            certification_path: config.certification_path,
            ca_cert_path: config.ca_cert_path,
            ca_crl_path: config.ca_crl_path,
            private_key_path: config.private_key_path,
            private_key_password_path: config.private_key_password_path,
            decrypter_lib_path: config.decrypter_lib_path,
            openssl_lib_dir: config.openssl_lib_dir,
        }
    }
}

impl From<&MemStoreConfig> for InitFingerprint {
    fn from(config: &MemStoreConfig) -> (fingerprint: Self)
        ensures
            fingerprint@ == fingerprint_of(config@),
    {
        InitFingerprint {
            net_connect_count: config.net_connect_count,
            net_group_count: config.net_group_count,
            busy_polling: config.busy_polling,
            tls_enabled: config.tls_enabled,
            certification_path: config.certification_path.clone(),
            ca_cert_path: config.ca_cert_path.clone(),
            ca_crl_path: config.ca_crl_path.clone(),
            private_key_path: config.private_key_path.clone(),
            private_key_password_path: config.private_key_password_path.clone(),
            decrypter_lib_path: config.decrypter_lib_path.clone(),
            openssl_lib_dir: config.openssl_lib_dir.clone(),
        }
    }
}

impl InitFingerprint {
    /// Whether two fingerprints are the same.
    pub fn matches(&self, other: &InitFingerprint) -> (same: bool)
        ensures
            same == (self@ == other@),
    {
        self.net_connect_count == other.net_connect_count
            && self.net_group_count == other.net_group_count
            && self.busy_polling == other.busy_polling
            && self.tls_enabled == other.tls_enabled
            && self.certification_path == other.certification_path
            && self.ca_cert_path == other.ca_cert_path
            && self.ca_crl_path == other.ca_crl_path
            && self.private_key_path == other.private_key_path
            && self.private_key_password_path == other.private_key_password_path
            && self.decrypter_lib_path == other.decrypter_lib_path
            && self.openssl_lib_dir == other.openssl_lib_dir
    }
}

/// Options for the native runtime, with each path in a field of fixed size that zeros fill up.
#[derive(Debug)]
pub struct MmsOptions {
    pub net_connect_cnt: u16,
    pub net_group_num: u16,
    pub net_is_busy_polling: u8,
    pub tls_enable: u8,
    pub certification_path: Vec<u8>,
    pub ca_cer_path: Vec<u8>,
    pub ca_crl_path: Vec<u8>,
    pub private_key_path: Vec<u8>,
    pub private_key_password_path: Vec<u8>,
    pub decrypter_lib_path: Vec<u8>,
    pub openssl_lib_dir: Vec<u8>,
}

/// A path field of `room` bytes: the bytes of the path as far as they fit, and zeros behind them.
pub open spec fn path_field(path: Seq<char>, room: nat) -> Seq<u8> {
    let bytes = utf8::encode_utf8(path);
    Seq::new(
        room,
        |i: int|
            if i < bytes.len() {
                bytes[i]
            } else {
                0u8
            },
    )
}

/// 1 or 0.
pub open spec fn flag(value: bool) -> u8 {
    if value {
        1
    } else {
        0
    }
}

/// The field of `room` bytes for a path.
pub fn path_array(path: &str, room: usize) -> (output: Vec<u8>)
    ensures
        output@ == path_field(path@, room as nat),
{
    let bytes = path.as_bytes();
    let mut output: Vec<u8> = Vec::new();
    while output.len() < room
        invariant
            bytes@ == utf8::encode_utf8(path@),
            output@.len() <= room,
            forall|i: int|
                0 <= i < output@.len() ==> output@[i] == path_field(path@, room as nat)[i],
        decreases room - output@.len(),
    {
        let at: usize = output.len();
        if at < bytes.len() {
            output.push(bytes[at]);
        } else {
            output.push(0);
        }
    }
    assert(output@ =~= path_field(path@, room as nat));
    output
}

/// Whether the options hold these settings, with paths in fields of `room` bytes.
pub open spec fn options_hold(options: MmsOptions, config: ConfigView, room: nat) -> bool {
    &&& options.net_connect_cnt == config.net_connect_count
    &&& options.net_group_num == config.net_group_count
    &&& options.net_is_busy_polling == flag(config.busy_polling)
    &&& options.tls_enable == flag(config.tls_enabled)
    &&& options.certification_path@ == path_field(config.certification_path, room)
    &&& options.ca_cer_path@ == path_field(config.ca_cert_path, room)
    &&& options.ca_crl_path@ == path_field(config.ca_crl_path, room)
    &&& options.private_key_path@ == path_field(config.private_key_path, room)
    &&& options.private_key_password_path@ == path_field(config.private_key_password_path, room)
    &&& options.decrypter_lib_path@ == path_field(config.decrypter_lib_path, room)
    &&& options.openssl_lib_dir@ == path_field(config.openssl_lib_dir, room)
}

/// Whether every path field has exactly `room` bytes.
pub open spec fn fields_fill(options: MmsOptions, room: nat) -> bool {
    &&& options.certification_path@.len() == room
    &&& options.ca_cer_path@.len() == room
    &&& options.ca_crl_path@.len() == room
    &&& options.private_key_path@.len() == room
    &&& options.private_key_password_path@.len() == room
    &&& options.decrypter_lib_path@.len() == room
    &&& options.openssl_lib_dir@.len() == room
}

/// The native options for these settings, with paths in fields of this system's path limit.
pub fn build_options(config: &MemStoreConfig) -> (options: MmsOptions)
    ensures
        exists|room: nat| #[trigger] is_path_limit(room) && options_hold(options, config@, room),
{
    let room: usize = outside::path_max();
    assert(is_path_limit(room as nat));
    build_options_within(config, room)
}

/// The native options for these settings, with paths in fields of `room` bytes.
pub fn build_options_within(config: &MemStoreConfig, room: usize) -> (options: MmsOptions)
    ensures
        options_hold(options, config@, room as nat),
        fields_fill(options, room as nat),
{
    MmsOptions {
        net_connect_cnt: config.net_connect_count,
        net_group_num: config.net_group_count,
        net_is_busy_polling: if config.busy_polling {
            1
        } else {
            0
        },
        tls_enable: if config.tls_enabled {
            1
        } else {
            0
        },
        certification_path: path_array(config.certification_path.as_str(), room),
        ca_cer_path: path_array(config.ca_cert_path.as_str(), room),
        ca_crl_path: path_array(config.ca_crl_path.as_str(), room),
        private_key_path: path_array(config.private_key_path.as_str(), room),
        private_key_password_path: path_array(config.private_key_password_path.as_str(), room),
        decrypter_lib_path: path_array(config.decrypter_lib_path.as_str(), room),
        openssl_lib_dir: path_array(config.openssl_lib_dir.as_str(), room),
    }
}

// Laws.

/// The default settings are valid on every system.
pub proof fn defaults_are_valid(path_limit: nat)
    requires
        is_path_limit(path_limit),
    ensures
        config_check(default_config(), path_limit) == Ok::<(), Failure>(()),
{
    assert(utf8::encode_utf8(Seq::<char>::empty()) =~= Seq::<u8>::empty());
}

/// With valid settings every frame size is a C unsigned integer and a `usize`.
pub proof fn valid_sizes_fit(config: ConfigView, path_limit: nat)
    requires
        config_check(config, path_limit) is Ok,
    ensures
        HEADER_LEN < config.max_value_size_bytes + HEADER_LEN <= u32::MAX <= usize::MAX,
        1 <= config.sdk_concurrency <= u32::MAX,
{
}

/// A path that passes its check stands in its field whole and is ended by the first zero there.
pub proof fn checked_paths_are_terminated(
    name: Seq<char>,
    path: Seq<char>,
    tls_enabled: bool,
    path_limit: nat,
)
    requires
        path_check(name, path, tls_enabled, path_limit) is Ok,
    ensures
        ({
            let bytes = utf8::encode_utf8(path);
            let field = path_field(path, path_limit);
            &&& bytes.len() < field.len()
            &&& field.take(bytes.len() as int) == bytes
            &&& field[bytes.len() as int] == 0
            &&& forall|i: int| 0 <= i < bytes.len() ==> field[i] != 0
        }),
{
    let bytes = utf8::encode_utf8(path);
    let field = path_field(path, path_limit);
    assert(field.take(bytes.len() as int) =~= bytes);
    assert forall|i: int| 0 <= i < bytes.len() implies field[i] != 0 by {
        assert(bytes.contains(bytes[i]));
    }
}

/// Settings that differ only in how calls are executed share the runtime.
pub proof fn execution_settings_do_not_matter(left: ConfigView, right: ConfigView)
    requires
        left == (ConfigView {
            sdk_concurrency: left.sdk_concurrency,
            operation_timeout_ms: left.operation_timeout_ms,
            max_value_size_bytes: left.max_value_size_bytes,
            ..right
        }),
    ensures
        fingerprint_of(left) == fingerprint_of(right),
{
}

/// Settings pass exactly where the counts and the timeout are not zero, the concurrency and the
/// frame of the largest value are C unsigned integers, no path has a zero byte or too many bytes,
/// and with TLS no path is empty.
pub proof fn every_usable_setting_passes(config: ConfigView, path_limit: nat)
    ensures
        config_check(config, path_limit) is Ok <==> {
            &&& config.net_connect_count >= 1
            &&& config.net_group_count >= 1
            &&& 1 <= config.sdk_concurrency <= 4294967295
            &&& config.operation_timeout_ms >= 1
            &&& 1 <= config.max_value_size_bytes <= 4294967286
            &&& usable_path(config.certification_path, config.tls_enabled, path_limit)
            &&& usable_path(config.ca_cert_path, config.tls_enabled, path_limit)
            &&& usable_path(config.ca_crl_path, config.tls_enabled, path_limit)
            &&& usable_path(config.private_key_path, config.tls_enabled, path_limit)
            &&& usable_path(config.private_key_password_path, config.tls_enabled, path_limit)
            &&& usable_path(config.decrypter_lib_path, config.tls_enabled, path_limit)
            &&& usable_path(config.openssl_lib_dir, config.tls_enabled, path_limit)
        },
        config_check(config, path_limit) matches Err(failure) ==> failure.kind
            == ErrorKind::InvalidArgument,
{
    assert(forall|path: Seq<char>|
        #![trigger utf8::encode_utf8(path)]
        utf8::encode_utf8(path).contains(0u8) <==> exists|i: int|
            0 <= i < utf8::encode_utf8(path).len() && utf8::encode_utf8(path)[i] == 0);
}

/// Whether a path can be handed to the native runtime.
pub open spec fn usable_path(path: Seq<char>, tls_enabled: bool, path_limit: nat) -> bool {
    &&& utf8::encode_utf8(path).len() < path_limit
    &&& forall|i: int|
        0 <= i < utf8::encode_utf8(path).len() ==> (#[trigger] utf8::encode_utf8(path)[i]) != 0
    &&& tls_enabled ==> path.len() > 0
}

/// Two settings share the runtime exactly where they agree in everything that it is initialized
/// with.
pub proof fn only_equal_options_share_the_runtime(left: ConfigView, right: ConfigView)
    ensures
        fingerprint_of(left) == fingerprint_of(right) <==> {
            &&& left.net_connect_count == right.net_connect_count
            &&& left.net_group_count == right.net_group_count
            &&& left.busy_polling == right.busy_polling
            &&& left.tls_enabled == right.tls_enabled
            &&& left.certification_path == right.certification_path
            &&& left.ca_cert_path == right.ca_cert_path
            &&& left.ca_crl_path == right.ca_crl_path
            &&& left.private_key_path == right.private_key_path
            &&& left.private_key_password_path == right.private_key_password_path
            &&& left.decrypter_lib_path == right.decrypter_lib_path
            &&& left.openssl_lib_dir == right.openssl_lib_dir
        },
{
}

/// A path field holds the bytes of its path from the front, and zeros behind them.
pub proof fn path_fields_hold_their_paths(path: Seq<char>, room: nat, place: int)
    requires
        0 <= place < room,
    ensures
        path_field(path, room).len() == room,
        path_field(path, room)[place] == if place < utf8::encode_utf8(path).len() {
            utf8::encode_utf8(path)[place]
        } else {
            0u8
        },
{
}

/// The native options carry every setting that the runtime is initialized with, so that settings
/// with the same options in fields of the size that their paths were checked for share it.
pub proof fn options_carry_the_settings(
    options: MmsOptions,
    left: ConfigView,
    right: ConfigView,
    path_limit: nat,
)
    requires
        config_check(left, path_limit) is Ok,
        config_check(right, path_limit) is Ok,
        options_hold(options, left, path_limit),
        options_hold(options, right, path_limit),
    ensures
        options.net_connect_cnt == left.net_connect_count,
        options.net_group_num == left.net_group_count,
        options.net_is_busy_polling == 1 <==> left.busy_polling,
        options.net_is_busy_polling == 0 <==> !left.busy_polling,
        options.tls_enable == 1 <==> left.tls_enabled,
        options.tls_enable == 0 <==> !left.tls_enabled,
        fingerprint_of(left) == fingerprint_of(right),
{
    same_field(left.certification_path, right.certification_path, left.tls_enabled, path_limit);
    same_field(left.ca_cert_path, right.ca_cert_path, left.tls_enabled, path_limit);
    same_field(left.ca_crl_path, right.ca_crl_path, left.tls_enabled, path_limit);
    same_field(left.private_key_path, right.private_key_path, left.tls_enabled, path_limit);
    same_field(
        left.private_key_password_path,
        right.private_key_password_path,
        left.tls_enabled,
        path_limit,
    );
    same_field(left.decrypter_lib_path, right.decrypter_lib_path, left.tls_enabled, path_limit);
    same_field(left.openssl_lib_dir, right.openssl_lib_dir, left.tls_enabled, path_limit);
}

proof fn same_field(left: Seq<char>, right: Seq<char>, tls_enabled: bool, path_limit: nat)
    requires
        path_check(Seq::empty(), left, tls_enabled, path_limit) is Ok,
        path_check(Seq::empty(), right, tls_enabled, path_limit) is Ok,
    ensures
        path_field(left, path_limit) == path_field(right, path_limit) ==> left == right,
{
    if path_field(left, path_limit) == path_field(right, path_limit) {
        let field = path_field(left, path_limit);
        let one = utf8::encode_utf8(left);
        let other = utf8::encode_utf8(right);
        checked_paths_are_terminated(Seq::empty(), left, tls_enabled, path_limit);
        checked_paths_are_terminated(Seq::empty(), right, tls_enabled, path_limit);
        assert(one.len() == other.len());
        assert(one == other);
        utf8::encode_utf8_decode_utf8(left);
        utf8::encode_utf8_decode_utf8(right);
    }
}

/// A build without the native runtime refuses settings that cannot be used for what is wrong with
/// them, and all others as unavailable.
pub proof fn nothing_connects_without_the_native_runtime(checked: Result<(), Failure>)
    ensures
        checked matches Err(failure) ==> unsupported(checked) == failure,
        checked is Ok ==> unsupported(checked).kind == ErrorKind::Unavailable,
{
}

/// Settings are seen as they are.
pub proof fn settings_are_seen_whole(config: MemStoreConfig)
    ensures
        config@.net_connect_count == config.net_connect_count,
        config@.net_group_count == config.net_group_count,
        config@.busy_polling == config.busy_polling,
        config@.sdk_concurrency == config.sdk_concurrency,
        config@.operation_timeout_ms == config.operation_timeout_ms,
        config@.max_value_size_bytes == config.max_value_size_bytes,
        config@.tls_enabled == config.tls_enabled,
        config@.certification_path == config.certification_path@,
        config@.ca_cert_path == config.ca_cert_path@,
        config@.ca_crl_path == config.ca_crl_path@,
        config@.private_key_path == config.private_key_path@,
        config@.private_key_password_path == config.private_key_password_path@,
        config@.decrypter_lib_path == config.decrypter_lib_path@,
        config@.openssl_lib_dir == config.openssl_lib_dir@,
{
}

/// Where nothing is configured there are 16 connections in one group, busy polling, 16 calls at a
/// time, five seconds for each, values of up to 64 MiB, and no TLS.
pub proof fn what_applies_where_nothing_is_configured()
    ensures
        default_config().net_connect_count == 16,
        default_config().net_group_count == 1,
        default_config().busy_polling,
        default_config().sdk_concurrency == 16,
        default_config().operation_timeout_ms == 5000,
        default_config().max_value_size_bytes == 67108864,
        !default_config().tls_enabled,
        default_config().certification_path.len() == 0,
        default_config().ca_cert_path.len() == 0,
        default_config().ca_crl_path.len() == 0,
        default_config().private_key_path.len() == 0,
        default_config().private_key_password_path.len() == 0,
        default_config().decrypter_lib_path.len() == 0,
        default_config().openssl_lib_dir.len() == 0,
{
}

/// On every system paths of up to 259 bytes are short enough and paths of 4096 bytes are not.
pub proof fn every_system_takes_short_paths(
    name: Seq<char>,
    path: Seq<char>,
    tls_enabled: bool,
    path_limit: nat,
)
    requires
        is_path_limit(path_limit),
    ensures
        usable_path(path, tls_enabled, 260) ==> path_check(name, path, tls_enabled, path_limit)
            is Ok,
        utf8::encode_utf8(path).len() >= 4096 ==> path_check(name, path, tls_enabled, path_limit)
            is Err,
{
    let bytes = utf8::encode_utf8(path);
    if bytes.contains(0u8) {
        let i = choose|i: int| 0 <= i < bytes.len() && bytes[i] == 0;
        assert(utf8::encode_utf8(path)[i] == 0);
    }
}

} // verus!
