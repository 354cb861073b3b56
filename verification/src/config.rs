use vstd::prelude::*;

use vstd::string::StringExecFns;

use crate::b32::{b32_decode, base32_decode_of};
use crate::error::Error;
use crate::keys::{seckey_clamped, SecKey};

verus! {

/// The instance's configuration: the owner password and the base32-encoded
/// 64-byte expanded secret key.
pub struct Config {
    pub password: String,
    pub address_private_key: String,
}

/// Loads the identity key from the configuration: the base32 field must
/// decode to 64 clamped key bytes.
pub fn load_seckey(config: &Config) -> (r: Result<SecKey, Error>)
    ensures
        match r {
            Ok(k) => (match base32_decode_of(config.address_private_key@) {
                Some(b) => k@ == b && seckey_clamped(b),
                None => false,
            }),
            Err(e) => e == Error::Config && (match base32_decode_of(
                config.address_private_key@,
            ) {
                Some(b) => !seckey_clamped(b),
                None => true,
            }),
        },
{
    let bytes = match b32_decode(config.address_private_key.as_str()) {
        Some(b) => b,
        None => {
            return Err(Error::Config);
        },
    };
    match SecKey::from_bytes(bytes) {
        Some(k) => Ok(k),
        None => Err(Error::Config),
    }
}

/// The operator-readable stats record written at startup.
pub struct Metrics {
    pub version: u8,
    pub data: Data,
}

pub struct Data {
    pub password: Metric,
}

pub struct Metric {
    pub value_type: String,
    pub value: String,
    pub description: Option<String>,
    pub copyable: bool,
    pub qr: bool,
    pub masked: bool,
}

impl Metrics {
    /// The stats record the server writes: the owner password, marked as a
    /// masked, copyable string.
    pub fn for_password(password: String) -> (r: Metrics)
        ensures
            r.version == 2,
            r.data.password.value@ == password@,
            r.data.password.value_type@ == "string"@,
            r.data.password.copyable,
            !r.data.password.qr,
            r.data.password.masked,
            r.data.password.description is Some,
    {
        Metrics {
            version: 2,
            data: Data {
                password: Metric {
                    value_type: String::from_str("string"),
                    value: password,
                    description: Some(
                        String::from_str(
                            "Password for authenticating to your Cups service. This password can be updated in the Cups config page.",
                        ),
                    ),
                    copyable: true,
                    qr: false,
                    masked: true,
                },
            },
        }
    }
}

} // verus!
