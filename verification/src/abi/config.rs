//! The `SET_CONFIG` payload codec: `[5]=role · [4:3]=io_mode · [2:1]=sck ·
//! [0]=alert_source`.
use vstd::prelude::*;

use crate::abi::isa::Cfg6;

verus! {

/// Link role. v1 is controller-only; `Target` is reserved.
#[derive(Debug, Clone, Copy, PartialEq, Eq, Structural)]
pub enum Role {
    /// Drive the bus as the eSPI controller (v1).
    Controller,
    /// Act as the eSPI target (reserved).
    Target,
}

/// I/O width. v1 is single-lane (`X1`).
#[derive(Debug, Clone, Copy, PartialEq, Eq, Structural)]
pub enum IoMode {
    /// Single I/O (v1).
    X1,
    /// Dual I/O (reserved).
    X2,
    /// Quad I/O (reserved).
    X4,
}

/// SCK frequency selection. v1 accepts only 20 MHz (`Sck20`).
#[derive(Debug, Clone, Copy, PartialEq, Eq, Structural)]
pub enum Sck {
    /// 20 MHz (v1).
    Sck20,
    /// 33 MHz (reserved).
    Sck33,
    /// 50 MHz (reserved).
    Sck50,
    /// 66 MHz (reserved).
    Sck66,
}

/// Where alerts are observed: the dedicated `ALERT#` pin or in-band on `IO[1]`.
#[derive(Debug, Clone, Copy, PartialEq, Eq, Structural)]
pub enum AlertSource {
    /// The dedicated `ALERT#` pin.
    AlertPin,
    /// In-band alerts on `IO[1]`.
    AlertIo1,
}

/// The decoded engine configuration (one field per `SET_CONFIG` sub-field).
#[derive(Debug, Clone, Copy, PartialEq, Eq, Structural)]
pub struct Config {
    /// Link role.
    pub role: Role,
    /// I/O width.
    pub io_mode: IoMode,
    /// SCK frequency.
    pub sck: Sck,
    /// Alert observation source.
    pub alert_source: AlertSource,
}

/// Why a `SET_CONFIG` payload was rejected (each becomes a TRAP in the engine).
#[derive(Debug, Clone, Copy, PartialEq, Eq, Structural)]
pub enum ConfigError {
    /// The selected role is not supported in v1.
    UnsupportedRole,
    /// The selected I/O mode is not supported in v1.
    UnsupportedIoMode,
    /// The selected SCK frequency is not supported in v1.
    UnsupportedSck,
}

/// The 1-bit role field.
pub open spec fn role_bits(r: Role) -> u8 {
    match r {
        Role::Controller => 0,
        Role::Target => 1,
    }
}

/// The 2-bit I/O-mode field.
pub open spec fn io_bits(m: IoMode) -> u8 {
    match m {
        IoMode::X1 => 0,
        IoMode::X2 => 1,
        IoMode::X4 => 2,
    }
}

/// The 2-bit SCK field.
pub open spec fn sck_bits(s: Sck) -> u8 {
    match s {
        Sck::Sck20 => 0,
        Sck::Sck33 => 1,
        Sck::Sck50 => 2,
        Sck::Sck66 => 3,
    }
}

/// The 1-bit alert-source field.
pub open spec fn alert_bits(a: AlertSource) -> u8 {
    match a {
        AlertSource::AlertPin => 0,
        AlertSource::AlertIo1 => 1,
    }
}

/// The packed 6-bit payload of a configuration.
pub open spec fn spec_pack(c: Config) -> u8 {
    (role_bits(c.role) * 32 + io_bits(c.io_mode) * 8 + sck_bits(c.sck) * 2 + alert_bits(
        c.alert_source,
    )) as u8
}

/// The v1-strict decoding of a 6-bit payload: only `(Controller, X1, Sck20, *)`
/// is accepted; otherwise the first unsupported field, in role, I/O, SCK order.
pub open spec fn spec_decode_config(p: u8) -> Result<Config, ConfigError> {
    let role = (p / 32) % 2;
    let io = (p / 8) % 4;
    let sck = (p / 2) % 4;
    let alert = p % 2;
    if role == 0 && io == 0 && sck == 0 {
        Ok(
            Config {
                role: Role::Controller,
                io_mode: IoMode::X1,
                sck: Sck::Sck20,
                alert_source: if alert == 0 {
                    AlertSource::AlertPin
                } else {
                    AlertSource::AlertIo1
                },
            },
        )
    } else if role == 1 {
        Err(ConfigError::UnsupportedRole)
    } else if io != 0 {
        Err(ConfigError::UnsupportedIoMode)
    } else {
        Err(ConfigError::UnsupportedSck)
    }
}

/// A configuration that the v1 engine accepts.
pub open spec fn is_v1(c: Config) -> bool {
    c.role == Role::Controller && c.io_mode == IoMode::X1 && c.sck == Sck::Sck20
}

impl Config {
    /// Pack into the 6-bit `SET_CONFIG` payload. Total (any `Config` packs).
    pub fn pack(&self) -> (res: Cfg6)
        ensures
            res.value() == spec_pack(*self),
    {
        let role: u8 = match self.role {
            Role::Controller => 0,
            Role::Target => 1,
        };
        let io: u8 = match self.io_mode {
            IoMode::X1 => 0,
            IoMode::X2 => 1,
            IoMode::X4 => 2,
        };
        let sck: u8 = match self.sck {
            Sck::Sck20 => 0,
            Sck::Sck33 => 1,
            Sck::Sck50 => 2,
            Sck::Sck66 => 3,
        };
        let alert: u8 = match self.alert_source {
            AlertSource::AlertPin => 0,
            AlertSource::AlertIo1 => 1,
        };
        let v: u8 = role * 32 + io * 8 + sck * 2 + alert;
        let r = Cfg6::from_bits(v);
        assert(v & 0x3Fu8 == v) by (bit_vector)
            requires
                v < 64,
        ;
        r
    }
}

/// Decode a 6-bit `SET_CONFIG` payload into a [`Config`], v1-strict.
pub fn decode_config(payload: Cfg6) -> (res: Result<Config, ConfigError>)
    ensures
        res == spec_decode_config(payload.value()),
{
    let p = payload.bits();
    let role = (p / 32) % 2;
    let io = (p / 8) % 4;
    let sck = (p / 2) % 4;
    let alert = p % 2;
    if role == 0 && io == 0 && sck == 0 {
        Ok(
            Config {
                role: Role::Controller,
                io_mode: IoMode::X1,
                sck: Sck::Sck20,
                alert_source: if alert == 0 {
                    AlertSource::AlertPin
                } else {
                    AlertSource::AlertIo1
                },
            },
        )
    } else if role == 1 {
        Err(ConfigError::UnsupportedRole)
    } else if io != 0 {
        Err(ConfigError::UnsupportedIoMode)
    } else {
        Err(ConfigError::UnsupportedSck)
    }
}

/// Packing then decoding gives back exactly the v1 configurations, and for any
/// other configuration the error names its first unsupported field.
pub proof fn lemma_decode_pack(c: Config)
    ensures
        spec_pack(c) < 64,
        spec_decode_config(spec_pack(c)) == if is_v1(c) {
            Ok::<Config, ConfigError>(c)
        } else if c.role == Role::Target {
            Err(ConfigError::UnsupportedRole)
        } else if c.io_mode != IoMode::X1 {
            Err(ConfigError::UnsupportedIoMode)
        } else {
            Err(ConfigError::UnsupportedSck)
        },
{
}

/// Two configurations with the same payload are the same configuration.
pub proof fn lemma_pack_injective(a: Config, b: Config)
    requires
        spec_pack(a) == spec_pack(b),
    ensures
        a == b,
{
}

} // verus!
