//! Settings of the mobile platforms that the library is bound to.

use vstd::prelude::*;
use crate::types::embedding::reason;

verus! {

/// A platform the library may be built for.
#[derive(Clone, Copy, Debug, PartialEq, Eq, Structural)]
pub enum MobilePlatform {
    Android,
    Ios,
    /// Any platform that is not a mobile one.
    Other,
}

/// Settings of a mobile platform.
#[derive(Debug, Clone)]
pub struct MobileConfig {
    /// Platform identifier
    pub platform: String,
    /// Device-specific settings
    pub device_settings: Option<String>,
    /// Security level (1-5)
    pub security_level: u8,
}

/// The security level of every platform.
pub const PLATFORM_SECURITY_LEVEL: u8 = 3;

impl MobileConfig {
    /// Whether the settings are those of `platform`: its name, the kind of
    /// binding it uses, and the security level of every platform.
    pub open spec fn is_for(&self, platform: MobilePlatform) -> bool {
        &&& self.security_level == PLATFORM_SECURITY_LEVEL
        &&& match platform {
            MobilePlatform::Android => self.platform@ == "android"@ && (
            self.device_settings matches Some(s) && s@ == "jni"@),
            MobilePlatform::Ios => self.platform@ == "ios"@ && (
            self.device_settings matches Some(s) && s@ == "ffi"@),
            MobilePlatform::Other => self.platform@ == "unknown"@ && self.device_settings is None,
        }
    }
}

impl Default for MobileConfig {
    fn default() -> (config: Self)
        ensures
            config.is_for(MobilePlatform::Other),
    {
        MobileConfig {
            platform: reason("unknown"),
            device_settings: None,
            security_level: PLATFORM_SECURITY_LEVEL,
        }
    }
}

/// What depends on the platform.
pub struct MobileUtils;

impl MobileUtils {
    /// The settings of `platform`.
    pub fn get_platform_config(platform: MobilePlatform) -> (config: MobileConfig)
        ensures
            config.is_for(platform),
            1 <= config.security_level <= 5,
    {
        match platform {
            MobilePlatform::Android => MobileConfig {
                platform: reason("android"),
                device_settings: Some(reason("jni")),
                security_level: PLATFORM_SECURITY_LEVEL,
            },
            MobilePlatform::Ios => MobileConfig {
                platform: reason("ios"),
                device_settings: Some(reason("ffi")),
                security_level: PLATFORM_SECURITY_LEVEL,
            },
            MobilePlatform::Other => MobileConfig {
                platform: reason("unknown"),
                device_settings: None,
                security_level: PLATFORM_SECURITY_LEVEL,
            },
        }
    }

    /// Whether `platform` has hardware-backed key storage: the two mobile
    /// platforms have.
    pub fn supports_hardware_security(platform: MobilePlatform) -> (supported: bool)
        ensures
            supported == (platform != MobilePlatform::Other),
    {
        match platform {
            MobilePlatform::Android => true,
            MobilePlatform::Ios => true,
            MobilePlatform::Other => false,
        }
    }
}

} // verus!
