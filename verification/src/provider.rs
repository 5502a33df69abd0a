//! Vendor-independent device provider types: discovered devices, device
//! state, action results, the provider error taxonomy, and the registry that
//! maps a provider name to its descriptor.
//!
//! The network calls of a concrete provider live outside this library; the
//! engine makes its decisions from the plain values they produce.

use vstd::prelude::*;
use vstd::string::StringExecFns;
use crate::text::str_eq;

verus! {

/// Device discovered from a provider.
#[derive(Clone, Debug)]
pub struct DiscoveredDevice {
    pub external_id: String,
    pub name: String,
    pub device_type: String,
}

/// What a device can do.
#[derive(Clone, Copy, PartialEq, Eq, Structural, Debug)]
pub struct DeviceCapabilities {
    pub can_toggle: bool,
    pub can_dim: bool,
    pub can_set_temperature: bool,
    pub can_read_consumption: bool,
}

impl Default for DeviceCapabilities {
    /// A plain switch: it toggles and nothing more.
    fn default() -> (r: DeviceCapabilities)
        ensures
            r.can_toggle && !r.can_dim && !r.can_set_temperature && !r.can_read_consumption,
    {
        DeviceCapabilities {
            can_toggle: true,
            can_dim: false,
            can_set_temperature: false,
            can_read_consumption: false,
        }
    }
}

/// Current state of a device. Readings are fixed-point: tenths of a degree
/// and tenths of a watt.
#[derive(Clone, Copy, PartialEq, Eq, Structural, Debug)]
pub struct DeviceState {
    pub is_on: bool,
    pub brightness: Option<u8>,
    pub temperature_decidegrees: Option<i32>,
    pub power_consumption_deciwatts: Option<u32>,
}

/// Result of one device action.
#[derive(Clone, Debug)]
pub struct DeviceActionResult {
    pub success: bool,
    pub message: Option<String>,
    pub new_state: Option<DeviceState>,
}

/// Errors a provider operation can produce.
#[derive(Clone, Debug)]
pub enum ProviderError {
    AuthenticationFailed(String),
    DeviceNotFound(String),
    ConnectionError(String),
    RateLimited,
    InvalidCredentials,
    Timeout,
    Unknown(String),
}

impl ProviderError {
    /// Errors that warrant one credential refresh followed by one retry.
    pub open spec fn spec_is_auth_error(&self) -> bool {
        match *self {
            ProviderError::AuthenticationFailed(_) => true,
            ProviderError::InvalidCredentials => true,
            _ => false,
        }
    }

    pub fn is_auth_error(&self) -> (r: bool)
        ensures
            r == self.spec_is_auth_error(),
    {
        match self {
            ProviderError::AuthenticationFailed(_) => true,
            ProviderError::InvalidCredentials => true,
            _ => false,
        }
    }

    /// A readable description, as operators see it in logs.
    pub fn message(&self) -> (r: String)
        ensures
            r@ == match *self {
                ProviderError::AuthenticationFailed(m) => "Authentication failed: "@ + m@,
                ProviderError::DeviceNotFound(m) => "Device not found: "@ + m@,
                ProviderError::ConnectionError(m) => "Connection error: "@ + m@,
                ProviderError::RateLimited => "Rate limited by provider"@,
                ProviderError::InvalidCredentials => "Invalid credentials"@,
                ProviderError::Timeout => "Request timeout"@,
                ProviderError::Unknown(m) => "Unknown error: "@ + m@,
            },
    {
        match self {
            ProviderError::AuthenticationFailed(m) => {
                let mut s = String::from_str("Authentication failed: ");
                s.append(m.as_str());
                s
            },
            ProviderError::DeviceNotFound(m) => {
                let mut s = String::from_str("Device not found: ");
                s.append(m.as_str());
                s
            },
            ProviderError::ConnectionError(m) => {
                let mut s = String::from_str("Connection error: ");
                s.append(m.as_str());
                s
            },
            ProviderError::RateLimited => String::from_str("Rate limited by provider"),
            ProviderError::InvalidCredentials => String::from_str("Invalid credentials"),
            ProviderError::Timeout => String::from_str("Request timeout"),
            ProviderError::Unknown(m) => {
                let mut s = String::from_str("Unknown error: ");
                s.append(m.as_str());
                s
            },
        }
    }
}

/// Descriptor of one registered provider.
#[derive(Clone, Debug)]
pub struct ProviderInfo {
    name: String,
    display_name: String,
    capabilities: DeviceCapabilities,
}

impl ProviderInfo {
    pub closed spec fn spec_name(&self) -> Seq<char> {
        self.name@
    }

    pub closed spec fn spec_display_name(&self) -> Seq<char> {
        self.display_name@
    }

    pub closed spec fn spec_capabilities(&self) -> DeviceCapabilities {
        self.capabilities
    }

    pub fn provider_name(&self) -> (r: &str)
        ensures
            r@ == self.spec_name(),
    {
        self.name.as_str()
    }

    pub fn display_name(&self) -> (r: &str)
        ensures
            r@ == self.spec_display_name(),
    {
        self.display_name.as_str()
    }

    pub fn get_capabilities(&self) -> (r: DeviceCapabilities)
        ensures
            r == self.spec_capabilities(),
    {
        self.capabilities
    }
}

/// Name-keyed registry of the providers the engine can drive. Built once at
/// startup and handed to the engine and the scheduler.
pub struct ProviderRegistry {
    providers: Vec<ProviderInfo>,
}

impl ProviderRegistry {
    pub closed spec fn spec_providers(&self) -> Seq<ProviderInfo> {
        self.providers@
    }

    pub open spec fn spec_has(&self, name: Seq<char>) -> bool {
        exists|i: int|
            0 <= i < self.spec_providers().len() && (#[trigger] self.spec_providers()[i]).spec_name()
                == name
    }

    /// The registry with every built-in provider: the vendor cloud adapter,
    /// under the name "meross".
    pub fn new() -> (r: ProviderRegistry)
        ensures
            r.spec_has("meross"@),
    {
        let info = ProviderInfo {
            name: String::from_str("meross"),
            display_name: String::from_str("Meross Smart Home"),
            capabilities: DeviceCapabilities {
                can_toggle: true,
                can_dim: false,
                can_set_temperature: false,
                can_read_consumption: true,
            },
        };
        let mut providers: Vec<ProviderInfo> = Vec::new();
        providers.push(info);
        let r = ProviderRegistry { providers };
        proof {
            assert(r.spec_providers()[0].spec_name() == "meross"@);
        }
        r
    }

    pub fn register(&mut self, provider: ProviderInfo)
        ensures
            final(self).spec_providers() == old(self).spec_providers().push(provider),
    {
        self.providers.push(provider);
    }

    /// The provider registered under `name`.
    pub fn get(&self, name: &str) -> (r: Option<&ProviderInfo>)
        ensures
            match r {
                Some(p) => self.spec_has(name@) && p.spec_name() == name@,
                None => !self.spec_has(name@),
            },
    {
        let mut i: usize = 0;
        while i < self.providers.len()
            invariant
                0 <= i <= self.spec_providers().len(),
                forall|j: int|
                    0 <= j < i ==> (#[trigger] self.spec_providers()[j]).spec_name() != name@,
            decreases self.spec_providers().len() - i,
        {
            if str_eq(self.providers[i].name.as_str(), name) {
                return Some(&self.providers[i]);
            }
            i += 1;
        }
        None
    }

    pub fn has_provider(&self, name: &str) -> (r: bool)
        ensures
            r == self.spec_has(name@),
    {
        match self.get(name) {
            Some(_) => true,
            None => false,
        }
    }

    /// The names of all registered providers, in registration order.
    pub fn available_providers(&self) -> (r: Vec<String>)
        ensures
            r@.len() == self.spec_providers().len(),
            forall|i: int|
                0 <= i < r@.len() ==> (#[trigger] r@[i])@ == self.spec_providers()[i].spec_name(),
    {
        let mut out: Vec<String> = Vec::new();
        let mut i: usize = 0;
        while i < self.providers.len()
            invariant
                0 <= i <= self.spec_providers().len(),
                out@.len() == i,
                forall|j: int|
                    0 <= j < i ==> (#[trigger] out@[j])@ == self.spec_providers()[j].spec_name(),
            decreases self.spec_providers().len() - i,
        {
            let name = self.providers[i].name.clone();
            out.push(name);
            i += 1;
        }
        out
    }
}

impl Default for ProviderRegistry {
    fn default() -> (r: ProviderRegistry)
        ensures
            r.spec_has("meross"@),
    {
        ProviderRegistry::new()
    }
}

} // verus!
