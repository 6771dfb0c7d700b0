//! What the process is told before it starts.

use vstd::prelude::*;
use vstd::string::*;
use crate::text::{copy_opt, dec, decimal, number, parse_u64};

verus! {

/// Where the core is looked for unless something says otherwise.
pub const DEFAULT_BASE_URL: &'static str = "auto";

/// Where the pages are served unless something says otherwise.
pub const DEFAULT_HOST: &'static str = "127.0.0.1";

pub const DEFAULT_PORT: u16 = 4_890;

/// The firmware repository a project is opened on.
#[derive(Debug)]
pub struct StudyDesignerConfig {
    pub firmware_repo_path: String,
    /// The extractor that reads the firmware's source, where one is named.
    pub static_extractor: Option<String>,
}

impl StudyDesignerConfig {
    /// A copy of this configuration.
    pub fn copied(&self) -> (r: StudyDesignerConfig)
        ensures
            r == *self,
    {
        StudyDesignerConfig {
            firmware_repo_path: self.firmware_repo_path.clone(),
            static_extractor: copy_opt(&self.static_extractor),
        }
    }
}

/// The port that a setting names: the default where it is not set or is no port.
pub open spec fn port_named(setting: Option<Seq<char>>) -> u16 {
    match setting {
        Some(text) => match number(text) {
            Some(n) if n <= u16::MAX => n as u16,
            _ => DEFAULT_PORT,
        },
        None => DEFAULT_PORT,
    }
}

/// The address to serve on, host and port.
pub fn bind_address(host: &Option<String>, port: &Option<String>) -> (r: String)
    ensures
        r@ == (match host {
            Some(h) => h@,
            None => DEFAULT_HOST@,
        }) + ":"@ + decimal(
            port_named(
                match port {
                    Some(p) => Some(p@),
                    None => None,
                },
            ) as nat,
        ),
{
    let mut at = match host {
        Some(h) => h.clone(),
        None => DEFAULT_HOST.to_owned(),
    };
    let mut n: u16 = DEFAULT_PORT;
    if let Some(text) = port {
        if let Some(v) = parse_u64(text.as_str()) {
            if v <= 65_535 {
                n = v as u16;
            }
        }
    }
    at.append(":");
    at.append(dec(n as u64).as_str());
    at
}

/// The port is the one that is set wherever that is a port, and the default wherever it is
/// not.
pub proof fn a_port_that_is_set_is_used(setting: Option<Seq<char>>, port: u16)
    ensures
        port_named(Some(decimal(port as nat))) == port,
        setting is None ==> port_named(setting) == 4_890,
        setting is Some && (number(setting->0) is None || number(setting->0)->0 > 65_535)
            ==> port_named(setting) == 4_890,
        setting is Some && number(setting->0) is Some && number(setting->0)->0 <= 65_535
            ==> port_named(setting) == number(setting->0)->0,
{
    crate::text::a_decimal_reads_back(port as nat);
}

} // verus!
