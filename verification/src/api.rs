//! The values that the web API exchanges.
use vstd::prelude::*;
use crate::rauc::{InstallProgress, SlotStatus};

verus! {

pub struct SystemInfo {
    pub hostname: String,
    pub version: String,
    pub channel: String,
    pub uptime_seconds: u64,
    pub pi_version: u8,
    pub components: ComponentVersions,
}

#[derive(Clone)]
pub struct ComponentVersions {
    pub server: String,
    pub client: String,
    pub ctrl: String,
    pub kernel: String,
}

pub struct SystemUpdate {
    pub hostname: Option<String>,
    pub channel: Option<String>,
}

pub struct LogsResponse {
    pub lines: Vec<String>,
}

pub struct LogsQuery {
    pub service: Option<String>,
}

pub struct TimezoneInfo {
    pub timezone: String,
    pub available: Vec<String>,
}

pub struct TimezoneUpdate {
    pub timezone: String,
}

pub struct UpdateCheckResponse {
    pub available: bool,
    pub current_version: String,
    pub channel: String,
    pub bundle_url: String,
}

pub struct UpdateStatus {
    pub operation: String,
    pub progress: Option<InstallProgress>,
    pub last_error: String,
    pub slots: Vec<SlotStatus>,
}

#[derive(Clone)]
pub struct AutoUpdateConfig {
    pub enabled: bool,
    pub channel: String,
    pub interval: String,
    pub time: String,
}

pub struct NetworkOverview {
    pub ethernet: EthernetInfo,
    pub wifi: WifiInfo,
}

#[derive(Clone)]
pub struct EthernetInfo {
    pub connected: bool,
    pub mode: String,
    pub ip: String,
    pub subnet: String,
    pub gateway: String,
    pub dns: String,
}

pub struct WifiInfo {
    pub connected: bool,
    pub ssid: String,
    pub ip: String,
    pub subnet: String,
    pub gateway: String,
    pub dns: String,
    pub signal: i32,
    pub mode: String,
}

pub struct EthernetConfig {
    pub mode: String,
    pub ip: Option<String>,
    pub subnet: Option<String>,
    pub gateway: Option<String>,
    pub dns: Option<String>,
}

pub struct WifiConfig {
    pub ssid: String,
    pub password: String,
    pub mode: Option<String>,
    pub ip: Option<String>,
    pub subnet: Option<String>,
    pub gateway: Option<String>,
    pub dns: Option<String>,
}

pub struct WifiNetwork {
    pub ssid: String,
    pub signal: i32,
    pub security: String,
}

pub struct WifiScanResult {
    pub networks: Vec<WifiNetwork>,
}

pub struct AudioInfo {
    pub overlay: String,
    pub detected_card: String,
    pub detected_hat: String,
    pub soundcard: String,
    pub available_overlays: Vec<DacOverlay>,
}

pub struct DacOverlay {
    pub id: String,
    pub name: String,
}

pub struct AudioConfig {
    pub overlay: String,
}

pub struct DiscoveredServer {
    pub name: String,
    pub host: String,
    pub port: u16,
}

pub struct ScanServersResponse {
    pub servers: Vec<DiscoveredServer>,
}

pub struct TestServerRequest {
    pub host: String,
    pub port: u16,
}

pub struct TestServerResponse {
    pub reachable: bool,
}

#[derive(Clone)]
pub struct SshConfig {
    pub enabled: bool,
    pub pubkeys: Vec<String>,
}

pub struct ServerStatus {
    pub enabled: bool,
    pub running: bool,
}

} // verus!
