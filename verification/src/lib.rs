//! Verified core of a LAN clipboard synchronisation service: fingerprints of
//! peer certificates, the mDNS advertisement of a device, the registry of
//! discovered devices, the replay filter for incoming payloads, the framing of
//! payload metadata and the planning of file archives.

pub mod fingerprint;
pub mod decimal;
pub mod encoding;
pub mod properties;
pub mod collections;
pub mod devices;
pub mod registry;
pub mod clipboard;
pub mod transfer;
pub mod paths;
