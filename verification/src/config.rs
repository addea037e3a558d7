//! Startup configuration for the relay and for a peer. Amounts are
//! textual decimal strings, as they travel on the wire.
use vstd::prelude::*;

verus! {

/// How the dev fee is computed from an amount.
#[derive(Debug, Clone, Copy, PartialEq, Eq, Structural)]
pub enum DevFeeMode {
    Bps,
    Percent,
}

/// Lowercase wire name of a fee mode.
pub open spec fn spec_fee_mode_str(m: DevFeeMode) -> Seq<char> {
    match m {
        DevFeeMode::Bps => "bps"@,
        DevFeeMode::Percent => "percent"@,
    }
}

impl DevFeeMode {
    pub fn as_str(&self) -> (r: &'static str)
        ensures
            r@ == spec_fee_mode_str(*self),
    {
        match self {
            DevFeeMode::Bps => "bps",
            DevFeeMode::Percent => "percent",
        }
    }
}

/// The dev fee applied to every value transfer.
#[derive(Debug, Clone, Copy, PartialEq, Eq, Structural)]
pub struct DevFeeConfig {
    pub mode: DevFeeMode,
    pub value: u32,
}

/// Everything the relay needs at startup.
#[derive(Debug)]
pub struct RelayConfig {
    pub bind_addr: String,
    pub data_dir: String,
    pub dev_fee: DevFeeConfig,
    pub dev_wallet_pubkey: String,
    pub room_price_xmr: String,
    pub username_fee_xmr: String,
}

impl Clone for RelayConfig {
    fn clone(&self) -> (res: Self)
        ensures
            res == *self,
    {
        RelayConfig {
            bind_addr: self.bind_addr.clone(),
            data_dir: self.data_dir.clone(),
            dev_fee: self.dev_fee,
            dev_wallet_pubkey: self.dev_wallet_pubkey.clone(),
            room_price_xmr: self.room_price_xmr.clone(),
            username_fee_xmr: self.username_fee_xmr.clone(),
        }
    }
}

/// Everything a peer needs at startup.
#[derive(Debug)]
pub struct ClientConfig {
    pub relay_url: String,
    pub tor_enabled: bool,
    pub socks5_proxy: Option<String>,
    pub remote_node_url: Option<String>,
    pub identity_key_path: String,
}

} // verus!
