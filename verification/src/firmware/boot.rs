//! The order of a boot from firmware.
//!
//! Who am I, is there a TCP stack, what should I boot, attach it, and hand it to
//! the firmware as an ordinary disk. Identity is the service tag, not a MAC.

use crate::firmware::config::Config;
use crate::firmware::nvme::Geometry;
use crate::firmware::registry;
use crate::firmware::registry::{claim_request, existing, Attach, AttachView};
use crate::strings;
use vstd::prelude::*;

verus! {

/// The golden to claim when this machine has no clone yet.
pub const GOLDEN: &'static str = "stormcos-edge";

pub const REGISTRY_HOST: &'static str = "sbregistry.gt.lo:5100";

pub const REGISTRY_PORT: u16 = 5100;

pub const DIRECT_PORT: u16 = 4420;

pub const DIRECT_NQN: &'static str = "nqn.2026-09.lo.g16:stormcos";

pub const DIRECT_NSID: u32 = 2;

/// Where sbregistry lives, for the claim path.
pub fn registry_ip() -> (r: [u8; 4])
    ensures
        r@ == seq![192u8, 168u8, 200u8, 22u8],
{
    let r = [192u8, 168u8, 200u8, 22u8];
    assert(r@ =~= seq![192u8, 168u8, 200u8, 22u8]);
    r
}

/// The portal attached to when nothing on the media says otherwise.
pub fn direct_portal() -> (r: [u8; 4])
    ensures
        r@ == seq![192u8, 168u8, 31u8, 202u8],
{
    let r = [192u8, 168u8, 31u8, 202u8];
    assert(r@ =~= seq![192u8, 168u8, 31u8, 202u8]);
    r
}

/// What a machine that cannot boot this way is told.
pub fn check_platform(tag: Option<String>, tcp4: bool) -> (r: Result<String, String>)
    ensures
        match tag {
            None => r matches Err(said) && said@ == "SMBIOS carries no system serial number"@,
            Some(t) => if tcp4 {
                r == Ok::<String, String>(t)
            } else {
                r matches Err(said) && said@
                    == "EFI_TCP4 is not present. Enable network boot / the NIC's UEFI PXE stack in setup so the firmware loads its TCP/IP drivers."@
            },
        },
{
    match tag {
        None => Err("SMBIOS carries no system serial number".to_owned()),
        Some(t) => {
            if tcp4 {
                Ok(t)
            } else {
                Err(
                    "EFI_TCP4 is not present. Enable network boot / the NIC's UEFI PXE stack in setup so the firmware loads its TCP/IP drivers.".to_owned(),
                )
            }
        },
    }
}

/// The target that the configuration names.
pub fn direct_attach(cfg: Config) -> (r: Attach)
    ensures
        r@ == (AttachView {
            address: cfg@.portal,
            port: cfg@.port,
            nqn: cfg@.nqn,
            nsid: cfg@.nsid,
        }),
{
    Attach { address: cfg.portal, port: cfg.port, nqn: cfg.nqn, nsid: cfg.nsid }
}

/// What a lookup of this machine's clone leads to.
#[derive(Debug)]
pub enum Finding {
    /// The clone it already holds.
    Reattach(Attach),
    /// It holds none: the request that claims one from the golden.
    Claim { request: String },
}

/// A clone this machine already holds is reused, so a reboot reattaches the same
/// volume rather than minting another; one is claimed only where it holds none.
pub fn after_lookup(response: &str, tag: &str) -> (r: Result<Finding, String>)
    ensures
        match registry::held(response@) {
            Ok(Some(a)) => r matches Ok(Finding::Reattach(found)) && found@ == a,
            Ok(None) => r matches Ok(Finding::Claim { request }) && request@
                == registry::claim_text(REGISTRY_HOST@, GOLDEN@, tag@),
            Err(why) => r matches Err(said) && said@ == why,
        },
{
    match existing(response) {
        Ok(Some(attach)) => Ok(Finding::Reattach(attach)),
        Ok(None) => Ok(Finding::Claim { request: claim_request(REGISTRY_HOST, GOLDEN, tag) }),
        Err(said) => Err(said),
    }
}

/// The host NQN is derived from the service tag so the target sees a stable
/// initiator identity across reboots.
pub fn host_nqn(tag: &str) -> (r: String)
    ensures
        r@ == "nqn.2026-09.lo.storm:host-"@ + tag@,
{
    strings::concat("nqn.2026-09.lo.storm:host-", tag)
}

/// The size of a namespace in GiB, for the console.
pub fn gib(g: &Geometry) -> (r: u64)
    ensures
        r == (if g.blocks * g.block_size <= u64::MAX {
            g.blocks * g.block_size
        } else {
            u64::MAX as int
        }) / 0x4000_0000,
{
    proof {
        assert(g.blocks * g.block_size <= u64::MAX * u32::MAX) by (nonlinear_arith)
            requires
                g.blocks <= u64::MAX,
                g.block_size <= u32::MAX,
                0 <= g.blocks,
                0 <= g.block_size,
        ;
    }
    let size: u128 = g.blocks as u128 * g.block_size as u128;
    if size <= 0xFFFF_FFFF_FFFF_FFFF {
        size as u64 / 0x4000_0000
    } else {
        0xFFFF_FFFF_FFFF_FFFFu64 / 0x4000_0000
    }
}

} // verus!
