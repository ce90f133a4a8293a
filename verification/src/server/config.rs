//! Server configuration.
//!
//! Everything is settable by flag or environment variable so the same binary runs
//! from a shell, a boot.d spec, and a container without a config file.

use crate::server::hosts::UnknownHostPolicy;
use crate::strings;
use crate::text;
use vstd::prelude::*;
use vstd::string::StringExecFns;

verus! {

#[derive(Debug)]
pub struct Config {
    /// Firmware-facing address: boot scripts, kernel, initramfs, ISOs. Reachable
    /// by every machine that can PXE, so it carries only what a booting machine
    /// needs. Written the one way a socket address is.
    pub listen: String,
    /// Management address: console feed, metrics, host administration. Split from
    /// the boot surface: the two sit on different networks, and management should
    /// not be exposed to anything that merely knows how to PXE.
    pub mgmt_listen: String,
    /// Directory the boot assets are served from. With a registry this is a cache
    /// the boot pallet is projected into; without one, whatever is in it is served
    /// as it is.
    pub asset_dir: String,
    /// Base URL clients use to reach this server. Baked into rendered boot
    /// scripts, so it must be the service name clients resolve.
    pub base_url: String,
    /// sbregistry base URL, e.g. `http://registry:5100`.
    pub registry: Option<String>,
    /// Repository holding the boot pallet.
    pub pallet_repo: String,
    /// Tag or digest of the boot pallet to serve.
    pub pallet_ref: String,
    /// How often to re-check the registry for a new boot pallet digest.
    pub refresh_secs: u64,
    /// Ed25519 public keys (or key ids) trusted to sign the boot pallet.
    pub trusted_keys: Vec<String>,
    /// Serve a boot pallet even when no trusted signature covers it. Off by
    /// default: what this server hands out is executed as the kernel of every
    /// machine that asks.
    pub allow_unsigned: bool,
    /// Golden every booting host clones its root from.
    pub golden: Option<String>,
    /// Claim a per-host CoW clone from sbregistry when rendering a boot script.
    pub claim: bool,
    /// File of host records.
    pub hosts_file: Option<String>,
    /// What to do when a machine with no record asks to boot.
    pub unknown_hosts: UnknownHostPolicy,
    /// NVMe/TCP portal used when no per-host claim is made.
    pub portal: Option<String>,
    /// Port for that portal.
    pub portal_port: u16,
    /// Extra kernel command line appended to every rendered boot script.
    pub extra_cmdline: String,
    /// Local disk the booted node assimilates onto (zeroboot flow-over).
    /// Destructive to that device on the target, which is why it is explicit
    /// rather than guessed.
    pub local_disk: Option<String>,
}

impl Default for Config {
    fn default() -> (r: Self)
        ensures
            r.listen@ == "0.0.0.0:8080"@,
            r.mgmt_listen@ == "0.0.0.0:9096"@,
            r.asset_dir@ == "/var/lib/stormnetboot/assets"@,
            r.base_url@ == "http://boot.storm.lo:8080"@,
            r.registry is None,
            r.pallet_repo@ == "stormcos/boot"@,
            r.pallet_ref@ == "latest"@,
            r.refresh_secs == 60,
            r.trusted_keys@.len() == 0,
            !r.allow_unsigned,
            r.golden is None,
            !r.claim,
            r.hosts_file is None,
            r.unknown_hosts == UnknownHostPolicy::Allow,
            r.portal is None,
            r.portal_port == 4420,
            r.extra_cmdline@.len() == 0,
            r.local_disk is None,
    {
        Config {
            listen: "0.0.0.0:8080".to_owned(),
            mgmt_listen: "0.0.0.0:9096".to_owned(),
            asset_dir: "/var/lib/stormnetboot/assets".to_owned(),
            base_url: "http://boot.storm.lo:8080".to_owned(),
            registry: None,
            pallet_repo: "stormcos/boot".to_owned(),
            pallet_ref: "latest".to_owned(),
            refresh_secs: 60,
            trusted_keys: Vec::new(),
            allow_unsigned: false,
            golden: None,
            claim: false,
            hosts_file: None,
            unknown_hosts: UnknownHostPolicy::Allow,
            portal: None,
            portal_port: 4420,
            extra_cmdline: String::new(),
            local_disk: None,
        }
    }
}

/// Why a configuration is refused.
pub open spec fn objection(c: Config) -> Option<Seq<char>> {
    if c.claim && c.registry is None {
        Some("--claim needs --registry to claim clones from"@)
    } else if c.claim && c.golden is None {
        Some("--claim needs --golden to say what to clone"@)
    } else if c.registry is Some && c.trusted_keys@.len() == 0 && !c.allow_unsigned {
        Some(
            "no --trusted-key configured: pass one, or --allow-unsigned to serve a boot pallet nobody has vouched for"@,
        )
    } else if c.listen@ == c.mgmt_listen@ {
        Some(
            "--listen and --mgmt-listen are both "@ + c.listen@
                + "; the boot surface and the management surface must not share a socket"@,
        )
    } else {
        None
    }
}

impl Config {
    /// Base URL without a trailing slash, safe to concatenate paths onto.
    pub fn base_url(&self) -> (r: String)
        ensures
            r@ == text::trim_end_char(self.base_url@, '/'),
    {
        strings::trim_end_char(self.base_url.as_str(), '/')
    }

    pub open spec fn projects(self) -> bool {
        self.registry is Some
    }

    /// Whether pallet projection is configured.
    pub fn projects_pallets(&self) -> (r: bool)
        ensures
            r == self.projects(),
    {
        self.registry.is_some()
    }

    pub open spec fn claims(self) -> bool {
        self.claim && self.registry is Some && self.golden is Some
    }

    /// Whether per-host claims can actually be made.
    pub fn claims_enabled(&self) -> (r: bool)
        ensures
            r == self.claims(),
    {
        self.claim && self.registry.is_some() && self.golden.is_some()
    }

    /// Reject combinations that would fail confusingly at run time.
    pub fn validate(&self) -> (r: Result<(), String>)
        ensures
            match r {
                Ok(()) => objection(*self) is None,
                Err(said) => objection(*self) == Some(said@),
            },
    {
        if self.claim && self.registry.is_none() {
            return Err("--claim needs --registry to claim clones from".to_owned());
        }
        if self.claim && self.golden.is_none() {
            return Err("--claim needs --golden to say what to clone".to_owned());
        }
        if self.projects_pallets() && self.trusted_keys.len() == 0 && !self.allow_unsigned {
            return Err(
                "no --trusted-key configured: pass one, or --allow-unsigned to serve a boot pallet nobody has vouched for".to_owned(),
            );
        }
        if strings::eq(self.listen.as_str(), self.mgmt_listen.as_str()) {
            let mut said = strings::concat(
                "--listen and --mgmt-listen are both ",
                self.listen.as_str(),
            );
            said.append("; the boot surface and the management surface must not share a socket");
            return Err(said);
        }
        Ok(())
    }
}

// ---------------------------------------------------------------------------
// Laws

/// A configuration that is accepted and asks for claims can make them, and one
/// that projects pallets has a key to check them with or says that it does not
/// want one.
pub proof fn law_accepted_configurations_are_complete(c: Config)
    requires
        objection(c) is None,
    ensures
        c.claim ==> c.claims(),
        c.projects() ==> c.trusted_keys@.len() > 0 || c.allow_unsigned,
        c.listen@ != c.mgmt_listen@,
{
}

/// A configuration is refused only for what would fail later: claims without a registry
/// or a golden, pallets that nobody vouches for where that was not asked for, or one
/// address for both surfaces.
pub proof fn law_a_configuration_is_refused_for_cause(c: Config)
    ensures
        objection(c) is None <==> (c.claim ==> c.registry is Some && c.golden is Some) && (
        c.registry is Some ==> c.trusted_keys@.len() > 0 || c.allow_unsigned) && c.listen@
            != c.mgmt_listen@,
        c.claims() <==> c.claim && c.registry is Some && c.golden is Some,
        c.projects() <==> c.registry is Some,
{
}

} // verus!
