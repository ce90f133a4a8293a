//! Per-host root volume claims.
//!
//! Each booting machine gets its own copy-on-write clone of one golden. The claim
//! is made server-side at script-render time, which is what keeps the initramfs
//! dumb: it is handed a portal, a target and a namespace on the kernel command
//! line and never has to negotiate anything.
//!
//! Field names below are sbregistry's: it flattens the engine's attach block into
//! `address`, `port` and `target`, and the port is per export. Assuming the shared
//! one attaches the wrong thing or nothing at all.

use crate::server::mac;
use crate::server::mac::Mac;
use crate::strings;
use crate::text;
use vstd::prelude::*;
use vstd::string::StringExecFns;

verus! {

/// Attach details as sbregistry reports them.
#[derive(Debug, PartialEq, Eq)]
pub struct Attach {
    /// e.g. `nvme-tcp`. Read, never assumed.
    pub protocol: String,
    /// Host or IP only, never `host:port`.
    pub address: String,
    /// Per-export port, not the subsystem's shared listener.
    pub port: u16,
    /// The NQN (or IQN for an iSCSI export).
    pub target: String,
    pub nsid: Option<u32>,
    /// Informational RouterOS `/disk add` line, if the registry emitted one.
    pub disk_add: Option<String>,
}

impl Clone for Attach {
    fn clone(&self) -> (r: Self)
        ensures
            r == *self,
    {
        Attach {
            protocol: self.protocol.clone(),
            address: self.address.clone(),
            port: self.port,
            target: self.target.clone(),
            nsid: self.nsid,
            disk_add: strings::clone_opt(&self.disk_add),
        }
    }
}

#[derive(Debug, PartialEq, Eq)]
pub struct ClaimResponse {
    pub id: String,
    pub golden: String,
    pub template: String,
    pub state: String,
    pub volume_name: String,
    /// Null until the registry has an export for the clone.
    pub attach: Option<Attach>,
}

impl Clone for ClaimResponse {
    fn clone(&self) -> (r: Self)
        ensures
            r == *self,
    {
        ClaimResponse {
            id: self.id.clone(),
            golden: self.golden.clone(),
            template: self.template.clone(),
            state: self.state.clone(),
            volume_name: self.volume_name.clone(),
            attach: match &self.attach {
                Some(a) => Some(a.clone()),
                None => None,
            },
        }
    }
}

impl ClaimResponse {
    pub open spec fn attachable(self) -> bool {
        match self.attach {
            Some(a) => a.address@.len() > 0 && a.target@.len() > 0 && a.port != 0,
            None => false,
        }
    }

    /// Whether this claim can actually be booted from.
    pub fn is_attachable(&self) -> (r: bool)
        ensures
            r == self.attachable(),
    {
        match &self.attach {
            Some(a) => !strings::is_empty(a.address.as_str()) && !strings::is_empty(
                a.target.as_str(),
            ) && a.port != 0,
            None => false,
        }
    }
}

/// What to ask the registry for.
#[derive(Debug, PartialEq, Eq)]
pub struct ClaimRequest {
    pub url: String,
    pub golden: String,
    /// The machine that will hold the clone, so that the registry's own view
    /// names it.
    pub consumer: Option<String>,
}

/// What the registry answered.
#[derive(Debug)]
pub enum ClaimReply {
    /// It could not be reached.
    Unreachable,
    /// It answered with this status and body.
    Answered {
        success: bool,
        status: String,
        text: String,
        /// The body, read as a claim.
        claim: Option<ClaimResponse>,
    },
}

/// What a claim for `request` comes to.
pub open spec fn outcome(request: ClaimRequest, reply: ClaimReply) -> Result<
    ClaimResponse,
    Seq<char>,
> {
    match reply {
        ClaimReply::Unreachable => Err("POST "@ + request.url@),
        ClaimReply::Answered { success, status, text, claim } => if !success {
            Err(
                "claim for golden "@ + request.golden@ + " failed ("@ + status@ + "): "@
                    + text::trim(text@),
            )
        } else {
            match claim {
                None => Err("parsing claim response: "@ + text@),
                Some(c) => if c.attachable() {
                    Ok(c)
                } else {
                    Err(
                        "claim "@ + c.id@ + " for golden "@ + request.golden@
                            + " has no usable attach info (state "@ + c.state@ + ")"@,
                    )
                },
            }
        },
    }
}

#[derive(Debug)]
pub struct ClaimClient {
    registry: String,
    /// Golden every booting host clones from, unless its record names another.
    default_golden: String,
}

impl ClaimClient {
    /// The registry's base URL, without a trailing slash.
    pub closed spec fn base(&self) -> Seq<char> {
        self.registry@
    }

    pub closed spec fn fallback(&self) -> Seq<char> {
        self.default_golden@
    }

    pub fn new(registry: String, default_golden: String) -> (r: Self)
        ensures
            r.base() == text::trim_end_char(registry@, '/'),
            r.fallback() == default_golden@,
    {
        ClaimClient {
            registry: strings::trim_end_char(registry.as_str(), '/'),
            default_golden,
        }
    }

    /// The request for a clone for one host.
    pub fn request(&self, mac: Option<&Mac>, golden: Option<&str>) -> (r: ClaimRequest)
        ensures
            r.url@ == self.base() + "/v1/clones/claim"@,
            r.golden@ == match golden {
                Some(g) => g@,
                None => self.fallback(),
            },
            text::opt_text(r.consumer) == match mac {
                Some(m) => Some(mac::canonical(m@)),
                None => None,
            },
    {
        ClaimRequest {
            url: strings::concat(self.registry.as_str(), "/v1/clones/claim"),
            golden: match golden {
                Some(g) => g.to_owned(),
                None => self.default_golden.clone(),
            },
            consumer: match mac {
                Some(m) => Some(m.to_text()),
                None => None,
            },
        }
    }

    /// What the registry's answer to `request` comes to. The registry's error
    /// text is the useful part: it names the golden it could not find.
    pub fn claim(request: &ClaimRequest, reply: ClaimReply) -> (r: Result<ClaimResponse, String>)
        ensures
            match r {
                Ok(c) => outcome(*request, reply) == Ok::<ClaimResponse, Seq<char>>(c),
                Err(said) => outcome(*request, reply) == Err::<ClaimResponse, Seq<char>>(said@),
            },
    {
        match reply {
            ClaimReply::Unreachable => Err(strings::concat("POST ", request.url.as_str())),
            ClaimReply::Answered { success, status, text, claim } => {
                if !success {
                    let mut said = strings::concat("claim for golden ", request.golden.as_str());
                    said.append(" failed (");
                    said.append(status.as_str());
                    said.append("): ");
                    said.append(strings::trim(text.as_str()).as_str());
                    return Err(said);
                }
                match claim {
                    None => Err(strings::concat("parsing claim response: ", text.as_str())),
                    Some(c) => {
                        if c.is_attachable() {
                            Ok(c)
                        } else {
                            let mut said = strings::concat("claim ", c.id.as_str());
                            said.append(" for golden ");
                            said.append(request.golden.as_str());
                            said.append(" has no usable attach info (state ");
                            said.append(c.state.as_str());
                            said.append(")");
                            Err(said)
                        }
                    },
                }
            },
        }
    }
}

// ---------------------------------------------------------------------------
// Laws

/// A claim that is handed out can be booted from: it names an address, a target
/// and a port.
pub proof fn law_claims_handed_out_are_attachable(request: ClaimRequest, reply: ClaimReply)
    requires
        outcome(request, reply) is Ok,
    ensures
        (outcome(request, reply)->Ok_0).attachable(),
{
}

/// Whether a claim can be booted from hangs on its address, its target and its port, and
/// on nothing else.
pub proof fn law_a_claim_is_attachable_by_what_it_names(claim: ClaimResponse)
    ensures
        claim.attachable() <==> claim.attach is Some && claim.attach->0.address@ != ""@
            && claim.attach->0.target@ != ""@ && claim.attach->0.port > 0,
{
    reveal_strlit("");
    if let Some(a) = claim.attach {
        assert(a.address@.len() == 0 ==> a.address@ =~= ""@);
        assert(a.target@.len() == 0 ==> a.target@ =~= ""@);
    }
}

/// A claim comes out exactly where the registry was reached, said yes and answered with
/// one that can be booted from; and it is the one it answered with.
pub proof fn law_a_usable_answer_is_the_claim(
    request: ClaimRequest,
    success: bool,
    status: String,
    body: String,
    claim: Option<ClaimResponse>,
)
    ensures
        ({
            let reply = ClaimReply::Answered { success, status, text: body, claim };
            let usable = success && claim is Some && claim->0.attach is Some
                && claim->0.attach->0.address@.len() > 0 && claim->0.attach->0.target@.len() > 0
                && claim->0.attach->0.port > 0;
            &&& outcome(request, reply) is Ok <==> usable
            &&& usable ==> outcome(request, reply) == Ok::<ClaimResponse, Seq<char>>(claim->0)
        }),
        outcome(request, ClaimReply::Unreachable) is Err,
{
}

/// A claim that fails says why: where the registry was looked for, what it answered and
/// for which golden, or which claim could not be attached.
pub proof fn law_a_failed_claim_says_why(
    request: ClaimRequest,
    success: bool,
    status: String,
    body: String,
    claim: Option<ClaimResponse>,
)
    requires
        outcome(request, ClaimReply::Answered { success, status, text: body, claim }) is Err,
    ensures
        ({
            let said = outcome(
                request,
                ClaimReply::Answered { success, status, text: body, claim },
            )->Err_0;
            &&& !success ==> exists|a: Seq<char>, b: Seq<char>, c: Seq<char>|
                said == #[trigger] (a + request.golden@ + b + status@ + c) && text::trim(
                    body@,
                ).is_suffix_of(c)
            &&& success && claim is None ==> body@.is_suffix_of(said)
            &&& success && claim is Some ==> exists|a: Seq<char>, b: Seq<char>, c: Seq<char>|
                said == #[trigger] (a + claim->0.id@ + b + request.golden@ + c)
        }),
        outcome(request, ClaimReply::Unreachable)->Err_0 == "POST "@ + request.url@,
{
    let said = outcome(
        request,
        ClaimReply::Answered { success, status, text: body, claim },
    )->Err_0;
    if !success {
        let a = "claim for golden "@;
        let b = " failed ("@;
        let c = "): "@ + text::trim(body@);
        assert(c.subrange(c.len() - text::trim(body@).len(), c.len() as int) =~= text::trim(body@));
        assert(said =~= a + request.golden@ + b + status@ + c);
    } else if claim is None {
        assert(said.subrange(said.len() - body@.len(), said.len() as int) =~= body@);
    } else {
        let a = "claim "@;
        let b = " for golden "@;
        let c = " has no usable attach info (state "@ + claim->0.state@ + ")"@;
        assert(said =~= a + claim->0.id@ + b + request.golden@ + c);
    }
}

} // verus!
