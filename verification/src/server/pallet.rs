//! Boot pallet projection.
//!
//! The kernel and initramfs a machine executes come from the active signed boot
//! pallet in sbregistry, fetched by digest and verified before a single byte is
//! served. Nothing is ever served from a tag alone: a tag is only how we discover
//! which digest to pin.

use crate::server::digest;
use crate::server::stormsig;
use crate::server::stormsig::SignatureDoc;
use crate::strings;
use crate::text;
use vstd::prelude::*;
use vstd::string::StringExecFns;

verus! {

/// What the server is currently able to serve, for health and the console.
#[derive(Debug, PartialEq, Eq)]
pub struct AssetStatus {
    pub ready: bool,
    pub detail: String,
    pub version: Option<String>,
    pub digest: Option<String>,
    pub signature_verified: bool,
}

#[verifier::ext_equal]
pub struct AssetStatusView {
    pub ready: bool,
    pub detail: Seq<char>,
    pub version: Option<Seq<char>>,
    pub digest: Option<Seq<char>>,
    pub signature_verified: bool,
}

impl View for AssetStatus {
    type V = AssetStatusView;

    open spec fn view(&self) -> AssetStatusView {
        AssetStatusView {
            ready: self.ready,
            detail: self.detail@,
            version: text::opt_text(self.version),
            digest: text::opt_text(self.digest),
            signature_verified: self.signature_verified,
        }
    }
}

impl Clone for AssetStatus {
    fn clone(&self) -> (r: Self)
        ensures
            r == *self,
    {
        AssetStatus {
            ready: self.ready,
            detail: self.detail.clone(),
            version: strings::clone_opt(&self.version),
            digest: strings::clone_opt(&self.digest),
            signature_verified: self.signature_verified,
        }
    }
}

impl Default for AssetStatus {
    fn default() -> (r: Self)
        ensures
            r@ == (AssetStatusView {
                ready: false,
                detail: "no boot pallet fetched yet"@,
                version: None,
                digest: None,
                signature_verified: false,
            }),
    {
        AssetStatus {
            ready: false,
            detail: "no boot pallet fetched yet".to_owned(),
            version: None,
            digest: None,
            signature_verified: false,
        }
    }
}

/// artifactType of a pallet manifest.
pub const PALLET_ARTIFACT_TYPE: &'static str = "application/vnd.stormblock.pallet.v1+json";

/// Media type of the pallet spec carried as the manifest's config blob.
pub const PALLET_CONFIG_TYPE: &'static str = "application/vnd.stormblock.pallet.config.v1+json";

/// Media type prefix shared by every member layer; the suffix is the role.
pub const MEMBER_MEDIA_PREFIX: &'static str = "application/vnd.stormblock.member.";

pub const OCI_MANIFEST_TYPE: &'static str = "application/vnd.oci.image.manifest.v1+json";

pub const OCI_INDEX_TYPE: &'static str = "application/vnd.oci.image.index.v1+json";

pub const ANNOTATION_ROLE: &'static str = "org.stormblock.member.role";

pub const ANNOTATION_NAME: &'static str = "org.stormblock.member.name";

// ---------------------------------------------------------------------------
// Manifests

/// An annotation: its key and its value.
#[derive(Debug)]
pub struct Annotation {
    pub key: String,
    pub value: String,
}

#[derive(Debug)]
pub struct Descriptor {
    pub media_type: String,
    pub digest: String,
    /// Zero when the manifest does not say.
    pub size: u64,
    pub artifact_type: Option<String>,
    /// Each key once.
    pub annotations: Vec<Annotation>,
}

#[derive(Debug)]
pub struct Manifest {
    pub artifact_type: Option<String>,
    pub config: Descriptor,
    pub layers: Vec<Descriptor>,
    /// Each key once.
    pub annotations: Vec<Annotation>,
}

#[derive(Debug)]
pub struct Index {
    pub manifests: Vec<Descriptor>,
}

/// The pallet's config blob: the spec describing the pallet.
#[derive(Debug)]
pub struct PalletSpec {
    pub name: String,
    pub kind: String,
    pub version_label: String,
    pub members: Vec<MemberDef>,
}

/// A member as described by the spec.
///
/// The `source` tag matters: a `blob` member's bytes are fetched by digest, but an
/// `inline` member's content is carried in the spec itself and there is no blob to
/// fetch. Treating them alike is how a cmdline turns into a 404.
#[derive(Debug)]
pub struct MemberDef {
    pub name: String,
    pub role: String,
    pub source: String,
    pub digest: Option<String>,
    pub text: Option<String>,
}

/// The value the annotations give for `key`.
pub open spec fn annotation(annotations: Seq<Annotation>, key: Seq<char>) -> Option<Seq<char>>
    decreases annotations.len(),
{
    if annotations.len() == 0 {
        None
    } else if annotations[0].key@ == key {
        Some(annotations[0].value@)
    } else {
        annotation(annotations.skip(1), key)
    }
}

fn find_annotation(annotations: &Vec<Annotation>, key: &str) -> (r: Option<String>)
    ensures
        text::opt_text(r) == annotation(annotations@, key@),
{
    let mut i: usize = 0;
    assert(annotations@.skip(0) == annotations@);
    while i < annotations.len()
        invariant
            i <= annotations@.len(),
            annotation(annotations@, key@) == annotation(annotations@.skip(i as int), key@),
        decreases annotations@.len() - i,
    {
        assert(annotations@.skip(i as int)[0] == annotations@[i as int]);
        if strings::eq(annotations[i].key.as_str(), key) {
            return Some(annotations[i].value.clone());
        }
        assert(annotations@.skip(i as int).skip(1) == annotations@.skip(i + 1));
        i = i + 1;
    }
    None
}

/// What the server calls a member of that role on disk, where it serves one.
/// Firmware asks for these filenames.
pub open spec fn filename(role: Seq<char>) -> Option<Seq<char>> {
    if role == "kernel"@ {
        Some("vmlinuz"@)
    } else if role == "initramfs"@ {
        Some("initramfs.img"@)
    } else if role == "cmdline"@ || role == "bootconfig"@ {
        Some("cmdline"@)
    } else {
        None
    }
}

pub fn filename_for_role(role: &str) -> (r: Option<&'static str>)
    ensures
        text::opt_str(r) == filename(role@),
{
    if strings::eq(role, "kernel") {
        Some("vmlinuz")
    } else if strings::eq(role, "initramfs") {
        Some("initramfs.img")
    } else if strings::eq(role, "cmdline") || strings::eq(role, "bootconfig") {
        Some("cmdline")
    } else {
        None
    }
}

/// A member's role, from its annotation or its media type suffix.
pub open spec fn role_of(layer: Descriptor) -> Option<Seq<char>> {
    match annotation(layer.annotations@, ANNOTATION_ROLE@) {
        Some(role) => Some(role),
        None => match annotation(layer.annotations@, ANNOTATION_NAME@) {
            Some(name) => Some(name),
            None => text::strip_prefix(layer.media_type@, MEMBER_MEDIA_PREFIX@),
        },
    }
}

pub fn member_role(layer: &Descriptor) -> (r: Option<String>)
    ensures
        text::opt_text(r) == role_of(*layer),
{
    match find_annotation(&layer.annotations, ANNOTATION_ROLE) {
        Some(role) => Some(role),
        None => match find_annotation(&layer.annotations, ANNOTATION_NAME) {
            Some(name) => Some(name),
            None => strings::strip_prefix(layer.media_type.as_str(), MEMBER_MEDIA_PREFIX),
        },
    }
}

/// Whether a member carries its content inline, for that role.
pub open spec fn is_inline(m: MemberDef, role: Seq<char>) -> bool {
    m.source@ == "inline"@ && (m.role@ == role || m.name@ == role)
}

/// Inline content for a role, if the spec carries it: that of the first inline
/// member of that role or name.
pub open spec fn inline_of(members: Seq<MemberDef>, role: Seq<char>) -> Option<Seq<char>>
    decreases members.len(),
{
    if members.len() == 0 {
        None
    } else if is_inline(members[0], role) {
        text::opt_text(members[0].text)
    } else {
        inline_of(members.skip(1), role)
    }
}

pub fn inline_text(spec: &PalletSpec, role: &str) -> (r: Option<String>)
    ensures
        text::opt_text(r) == inline_of(spec.members@, role@),
{
    let ghost all = spec.members@;
    let mut i: usize = 0;
    assert(all.skip(0) == all);
    while i < spec.members.len()
        invariant
            i <= all.len(),
            all == spec.members@,
            inline_of(all, role@) == inline_of(all.skip(i as int), role@),
        decreases all.len() - i,
    {
        let m = &spec.members[i];
        assert(all.skip(i as int)[0] == *m);
        if strings::eq(m.source.as_str(), "inline") && (strings::eq(m.role.as_str(), role)
            || strings::eq(m.name.as_str(), role)) {
            return strings::clone_opt(&m.text);
        }
        assert(all.skip(i as int).skip(1) == all.skip(i + 1));
        i = i + 1;
    }
    None
}

/// Whether a manifest announces a pallet. It does so either way; both are taken
/// rather than rejecting a valid pallet on a technicality.
pub open spec fn announces_pallet(m: Manifest) -> bool {
    text::opt_text(m.artifact_type) == Some(PALLET_ARTIFACT_TYPE@) || m.config.media_type@
        == PALLET_CONFIG_TYPE@
}

fn is_pallet(m: &Manifest) -> (r: bool)
    ensures
        r == announces_pallet(*m),
{
    let named = match &m.artifact_type {
        Some(t) => strings::eq(t.as_str(), PALLET_ARTIFACT_TYPE),
        None => false,
    };
    named || strings::eq(m.config.media_type.as_str(), PALLET_CONFIG_TYPE)
}

// ---------------------------------------------------------------------------
// What to put in the cache

/// What is to be done for one served layer.
pub enum MemberStep {
    /// Write the text that the spec carries.
    Inline { filename: &'static str, text: String },
    /// Fetch the layer's blob and check it.
    Fetch { filename: &'static str, layer: usize, role: String },
}

#[verifier::ext_equal]
pub enum MemberStepView {
    Inline { filename: Seq<char>, text: Seq<char> },
    Fetch { filename: Seq<char>, layer: nat, role: Seq<char> },
}

impl View for MemberStep {
    type V = MemberStepView;

    open spec fn view(&self) -> MemberStepView {
        match *self {
            MemberStep::Inline { filename, text } => MemberStepView::Inline {
                filename: filename@,
                text: text@,
            },
            MemberStep::Fetch { filename, layer, role } => MemberStepView::Fetch {
                filename: filename@,
                layer: layer as nat,
                role: role@,
            },
        }
    }
}

pub open spec fn file_of(step: MemberStepView) -> Seq<char> {
    match step {
        MemberStepView::Inline { filename, .. } => filename,
        MemberStepView::Fetch { filename, .. } => filename,
    }
}

pub open spec fn steps_of(v: Seq<MemberStep>) -> Seq<MemberStepView> {
    v.map_values(|s: MemberStep| s@)
}

/// What is to be done for the layer at `i`, where it is served at all. An inline
/// member's content is in the spec, not behind a blob.
pub open spec fn step_for(layers: Seq<Descriptor>, members: Seq<MemberDef>, i: int) -> Option<
    MemberStepView,
> {
    match role_of(layers[i]) {
        None => None,
        Some(role) => match filename(role) {
            None => None,
            Some(name) => match inline_of(members, role) {
                Some(text) => Some(MemberStepView::Inline { filename: name, text }),
                None => Some(MemberStepView::Fetch { filename: name, layer: i as nat, role }),
            },
        },
    }
}

/// What is to be done for the first `n` layers, in their order.
pub open spec fn member_steps(layers: Seq<Descriptor>, members: Seq<MemberDef>, n: nat) -> Seq<
    MemberStepView,
>
    decreases n,
{
    if n == 0 {
        Seq::empty()
    } else {
        let before = member_steps(layers, members, (n - 1) as nat);
        match step_for(layers, members, n - 1) {
            Some(step) => before.push(step),
            None => before,
        }
    }
}

pub fn plan_members(manifest: &Manifest, spec: &PalletSpec) -> (r: Vec<MemberStep>)
    ensures
        steps_of(r@) == member_steps(manifest.layers@, spec.members@, manifest.layers@.len()),
{
    let mut out: Vec<MemberStep> = Vec::new();
    let mut i: usize = 0;
    assert(steps_of(out@) =~= Seq::<MemberStepView>::empty());
    while i < manifest.layers.len()
        invariant
            i <= manifest.layers@.len(),
            steps_of(out@) == member_steps(manifest.layers@, spec.members@, i as nat),
        decreases manifest.layers@.len() - i,
    {
        let ghost was = out@;
        if let Some(role) = member_role(&manifest.layers[i]) {
            if let Some(filename) = filename_for_role(role.as_str()) {
                let step = match inline_text(spec, role.as_str()) {
                    Some(text) => MemberStep::Inline { filename, text },
                    None => MemberStep::Fetch { filename, layer: i, role },
                };
                out.push(step);
                assert(steps_of(out@) =~= steps_of(was).push(step@));
            }
        }
        i = i + 1;
    }
    out
}

/// The filenames the steps put in the cache.
pub open spec fn served(steps: Seq<MemberStepView>) -> Seq<Seq<char>> {
    steps.map_values(|s: MemberStepView| file_of(s))
}

/// What is wrong with a fetched member of that digest and length: it has to hash
/// to the digest that names it, and to be as long as the manifest says.
pub open spec fn member_fault(
    layer: Descriptor,
    name: Seq<char>,
    computed: Seq<char>,
    len: nat,
) -> Option<Seq<char>> {
    if computed != text::to_lower(layer.digest@) {
        Some(
            "member "@ + name + " digest mismatch: expected "@ + layer.digest@ + ", got "@
                + computed,
        )
    } else if layer.size != 0 && layer.size != len {
        Some(
            "member "@ + name + " size mismatch: manifest says "@ + text::dec(layer.size as nat)
                + ", got "@ + text::dec(len),
        )
    } else {
        None
    }
}

/// What is wrong with a fetched spec: it carries members of its own, so it too has to
/// hash to the digest that the manifest names it by.
pub open spec fn spec_fault(manifest: Manifest, bytes: Seq<u8>) -> Option<Seq<char>> {
    if digest::digest(bytes) != text::to_lower(manifest.config.digest@) {
        Some(
            "pallet spec digest mismatch: expected "@ + manifest.config.digest@ + ", got "@
                + digest::digest(bytes),
        )
    } else {
        None
    }
}

/// Checks the spec's bytes before anything in them is used.
pub fn check_spec(manifest: &Manifest, bytes: &[u8]) -> (r: Result<(), String>)
    ensures
        match r {
            Ok(()) => spec_fault(*manifest, bytes@) is None,
            Err(said) => spec_fault(*manifest, bytes@) == Some(said@),
        },
{
    let computed = digest::digest_of(bytes);
    let named = strings::to_lower(manifest.config.digest.as_str());
    if strings::eq(computed.as_str(), named.as_str()) {
        return Ok(());
    }
    let mut said = strings::concat(
        "pallet spec digest mismatch: expected ",
        manifest.config.digest.as_str(),
    );
    said.append(", got ");
    said.append(computed.as_str());
    Err(said)
}

/// Holds what a member hashes to, and its length, against its layer.
pub fn judge_member(layer: &Descriptor, filename: &str, computed: &str, len: usize) -> (r: Result<
    (),
    String,
>)
    ensures
        match r {
            Ok(()) => member_fault(*layer, filename@, computed@, len as nat) is None,
            Err(said) => member_fault(*layer, filename@, computed@, len as nat) == Some(said@),
        },
{
    if !strings::eq(computed, strings::to_lower(layer.digest.as_str()).as_str()) {
        let mut said = strings::concat("member ", filename);
        said.append(" digest mismatch: expected ");
        said.append(layer.digest.as_str());
        said.append(", got ");
        said.append(computed);
        return Err(said);
    }
    if layer.size != 0 && layer.size != len as u64 {
        let mut said = strings::concat("member ", filename);
        said.append(" size mismatch: manifest says ");
        said.append(strings::dec(layer.size).as_str());
        said.append(", got ");
        said.append(strings::dec(len as u64).as_str());
        return Err(said);
    }
    Ok(())
}

/// Checks one member's bytes before they can be served.
pub fn check_member(layer: &Descriptor, filename: &str, bytes: &[u8]) -> (r: Result<(), String>)
    ensures
        match r {
            Ok(()) => member_fault(*layer, filename@, digest::digest(bytes@), bytes@.len()) is None,
            Err(said) => member_fault(
                *layer,
                filename@,
                digest::digest(bytes@),
                bytes@.len(),
            ) == Some(said@),
        },
{
    judge_member(layer, filename, digest::digest_of(bytes).as_str(), bytes.len())
}

// ---------------------------------------------------------------------------
// Which digest to pin

/// The digest a manifest is pinned by: the one the registry gave, which has to be
/// the one its bytes hash to, or else that one.
pub open spec fn pinned(header: Option<Seq<char>>, computed: Seq<char>) -> Result<
    Seq<char>,
    Seq<char>,
> {
    match header {
        None => Ok(computed),
        Some(h) => if text::to_lower(h) == computed {
            Ok(h)
        } else {
            Err(
                "manifest digest mismatch: registry said "@ + h + ", bytes hash to "@ + computed,
            )
        },
    }
}

/// Holds the registry's digest against the one computed.
pub fn judge_manifest(header: Option<String>, computed: String) -> (r: Result<String, String>)
    ensures
        match r {
            Ok(d) => pinned(text::opt_text(header), computed@) == Ok::<Seq<char>, Seq<char>>(d@),
            Err(said) => pinned(text::opt_text(header), computed@) == Err::<Seq<char>, Seq<char>>(
                said@,
            ),
        },
{
    match header {
        None => Ok(computed),
        Some(h) => {
            if strings::eq(strings::to_lower(h.as_str()).as_str(), computed.as_str()) {
                Ok(h)
            } else {
                let mut said = strings::concat(
                    "manifest digest mismatch: registry said ",
                    h.as_str(),
                );
                said.append(", bytes hash to ");
                said.append(computed.as_str());
                Err(said)
            }
        },
    }
}

/// The digest to pin a manifest by, from the registry's header and its bytes.
pub fn pin(header: Option<String>, bytes: &[u8]) -> (r: Result<String, String>)
    ensures
        match r {
            Ok(d) => pinned(text::opt_text(header), digest::digest(bytes@)) == Ok::<
                Seq<char>,
                Seq<char>,
            >(d@),
            Err(said) => pinned(text::opt_text(header), digest::digest(bytes@)) == Err::<
                Seq<char>,
                Seq<char>,
            >(said@),
        },
{
    judge_manifest(header, digest::digest_of(bytes))
}

// ---------------------------------------------------------------------------
// Looking for a signature

/// What became of one signature referrer.
pub enum Candidate {
    /// It could not be fetched.
    Unfetched(String),
    /// Its manifest could not be read.
    BadManifest(String),
    /// Its document could not be read.
    BadDocument(String),
    Document(SignatureDoc),
}

/// What a search comes to after one more candidate: an end, or the fault to
/// remember.
pub enum Found {
    End(Result<bool, Seq<char>>),
    Fault(Seq<char>),
}

/// What one candidate says of a subject.
pub open spec fn considered(c: Candidate, subject: Seq<char>, keys: Seq<String>) -> Found {
    match c {
        Candidate::Unfetched(why) => Found::End(Err(why@)),
        Candidate::BadManifest(why) => Found::Fault("signature manifest unparseable: "@ + why@),
        Candidate::BadDocument(why) => Found::Fault("signature document unparseable: "@ + why@),
        Candidate::Document(doc) => match stormsig::verdict(doc, subject, keys) {
            Ok(_) => Found::End(Ok(true)),
            Err(e) => Found::Fault(stormsig::says(e)),
        },
    }
}

/// What a search that looked at every candidate comes to. "Signed by someone we do
/// not trust" and "not signed" are different situations for the operator.
pub open spec fn exhausted(fault: Option<Seq<char>>, subject: Seq<char>) -> Result<
    bool,
    Seq<char>,
> {
    match fault {
        None => Ok(false),
        Some(why) => Err("no acceptable signature for "@ + subject + ": "@ + why),
    }
}

/// What a search over the candidates comes to, remembering `fault`.
pub open spec fn searched(
    candidates: Seq<Candidate>,
    fault: Option<Seq<char>>,
    subject: Seq<char>,
    keys: Seq<String>,
) -> Result<bool, Seq<char>>
    decreases candidates.len(),
{
    if candidates.len() == 0 {
        exhausted(fault, subject)
    } else {
        match considered(candidates[0], subject, keys) {
            Found::End(r) => r,
            Found::Fault(why) => searched(candidates.skip(1), Some(why), subject, keys),
        }
    }
}

/// A search for a trusted signature over a manifest digest.
pub struct SignatureSearch {
    pub subject: String,
    /// What was wrong with the last candidate.
    pub fault: Option<String>,
}

pub open spec fn told(r: Result<bool, String>) -> Result<bool, Seq<char>> {
    match r {
        Ok(b) => Ok(b),
        Err(said) => Err(said@),
    }
}

impl SignatureSearch {
    pub fn new(subject: &str) -> (r: Self)
        ensures
            r.subject@ == subject@,
            r.fault is None,
    {
        SignatureSearch { subject: subject.to_owned(), fault: None }
    }

    /// One more candidate. `Some` ends the search.
    pub fn consider(&mut self, candidate: Candidate, keys: &[String]) -> (r: Option<
        Result<bool, String>,
    >)
        ensures
            final(self).subject == old(self).subject,
            match considered(candidate, old(self).subject@, keys@) {
                Found::End(end) => r is Some && told(r->0) == end && final(self).fault == old(
                    self,
                ).fault,
                Found::Fault(why) => r is None && text::opt_text(final(self).fault) == Some(why),
            },
            forall|rest: Seq<Candidate>|
                #[trigger] searched(
                    seq![candidate] + rest,
                    text::opt_text(old(self).fault),
                    old(self).subject@,
                    keys@,
                ) == match r {
                    Some(end) => told(end),
                    None => searched(
                        rest,
                        text::opt_text(final(self).fault),
                        final(self).subject@,
                        keys@,
                    ),
                },
    {
        proof {
            assert forall|rest: Seq<Candidate>| (#[trigger] (seq![candidate] + rest)).skip(1)
                == rest && (seq![candidate] + rest)[0] == candidate by {
                assert((seq![candidate] + rest).skip(1) =~= rest);
            }
        }
        match candidate {
            Candidate::Unfetched(why) => Some(Err(why)),
            Candidate::BadManifest(why) => {
                self.fault = Some(
                    strings::concat("signature manifest unparseable: ", why.as_str()),
                );
                None
            },
            Candidate::BadDocument(why) => {
                self.fault = Some(
                    strings::concat("signature document unparseable: ", why.as_str()),
                );
                None
            },
            Candidate::Document(doc) => match stormsig::verify(&doc, self.subject.as_str(), keys) {
                Ok(_) => Some(Ok(true)),
                Err(e) => {
                    self.fault = Some(e.message());
                    None
                },
            },
        }
    }

    /// No candidate is left.
    pub fn finish(self) -> (r: Result<bool, String>)
        ensures
            told(r) == exhausted(text::opt_text(self.fault), self.subject@),
            forall|keys: Seq<String>|
                #[trigger] searched(
                    Seq::empty(),
                    text::opt_text(self.fault),
                    self.subject@,
                    keys,
                ) == told(r),
    {
        match self.fault {
            None => Ok(false),
            Some(why) => {
                let mut said = strings::concat("no acceptable signature for ", self.subject.as_str());
                said.append(": ");
                said.append(why.as_str());
                Err(said)
            },
        }
    }
}

/// The digests of the referrers that say they are signatures, in their order.
pub open spec fn signature_digests(manifests: Seq<Descriptor>) -> Seq<Seq<char>>
    decreases manifests.len(),
{
    if manifests.len() == 0 {
        Seq::empty()
    } else {
        let before = signature_digests(manifests.drop_last());
        if text::opt_text(manifests.last().artifact_type) == Some(
            stormsig::SIGNATURE_ARTIFACT_TYPE@,
        ) {
            before.push(manifests.last().digest@)
        } else {
            before
        }
    }
}

pub fn signature_referrers(index: &Index) -> (r: Vec<String>)
    ensures
        text::texts(r@) == signature_digests(index.manifests@),
{
    let ghost all = index.manifests@;
    let mut out: Vec<String> = Vec::new();
    let mut i: usize = 0;
    assert(text::texts(out@) =~= signature_digests(all.take(0)));
    while i < index.manifests.len()
        invariant
            i <= all.len(),
            all == index.manifests@,
            text::texts(out@) == signature_digests(all.take(i as int)),
        decreases all.len() - i,
    {
        let ghost was = out@;
        assert(all.take(i + 1).drop_last() == all.take(i as int));
        assert(all.take(i + 1).last() == all[i as int]);
        let m = &index.manifests[i];
        let signs = match &m.artifact_type {
            Some(t) => strings::eq(t.as_str(), stormsig::SIGNATURE_ARTIFACT_TYPE),
            None => false,
        };
        if signs {
            let digest = m.digest.clone();
            out.push(digest);
            assert(text::texts(out@) =~= text::texts(was).push(digest@));
        }
        i = i + 1;
    }
    assert(all.take(i as int) == all);
    out
}

fn nobody() -> (r: Vec<String>)
    ensures
        text::texts(r@) == Seq::<Seq<char>>::empty(),
{
    let none: Vec<String> = Vec::new();
    assert(text::texts(none@) =~= Seq::empty());
    none
}

// ---------------------------------------------------------------------------
// The source

#[derive(Debug)]
pub struct PalletSource {
    /// Base URL of sbregistry, without a trailing slash.
    pub registry: String,
    /// Repository holding the boot pallet, e.g. `stormcos/boot`.
    pub repo: String,
    /// Tag or digest to resolve.
    pub reference: String,
    pub cache_dir: String,
    pub trusted_keys: Vec<String>,
    /// Refuse to serve a pallet whose signature does not verify.
    pub require_signature: bool,
}

#[derive(Debug)]
pub struct Refreshed {
    pub status: AssetStatus,
    /// True when the pinned digest changed and files were rewritten.
    pub changed: bool,
}

/// What is served of a pallet, for health and the console.
pub open spec fn pallet_status(
    source: PalletSource,
    manifest: Manifest,
    digest: Seq<char>,
    signature_verified: bool,
) -> AssetStatusView {
    AssetStatusView {
        ready: true,
        detail: source.repo@ + ":"@ + source.reference@,
        version: match annotation(manifest.annotations@, "org.stormblock.pallet.version_label"@) {
            Some(v) => Some(v),
            None => match annotation(manifest.annotations@, "org.stormblock.pallet.version"@) {
                Some(v) => Some(v),
                None => Some(source.reference@),
            },
        },
        digest: Some(digest),
        signature_verified,
    }
}

/// The `Debug` form of an optional text.
pub open spec fn shown(o: Option<Seq<char>>) -> Seq<char> {
    match o {
        Some(s) => "Some("@ + strings::debug_text(s) + ")"@,
        None => "None"@,
    }
}

/// Why a new pallet is not taken, before any of it is fetched.
pub open spec fn pallet_fault(
    source: PalletSource,
    digest: Seq<char>,
    signed: bool,
    manifest: Result<Manifest, String>,
) -> Option<Seq<char>> {
    if source.require_signature && !signed {
        Some(
            "refusing to serve pallet "@ + digest
                + ": no trusted signature (set --allow-unsigned only where that is genuinely acceptable)"@,
        )
    } else {
        match manifest {
            Err(_) => Some("parsing pallet manifest"@),
            Ok(m) => if announces_pallet(m) {
                None
            } else {
                Some(
                    source.repo@ + ":"@ + source.reference@ + " is not a pallet (artifactType "@
                        + shown(text::opt_text(m.artifact_type)) + ", config "@
                        + m.config.media_type@ + ")"@,
                )
            },
        }
    }
}

/// The `Debug` form of a list of texts.
pub open spec fn shown_list(list: Seq<Seq<char>>) -> Seq<char> {
    "["@ + text::join(list.map_values(|s: Seq<char>| strings::debug_text(s)), ", "@) + "]"@
}

/// Whether the steps leave a kernel and an initramfs in the cache.
pub open spec fn bootable(steps: Seq<MemberStepView>) -> bool {
    served(steps).contains("vmlinuz"@) && served(steps).contains("initramfs.img"@)
}

impl PalletSource {
    pub fn new(
        registry: String,
        repo: String,
        reference: String,
        cache_dir: String,
        trusted_keys: Vec<String>,
        require_signature: bool,
    ) -> (r: Self)
        ensures
            r.registry@ == text::trim_end_char(registry@, '/'),
            r.repo == repo,
            r.reference == reference,
            r.cache_dir == cache_dir,
            r.trusted_keys == trusted_keys,
            r.require_signature == require_signature,
    {
        PalletSource {
            registry: strings::trim_end_char(registry.as_str(), '/'),
            repo,
            reference,
            cache_dir,
            trusted_keys,
            require_signature,
        }
    }

    /// Where the manifest behind the tag is.
    pub fn manifest_url(&self) -> (r: String)
        ensures
            r@ == self.registry@ + "/v2/"@ + self.repo@ + "/manifests/"@ + self.reference@,
    {
        self.object_url(self.reference.as_str(), true)
    }

    /// Where a manifest or a blob is.
    pub fn object_url(&self, digest: &str, is_manifest: bool) -> (r: String)
        ensures
            r@ == self.registry@ + "/v2/"@ + self.repo@ + (if is_manifest {
                "/manifests/"@
            } else {
                "/blobs/"@
            }) + digest@,
    {
        let mut url = strings::concat(self.registry.as_str(), "/v2/");
        url.append(self.repo.as_str());
        url.append(
            if is_manifest {
                "/manifests/"
            } else {
                "/blobs/"
            },
        );
        url.append(digest);
        url
    }

    /// Where the signatures over a manifest are listed.
    pub fn referrers_url(&self, subject: &str) -> (r: String)
        ensures
            r@ == self.registry@ + "/v2/"@ + self.repo@ + "/referrers/"@ + subject@
                + "?artifactType="@ + stormsig::SIGNATURE_ARTIFACT_TYPE@,
    {
        let mut url = strings::concat(self.registry.as_str(), "/v2/");
        url.append(self.repo.as_str());
        url.append("/referrers/");
        url.append(subject);
        url.append("?artifactType=");
        url.append(stormsig::SIGNATURE_ARTIFACT_TYPE);
        url
    }

    /// Whether a signature is worth looking for. With no trusted key none could be
    /// accepted, and the registry is not asked.
    pub fn seeks_signature(&self) -> (r: bool)
        ensures
            r == (self.trusted_keys@.len() > 0),
    {
        self.trusted_keys.len() > 0
    }

    /// The referrers to look at, in order, by what the registry answered. One that
    /// refused the query shows none, and the pallet then counts as unsigned.
    pub fn candidates(&self, answer: Option<&Index>) -> (r: Vec<String>)
        ensures
            text::texts(r@) == match answer {
                Some(index) => if self.trusted_keys@.len() > 0 {
                    signature_digests(index.manifests@)
                } else {
                    Seq::empty()
                },
                None => Seq::empty(),
            },
    {
        match answer {
            Some(index) => if self.seeks_signature() {
                signature_referrers(index)
            } else {
                nobody()
            },
            None => nobody(),
        }
    }

    pub fn status_for(&self, manifest: &Manifest, digest: &str, signature_verified: bool) -> (r:
        AssetStatus)
        ensures
            r@ == pallet_status(*self, *manifest, digest@, signature_verified),
    {
        let version = match find_annotation(
            &manifest.annotations,
            "org.stormblock.pallet.version_label",
        ) {
            Some(v) => Some(v),
            None => match find_annotation(&manifest.annotations, "org.stormblock.pallet.version") {
                Some(v) => Some(v),
                None => Some(self.reference.clone()),
            },
        };
        let mut detail = strings::concat(self.repo.as_str(), ":");
        detail.append(self.reference.as_str());
        AssetStatus {
            ready: true,
            detail,
            version,
            digest: Some(digest.to_owned()),
            signature_verified,
        }
    }

    /// The answer where the pinned digest is the one already served: nothing to
    /// fetch, and nothing to verify again, for the bytes on disk are those that were
    /// taken then. Whether a signature covered them is as it was: `verified` says it of
    /// what is served. `None` where the digest is another one.
    pub fn unchanged(
        &self,
        current: Option<&str>,
        verified: bool,
        digest: &str,
        manifest: &Result<Manifest, String>,
    ) -> (r: Option<Result<Refreshed, String>>)
        ensures
            r is Some <==> text::opt_str(current) == Some(digest@),
            match r {
                None => true,
                Some(Ok(done)) => manifest is Ok && !done.changed && done.status@ == pallet_status(
                    *self,
                    manifest->Ok_0,
                    digest@,
                    verified,
                ),
                Some(Err(why)) => manifest is Err && why == manifest->Err_0,
            },
    {
        match current {
            None => None,
            Some(c) => {
                if !strings::eq(c, digest) {
                    return None;
                }
                match manifest {
                    Ok(m) => Some(
                        Ok(
                            Refreshed {
                                status: self.status_for(m, digest, verified),
                                changed: false,
                            },
                        ),
                    ),
                    Err(why) => Some(Err(why.clone())),
                }
            },
        }
    }

    /// Whether to take a new pallet.
    pub fn accept(&self, digest: &str, signed: bool, manifest: &Result<Manifest, String>) -> (r:
        Result<(), String>)
        ensures
            match r {
                Ok(()) => pallet_fault(*self, digest@, signed, *manifest) is None,
                Err(said) => pallet_fault(*self, digest@, signed, *manifest) == Some(said@),
            },
    {
        if self.require_signature && !signed {
            let mut said = strings::concat("refusing to serve pallet ", digest);
            said.append(
                ": no trusted signature (set --allow-unsigned only where that is genuinely acceptable)",
            );
            return Err(said);
        }
        match manifest {
            Err(_) => Err("parsing pallet manifest".to_owned()),
            Ok(m) => {
                if is_pallet(m) {
                    return Ok(());
                }
                let mut said = strings::concat(self.repo.as_str(), ":");
                said.append(self.reference.as_str());
                said.append(" is not a pallet (artifactType ");
                said.append(show(&m.artifact_type).as_str());
                said.append(", config ");
                said.append(m.config.media_type.as_str());
                said.append(")");
                Err(said)
            },
        }
    }

    /// The end of a refresh, once every step has been taken. A pallet without a
    /// kernel or an initramfs is not one to boot from.
    pub fn complete(
        &self,
        manifest: &Manifest,
        digest: &str,
        signed: bool,
        steps: &Vec<MemberStep>,
    ) -> (r: Result<Refreshed, String>)
        ensures
            match r {
                Ok(done) => bootable(steps_of(steps@)) && done.changed && done.status@
                    == pallet_status(*self, *manifest, digest@, signed),
                Err(said) => !bootable(steps_of(steps@)) && said@ == "boot pallet "@ + digest@
                    + " is missing a kernel or initramfs (served: "@ + shown_list(
                    served(steps_of(steps@)),
                ) + ")"@,
            },
    {
        let names = served_names(steps);
        if has_name(&names, "vmlinuz") && has_name(&names, "initramfs.img") {
            Ok(Refreshed { status: self.status_for(manifest, digest, signed), changed: true })
        } else {
            let mut said = strings::concat("boot pallet ", digest);
            said.append(" is missing a kernel or initramfs (served: ");
            said.append(show_list(&names).as_str());
            said.append(")");
            Err(said)
        }
    }
}

fn show(o: &Option<String>) -> (r: String)
    ensures
        r@ == shown(text::opt_text(*o)),
{
    match o {
        Some(s) => {
            let mut out = strings::concat("Some(", strings::debug(s.as_str()).as_str());
            out.append(")");
            out
        },
        None => "None".to_owned(),
    }
}

fn served_names(steps: &Vec<MemberStep>) -> (r: Vec<String>)
    ensures
        text::texts(r@) == served(steps_of(steps@)),
{
    let mut out: Vec<String> = Vec::new();
    let mut i: usize = 0;
    while i < steps.len()
        invariant
            i <= steps@.len(),
            out@.len() == i,
            forall|j: int| 0 <= j < i ==> (#[trigger] out@[j])@ == file_of(steps@[j]@),
        decreases steps@.len() - i,
    {
        let name = match &steps[i] {
            MemberStep::Inline { filename, text } => *filename,
            MemberStep::Fetch { filename, layer, role } => *filename,
        };
        out.push(name.to_owned());
        i = i + 1;
    }
    assert(text::texts(out@) =~= served(steps_of(steps@)));
    out
}

fn has_name(names: &Vec<String>, name: &str) -> (r: bool)
    ensures
        r == text::texts(names@).contains(name@),
{
    let mut i: usize = 0;
    while i < names.len()
        invariant
            i <= names@.len(),
            forall|j: int| 0 <= j < i ==> (#[trigger] names@[j])@ != name@,
        decreases names@.len() - i,
    {
        if strings::eq(names[i].as_str(), name) {
            assert(text::texts(names@)[i as int] == name@);
            return true;
        }
        i = i + 1;
    }
    proof {
        let all = text::texts(names@);
        if all.contains(name@) {
            let j = choose|j: int| 0 <= j < all.len() && all[j] == name@;
            assert(names@[j]@ == all[j]);
        }
    }
    false
}

fn show_list(names: &Vec<String>) -> (r: String)
    ensures
        r@ == shown_list(text::texts(names@)),
{
    let mut quoted: Vec<String> = Vec::new();
    let mut i: usize = 0;
    while i < names.len()
        invariant
            i <= names@.len(),
            quoted@.len() == i,
            forall|j: int|
                0 <= j < i ==> (#[trigger] quoted@[j])@ == strings::debug_text(names@[j]@),
        decreases names@.len() - i,
    {
        quoted.push(strings::debug(names[i].as_str()));
        i = i + 1;
    }
    assert(text::texts(quoted@) =~= text::texts(names@).map_values(
        |s: Seq<char>| strings::debug_text(s),
    ));
    let mut out = strings::concat("[", strings::join(&quoted, ", ").as_str());
    out.append("]");
    out
}

/// What the server can serve from its directory alone.
pub fn directory_status(asset_dir: &str, complete: bool) -> (r: AssetStatus)
    ensures
        r@ == (AssetStatusView {
            ready: complete,
            detail: (if complete {
                "directory "@
            } else {
                "no kernel or initramfs in "@
            }) + asset_dir@,
            version: None,
            digest: None,
            signature_verified: false,
        }),
{
    AssetStatus {
        ready: complete,
        detail: strings::concat(
            if complete {
                "directory "
            } else {
                "no kernel or initramfs in "
            },
            asset_dir,
        ),
        version: None,
        digest: None,
        signature_verified: false,
    }
}

// ---------------------------------------------------------------------------
// Laws

/// Where signatures are required, no pallet is taken without one that verified,
/// and nothing that does not say it is a pallet is taken at all.
pub proof fn law_only_signed_pallets_are_taken(
    source: PalletSource,
    digest: Seq<char>,
    signed: bool,
    manifest: Result<Manifest, String>,
)
    requires
        pallet_fault(source, digest, signed, manifest) is None,
    ensures
        source.require_signature ==> signed,
        manifest is Ok,
        announces_pallet(manifest->Ok_0),
{
}

/// A manifest is pinned only by the digest that its own bytes hash to, up to the
/// case the registry writes it in.
pub proof fn law_pinned_by_what_the_bytes_hash_to(header: Option<Seq<char>>, bytes: Seq<u8>)
    requires
        pinned(header, digest::digest(bytes)) is Ok,
    ensures
        text::to_lower(pinned(header, digest::digest(bytes))->Ok_0) == digest::digest(bytes),
{
    digest::law_digests_are_lowercase(bytes);
}

/// A fetched member is served only if its bytes hash to the digest that names its
/// layer. (What the spec carries inline has the spec's digest behind it.)
pub proof fn law_members_are_what_their_digests_name(
    layer: Descriptor,
    name: Seq<char>,
    computed: Seq<char>,
    len: nat,
)
    requires
        member_fault(layer, name, computed, len) is None,
    ensures
        computed == text::to_lower(layer.digest@),
        layer.size == 0 || layer.size == len,
{
}

/// A search ends in success only at a document that verifies.
pub proof fn law_a_search_succeeds_only_on_a_verified_document(
    candidates: Seq<Candidate>,
    fault: Option<Seq<char>>,
    subject: Seq<char>,
    keys: Seq<String>,
)
    requires
        searched(candidates, fault, subject, keys) == Ok::<bool, Seq<char>>(true),
    ensures
        exists|i: int|
            0 <= i < candidates.len() && (#[trigger] candidates[i]) is Document
                && stormsig::verdict(candidates[i]->Document_0, subject, keys) is Ok,
    decreases candidates.len(),
{
    if candidates.len() > 0 {
        match considered(candidates[0], subject, keys) {
            Found::End(_) => {
                assert(candidates[0] is Document);
            },
            Found::Fault(why) => {
                let rest = candidates.skip(1);
                law_a_search_succeeds_only_on_a_verified_document(rest, Some(why), subject, keys);
                let i = choose|i: int|
                    0 <= i < rest.len() && (#[trigger] rest[i]) is Document && stormsig::verdict(
                        rest[i]->Document_0,
                        subject,
                        keys,
                    ) is Ok;
                assert(candidates[i + 1] == rest[i]);
            },
        }
    }
}

/// With no trusted key, nothing that the registry shows is ever taken for a
/// signature.
pub proof fn law_without_a_key_nothing_is_signed(
    candidates: Seq<Candidate>,
    subject: Seq<char>,
    keys: Seq<String>,
)
    requires
        keys.len() == 0,
    ensures
        searched(candidates, None, subject, keys) != Ok::<bool, Seq<char>>(true),
{
    if searched(candidates, None, subject, keys) == Ok::<bool, Seq<char>>(true) {
        law_a_search_succeeds_only_on_a_verified_document(candidates, None, subject, keys);
        let i = choose|i: int|
            0 <= i < candidates.len() && (#[trigger] candidates[i]) is Document && stormsig::verdict(
                candidates[i]->Document_0,
                subject,
                keys,
            ) is Ok;
        stormsig::law_accepted_only_if_trusted_bound_and_signed(
            candidates[i]->Document_0,
            subject,
            keys,
        );
    }
}

/// That nothing signs a pallet is no error; that something does, and none of it
/// is acceptable, is one.
pub proof fn law_unsigned_and_badly_signed_differ(
    candidates: Seq<Candidate>,
    subject: Seq<char>,
    keys: Seq<String>,
)
    ensures
        searched(candidates, None, subject, keys) == Ok::<bool, Seq<char>>(false)
            <==> candidates.len() == 0,
{
    if candidates.len() > 0 {
        match considered(candidates[0], subject, keys) {
            Found::End(_) => {},
            Found::Fault(why) => {
                lemma_a_fault_is_not_forgotten(candidates.skip(1), why, subject, keys);
            },
        }
    }
}

proof fn lemma_a_fault_is_not_forgotten(
    candidates: Seq<Candidate>,
    fault: Seq<char>,
    subject: Seq<char>,
    keys: Seq<String>,
)
    ensures
        searched(candidates, Some(fault), subject, keys) != Ok::<bool, Seq<char>>(false),
    decreases candidates.len(),
{
    if candidates.len() > 0 {
        match considered(candidates[0], subject, keys) {
            Found::End(_) => {},
            Found::Fault(why) => {
                lemma_a_fault_is_not_forgotten(candidates.skip(1), why, subject, keys);
            },
        }
    }
}

/// The first annotation of a key is the one that counts, and a key that stands nowhere has
/// no value.
pub proof fn law_an_annotation_is_found_by_its_key(
    annotations: Seq<Annotation>,
    key: Seq<char>,
    i: int,
)
    ensures
        0 <= i < annotations.len() && annotations[i].key@ == key && (forall|j: int|
            0 <= j < i ==> (#[trigger] annotations[j]).key@ != key) ==> annotation(annotations, key)
            == Some(annotations[i].value@),
        annotation(annotations, key) is None <==> forall|j: int|
            0 <= j < annotations.len() ==> (#[trigger] annotations[j]).key@ != key,
    decreases annotations.len(),
{
    if annotations.len() > 0 {
        let rest = annotations.skip(1);
        law_an_annotation_is_found_by_its_key(rest, key, i - 1);
        assert(forall|j: int| 0 <= j < rest.len() ==> #[trigger] rest[j] == annotations[j + 1]);
        assert(forall|j: int| 1 <= j < annotations.len() ==> #[trigger] annotations[j] == rest[j - 1]);
    }
}

/// A layer's role is what its annotation says, or else its name; a layer that says neither
/// has the role behind the media type of members, and one of another media type has none.
pub proof fn law_a_layer_tells_its_role(layer: Descriptor, suffix: Seq<char>)
    ensures
        annotation(layer.annotations@, "org.stormblock.member.role"@) is Some ==> role_of(layer)
            == annotation(layer.annotations@, "org.stormblock.member.role"@),
        annotation(layer.annotations@, "org.stormblock.member.role"@) is None && annotation(
            layer.annotations@,
            "org.stormblock.member.name"@,
        ) is Some ==> role_of(layer) == annotation(
            layer.annotations@,
            "org.stormblock.member.name"@,
        ),
        layer.annotations@.len() == 0 && layer.media_type@ == "application/vnd.stormblock.member."@
            + suffix ==> role_of(layer) == Some(suffix),
        layer.annotations@.len() == 0 && !"application/vnd.stormblock.member."@.is_prefix_of(
            layer.media_type@,
        ) ==> role_of(layer) is None,
{
    let prefix = "application/vnd.stormblock.member."@;
    let named = layer.media_type@;
    assert((prefix + suffix).take(prefix.len() as int) =~= prefix);
    assert((prefix + suffix).skip(prefix.len() as int) =~= suffix);
    if prefix.len() <= named.len() {
        assert(named.subrange(0, prefix.len() as int) =~= named.take(prefix.len() as int));
    }
}

/// Firmware finds the kernel, the initramfs and the command line under their own names, and
/// no other role is served.
pub proof fn law_a_role_has_its_file(role: Seq<char>)
    ensures
        filename("kernel"@) == Some("vmlinuz"@),
        filename("initramfs"@) == Some("initramfs.img"@),
        filename("cmdline"@) == Some("cmdline"@),
        filename("bootconfig"@) == Some("cmdline"@),
        filename(role) is Some <==> role == "kernel"@ || role == "initramfs"@ || role == "cmdline"@
            || role == "bootconfig"@,
{
    lemma_roles_differ();
}

proof fn lemma_roles_differ()
    ensures
        "initramfs"@ != "kernel"@,
        "cmdline"@ != "kernel"@,
        "bootconfig"@ != "kernel"@,
        "cmdline"@ != "initramfs"@,
        "bootconfig"@ != "initramfs"@,
        "vmlinuz"@ != "initramfs.img"@,
        "cmdline"@ != "vmlinuz"@,
        "cmdline"@ != "initramfs.img"@,
{
    reveal_strlit("kernel");
    reveal_strlit("initramfs");
    reveal_strlit("cmdline");
    reveal_strlit("bootconfig");
    reveal_strlit("vmlinuz");
    reveal_strlit("initramfs.img");
    assert("kernel"@[0] == 'k' && "initramfs"@[0] == 'i' && "cmdline"@[0] == 'c'
        && "bootconfig"@[0] == 'b' && "vmlinuz"@[0] == 'v' && "initramfs.img"@[0] == 'i');
}

/// The text of a role is that of the first member which carries it inline under that role
/// or name; a member that is a blob carries none.
pub proof fn law_the_first_inline_member_counts(members: Seq<MemberDef>, role: Seq<char>, i: int)
    requires
        0 <= i < members.len(),
        members[i].source@ == "inline"@,
        members[i].role@ == role || members[i].name@ == role,
        forall|j: int|
            0 <= j < i ==> (#[trigger] members[j]).source@ != "inline"@ || (members[j].role@ != role
                && members[j].name@ != role),
    ensures
        inline_of(members, role) == text::opt_text(members[i].text),
    decreases members.len(),
{
    if i > 0 {
        assert(members[0].source@ != "inline"@ || (members[0].role@ != role && members[0].name@
            != role));
        let rest = members.skip(1);
        assert forall|j: int| 0 <= j < i - 1 implies (#[trigger] rest[j]).source@ != "inline"@ || (
        rest[j].role@ != role && rest[j].name@ != role) by {
            assert(rest[j] == members[j + 1]);
        }
        law_the_first_inline_member_counts(rest, role, i - 1);
    }
}

/// Where no member carries a role inline, it has no text.
pub proof fn law_only_inline_members_carry_text(members: Seq<MemberDef>, role: Seq<char>)
    requires
        forall|j: int|
            0 <= j < members.len() ==> (#[trigger] members[j]).source@ != "inline"@ || (
            members[j].role@ != role && members[j].name@ != role),
    ensures
        inline_of(members, role) is None,
    decreases members.len(),
{
    if members.len() > 0 {
        let rest = members.skip(1);
        assert forall|j: int| 0 <= j < rest.len() implies (#[trigger] rest[j]).source@ != "inline"@
            || (rest[j].role@ != role && rest[j].name@ != role) by {
            assert(rest[j] == members[j + 1]);
        }
        law_only_inline_members_carry_text(rest, role);
    }
}

/// Whether a step takes a role from its layer, under the role's own file: by the text that
/// the spec carries, or else by the layer's blob.
pub open spec fn takes(
    step: MemberStepView,
    members: Seq<MemberDef>,
    role: Seq<char>,
    i: int,
) -> bool {
    match step {
        MemberStepView::Inline { filename: name, text } => filename(role) == Some(name)
            && inline_of(members, role) == Some(text),
        MemberStepView::Fetch { filename: name, layer, role: named } => filename(role) == Some(name)
            && layer == i && named == role && inline_of(members, role) is None,
    }
}

/// Every layer whose role is served has its step.
pub proof fn law_every_served_layer_has_its_step(
    layers: Seq<Descriptor>,
    members: Seq<MemberDef>,
    i: int,
)
    requires
        0 <= i < layers.len(),
        role_of(layers[i]) is Some,
        filename(role_of(layers[i])->0) is Some,
    ensures
        exists|k: int|
            0 <= k < member_steps(layers, members, layers.len()).len() && takes(
                #[trigger] member_steps(layers, members, layers.len())[k],
                members,
                role_of(layers[i])->0,
                i,
            ),
{
    lemma_step_is_there(layers, members, layers.len(), i);
    let steps = member_steps(layers, members, layers.len());
    let k = choose|k: int|
        0 <= k < steps.len() && Some(#[trigger] steps[k]) == step_for(layers, members, i);
    assert(takes(steps[k], members, role_of(layers[i])->0, i));
}

proof fn lemma_step_is_there(layers: Seq<Descriptor>, members: Seq<MemberDef>, n: nat, i: int)
    requires
        0 <= i < n,
        step_for(layers, members, i) is Some,
    ensures
        exists|k: int|
            0 <= k < member_steps(layers, members, n).len() && Some(
                #[trigger] member_steps(layers, members, n)[k],
            ) == step_for(layers, members, i),
    decreases n,
{
    let before = member_steps(layers, members, (n - 1) as nat);
    let steps = member_steps(layers, members, n);
    if i == n - 1 {
        assert(Some(steps[before.len() as int]) == step_for(layers, members, i));
    } else {
        lemma_step_is_there(layers, members, (n - 1) as nat, i);
        let k = choose|k: int|
            0 <= k < before.len() && Some(#[trigger] before[k]) == step_for(layers, members, i);
        assert(steps[k] == before[k]);
    }
}

proof fn lemma_steps_have_layers(layers: Seq<Descriptor>, members: Seq<MemberDef>, n: nat, k: int)
    requires
        0 <= k < member_steps(layers, members, n).len(),
    ensures
        exists|i: int|
            0 <= i < n && #[trigger] step_for(layers, members, i) == Some(
                member_steps(layers, members, n)[k],
            ),
    decreases n,
{
    if n > 0 {
        let before = member_steps(layers, members, (n - 1) as nat);
        if k < before.len() {
            lemma_steps_have_layers(layers, members, (n - 1) as nat, k);
            let i = choose|i: int|
                0 <= i < n - 1 && #[trigger] step_for(layers, members, i) == Some(before[k]);
            assert(step_for(layers, members, i) == Some(member_steps(layers, members, n)[k]));
        } else {
            assert(step_for(layers, members, n - 1) == Some(member_steps(layers, members, n)[k]));
        }
    }
}

/// A pallet can be booted exactly where one of its layers is a kernel and one is an
/// initramfs.
pub proof fn law_a_pallet_boots_by_its_layers(layers: Seq<Descriptor>, members: Seq<MemberDef>)
    ensures
        bootable(member_steps(layers, members, layers.len())) <==> (exists|i: int|
            0 <= i < layers.len() && role_of(#[trigger] layers[i]) == Some("kernel"@)) && (exists|
            j: int,
        |
            0 <= j < layers.len() && role_of(#[trigger] layers[j]) == Some("initramfs"@)),
{
    lemma_served(layers, members, "kernel"@, "vmlinuz"@);
    lemma_served(layers, members, "initramfs"@, "initramfs.img"@);
}

proof fn lemma_served(
    layers: Seq<Descriptor>,
    members: Seq<MemberDef>,
    role: Seq<char>,
    file: Seq<char>,
)
    requires
        role == "kernel"@ && file == "vmlinuz"@ || role == "initramfs"@ && file
            == "initramfs.img"@,
    ensures
        served(member_steps(layers, members, layers.len())).contains(file) <==> exists|i: int|
            0 <= i < layers.len() && role_of(#[trigger] layers[i]) == Some(role),
{
    lemma_roles_differ();
    let steps = member_steps(layers, members, layers.len());
    let files = served(steps);
    if exists|i: int| 0 <= i < layers.len() && role_of(#[trigger] layers[i]) == Some(role) {
        let i = choose|i: int| 0 <= i < layers.len() && role_of(#[trigger] layers[i]) == Some(role);
        lemma_step_is_there(layers, members, layers.len(), i);
        let k = choose|k: int|
            0 <= k < steps.len() && Some(#[trigger] steps[k]) == step_for(layers, members, i);
        assert(files[k] == file);
    }
    if files.contains(file) {
        let k = choose|k: int| 0 <= k < files.len() && files[k] == file;
        assert(file_of(steps[k]) == file);
        lemma_steps_have_layers(layers, members, layers.len(), k);
        let i = choose|i: int|
            0 <= i < layers.len() && #[trigger] step_for(layers, members, i) == Some(steps[k]);
        assert(role_of(layers[i]) == Some(role));
    }
}

/// A member is taken exactly where it hashes to the digest that names it, in whatever case
/// that is written, and is as long as the manifest says, where it says so.
pub proof fn law_a_member_is_taken_by_digest_and_size(
    layer: Descriptor,
    name: Seq<char>,
    computed: Seq<char>,
    len: nat,
)
    ensures
        member_fault(layer, name, computed, len) is None <==> computed == text::to_lower(
            layer.digest@,
        ) && (layer.size == 0 || layer.size == len),
        computed != text::to_lower(layer.digest@) ==> member_fault(
            layer,
            name,
            computed,
            len,
        )->0 == "member "@ + name + " digest mismatch: expected "@ + layer.digest@ + ", got "@
            + computed,
{
}

/// A spec is used exactly where it hashes to the digest that the manifest names it by.
pub proof fn law_a_spec_is_used_by_its_digest(manifest: Manifest, bytes: Seq<u8>)
    ensures
        spec_fault(manifest, bytes) is None <==> digest::digest(bytes) == text::to_lower(
            manifest.config.digest@,
        ),
{
}

/// The registry's own digest is what a manifest is pinned by, in the case it was written
/// in, where the bytes hash to it; where the registry gave none, what they hash to.
pub proof fn law_a_manifest_is_pinned_by_the_registrys_digest(
    header: Seq<char>,
    computed: Seq<char>,
)
    ensures
        pinned(None, computed) == Ok::<Seq<char>, Seq<char>>(computed),
        pinned(Some(header), computed) is Ok <==> text::to_lower(header) == computed,
        text::to_lower(header) == computed ==> pinned(Some(header), computed) == Ok::<
            Seq<char>,
            Seq<char>,
        >(header),
{
}

/// A pallet is taken exactly where it is signed, or need not be, and its manifest can be
/// read and says that it is a pallet: by its artifact type or by that of its config.
pub proof fn law_a_pallet_is_taken_for_what_it_says(
    source: PalletSource,
    digest: Seq<char>,
    signed: bool,
    manifest: Manifest,
)
    ensures
        pallet_fault(source, digest, signed, Ok(manifest)) is None <==> (
        !source.require_signature || signed) && (text::opt_text(manifest.artifact_type) == Some(
            "application/vnd.stormblock.pallet.v1+json"@,
        ) || manifest.config.media_type@ == "application/vnd.stormblock.pallet.config.v1+json"@),
{
}

/// A document that verifies ends the search, whatever unreadable or unacceptable ones come
/// before it. One that cannot be fetched ends it too, with the reason.
pub proof fn law_a_verified_document_is_found(
    candidates: Seq<Candidate>,
    fault: Option<Seq<char>>,
    subject: Seq<char>,
    keys: Seq<String>,
    i: int,
)
    requires
        0 <= i < candidates.len(),
        forall|j: int|
            0 <= j < i ==> match #[trigger] candidates[j] {
                Candidate::Unfetched(_) => false,
                Candidate::Document(doc) => stormsig::verdict(doc, subject, keys) is Err,
                _ => true,
            },
    ensures
        candidates[i] matches Candidate::Document(doc) ==> (stormsig::verdict(
            doc,
            subject,
            keys,
        ) is Ok ==> searched(candidates, fault, subject, keys) == Ok::<bool, Seq<char>>(true)),
        candidates[i] matches Candidate::Unfetched(why) ==> searched(
            candidates,
            fault,
            subject,
            keys,
        ) == Err::<bool, Seq<char>>(why@),
    decreases candidates.len(),
{
    if i > 0 {
        let rest = candidates.skip(1);
        assert forall|j: int| 0 <= j < i - 1 implies match #[trigger] rest[j] {
            Candidate::Unfetched(_) => false,
            Candidate::Document(doc) => stormsig::verdict(doc, subject, keys) is Err,
            _ => true,
        } by {
            assert(rest[j] == candidates[j + 1]);
        }
        let first = candidates[0];
        assert(match first {
            Candidate::Unfetched(_) => false,
            Candidate::Document(doc) => stormsig::verdict(doc, subject, keys) is Err,
            _ => true,
        });
        match considered(first, subject, keys) {
            Found::Fault(why) => law_a_verified_document_is_found(
                rest,
                Some(why),
                subject,
                keys,
                i - 1,
            ),
            Found::End(_) => {},
        }
    }
}

/// The signatures among the referrers are those that say so, each by its digest and none
/// else.
pub proof fn law_signatures_are_told_by_their_type(manifests: Seq<Descriptor>, digest: Seq<char>)
    ensures
        signature_digests(manifests).contains(digest) <==> exists|i: int|
            0 <= i < manifests.len() && (#[trigger] manifests[i]).digest@ == digest
                && text::opt_text(manifests[i].artifact_type) == Some(
                "application/vnd.stormblock.signature.v1+json"@,
            ),
    decreases manifests.len(),
{
    if manifests.len() > 0 {
        let rest = manifests.drop_last();
        law_signatures_are_told_by_their_type(rest, digest);
        let before = signature_digests(rest);
        let all = signature_digests(manifests);
        let kind = Some("application/vnd.stormblock.signature.v1+json"@);
        if before.contains(digest) {
            let k = choose|k: int| 0 <= k < before.len() && before[k] == digest;
            assert(all[k] == digest);
            let i = choose|i: int|
                0 <= i < rest.len() && (#[trigger] rest[i]).digest@ == digest && text::opt_text(
                    rest[i].artifact_type,
                ) == kind;
            assert(manifests[i].digest@ == digest);
        }
        if all.contains(digest) && !before.contains(digest) {
            let k = choose|k: int| 0 <= k < all.len() && all[k] == digest;
            if k < before.len() {
                assert(before[k] == digest);
            }
            assert(manifests[manifests.len() - 1].digest@ == digest);
        }
        if exists|i: int|
            0 <= i < manifests.len() && (#[trigger] manifests[i]).digest@ == digest
                && text::opt_text(manifests[i].artifact_type) == kind {
            let i = choose|i: int|
                0 <= i < manifests.len() && (#[trigger] manifests[i]).digest@ == digest
                    && text::opt_text(manifests[i].artifact_type) == kind;
            if i < rest.len() {
                assert(rest[i].digest@ == digest);
            } else {
                assert(all[before.len() as int] == digest);
            }
        }
    }
}

/// What is served is told with the digest it is pinned by, whether a signature over it
/// verified, and the version: the label where the manifest has one, else its version, else
/// what was asked for.
pub proof fn law_a_status_tells_what_is_served(
    source: PalletSource,
    manifest: Manifest,
    digest: Seq<char>,
    signed: bool,
)
    ensures
        ({
            let s = pallet_status(source, manifest, digest, signed);
            let label = annotation(manifest.annotations@, "org.stormblock.pallet.version_label"@);
            let version = annotation(manifest.annotations@, "org.stormblock.pallet.version"@);
            &&& s.ready
            &&& s.digest == Some(digest)
            &&& s.signature_verified == signed
            &&& s.detail == source.repo@ + ":"@ + source.reference@
            &&& s.version is Some
            &&& label is Some ==> s.version == label
            &&& label is None && version is Some ==> s.version == version
            &&& label is None && version is None ==> s.version == Some(source.reference@)
        }),
{
}

} // verus!
