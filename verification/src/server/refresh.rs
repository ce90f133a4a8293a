//! One pass over the registry for a new boot pallet, in the order that keeps it safe.
//!
//! The manifest is pinned, a signature over it is looked for, and only a pallet that is
//! accepted has any of its members fetched. Each question that the registry or the disk
//! has to answer is a step; the answer comes back as an event. What the pass has found
//! out is kept here and nowhere else, so no step can be taken out of turn.

use crate::bytes;
use crate::server::digest;
use crate::server::pallet;
use crate::server::pallet::{
    AssetStatus, AssetStatusView, Candidate, Descriptor, Found, Index, Manifest, MemberDef, MemberStep,
    MemberStepView, PalletSource, PalletSpec, Refreshed, SignatureSearch,
};
use crate::server::stormsig;
use crate::server::stormsig::SignatureDoc;
use crate::strings;
use crate::text;
use vstd::prelude::*;
use vstd::string::StringExecFns;

verus! {

// ---------------------------------------------------------------------------
// Stages, steps and events

/// A pallet that has been accepted, and how much of it has been put in the cache.
pub struct Taking {
    pub digest: String,
    pub manifest: Manifest,
    pub signed: bool,
    /// The document whose signature over the digest verified.
    pub by: Ghost<Option<SignatureDoc>>,
    /// The bytes of the spec, where it could be had.
    pub spec: Ghost<Option<Seq<u8>>>,
    pub steps: Vec<MemberStep>,
    pub at: usize,
}

#[verifier::ext_equal]
pub struct TakingView {
    pub digest: Seq<char>,
    pub manifest: Manifest,
    pub by: Option<SignatureDoc>,
    pub spec: Option<Seq<u8>>,
    pub steps: Seq<MemberStepView>,
    pub at: nat,
}

impl View for Taking {
    type V = TakingView;

    open spec fn view(&self) -> TakingView {
        TakingView {
            digest: self.digest@,
            manifest: self.manifest,
            by: self.by@,
            spec: self.spec@,
            steps: pallet::steps_of(self.steps@),
            at: self.at as nat,
        }
    }
}

/// What a pass waits for.
pub enum Stage {
    Manifest,
    Referrers { digest: String, manifest: Result<Manifest, String> },
    Candidate {
        manifest: Result<Manifest, String>,
        search: SignatureSearch,
        candidates: Vec<String>,
        next: usize,
    },
    Spec { digest: String, manifest: Manifest, signed: bool, by: Ghost<Option<SignatureDoc>> },
    Member(Taking),
    Writing(Taking),
    Done,
}

#[verifier::ext_equal]
pub enum StageView {
    Manifest,
    Referrers { digest: Seq<char>, manifest: Result<Manifest, String> },
    /// The digest is the search's subject; `left` are those not yet looked at.
    Candidate {
        digest: Seq<char>,
        manifest: Result<Manifest, String>,
        fault: Option<Seq<char>>,
        left: Seq<Seq<char>>,
    },
    Spec { digest: Seq<char>, manifest: Manifest, by: Option<SignatureDoc> },
    Member(TakingView),
    Writing(TakingView),
    Done,
}

impl View for Stage {
    type V = StageView;

    open spec fn view(&self) -> StageView {
        match *self {
            Stage::Manifest => StageView::Manifest,
            Stage::Referrers { digest, manifest } => StageView::Referrers {
                digest: digest@,
                manifest,
            },
            Stage::Candidate { manifest, search, candidates, next } => StageView::Candidate {
                digest: search.subject@,
                manifest,
                fault: text::opt_text(search.fault),
                left: text::texts(candidates@).skip(next as int),
            },
            Stage::Spec { digest, manifest, signed, by } => StageView::Spec {
                digest: digest@,
                manifest,
                by: by@,
            },
            Stage::Member(t) => StageView::Member(t@),
            Stage::Writing(t) => StageView::Writing(t@),
            Stage::Done => StageView::Done,
        }
    }
}

impl Stage {
    /// What the executable fields owe to the ghost ones, and the bounds of the indices.
    pub open spec fn wf(&self) -> bool {
        match *self {
            Stage::Candidate { candidates, next, .. } => next <= candidates@.len(),
            Stage::Spec { signed, by, .. } => signed == (by@ is Some),
            Stage::Member(t) => t.signed == (t.by@ is Some),
            Stage::Writing(t) => t.signed == (t.by@ is Some),
            _ => true,
        }
    }
}

/// What to do next.
pub enum RefreshStep {
    FetchManifest,
    /// List the signatures over the digest.
    ListReferrers { subject: String },
    /// Fetch a referrer's manifest and the document it names.
    FetchCandidate { digest: String },
    FetchSpec { digest: String },
    FetchMember { digest: String },
    /// Put the bytes in the cache, under a temporary name first.
    Write { filename: &'static str, bytes: Vec<u8> },
    Finished(Result<Refreshed, String>),
}

#[verifier::ext_equal]
pub enum RefreshStepView {
    FetchManifest,
    ListReferrers { subject: Seq<char> },
    FetchCandidate { digest: Seq<char> },
    FetchSpec { digest: Seq<char> },
    FetchMember { digest: Seq<char> },
    Write { filename: Seq<char>, bytes: Seq<u8> },
    /// The status, and whether it is of a new pallet.
    Finished(Result<(AssetStatusView, bool), Seq<char>>),
}

impl View for RefreshStep {
    type V = RefreshStepView;

    open spec fn view(&self) -> RefreshStepView {
        match *self {
            RefreshStep::FetchManifest => RefreshStepView::FetchManifest,
            RefreshStep::ListReferrers { subject } => RefreshStepView::ListReferrers {
                subject: subject@,
            },
            RefreshStep::FetchCandidate { digest } => RefreshStepView::FetchCandidate {
                digest: digest@,
            },
            RefreshStep::FetchSpec { digest } => RefreshStepView::FetchSpec { digest: digest@ },
            RefreshStep::FetchMember { digest } => RefreshStepView::FetchMember {
                digest: digest@,
            },
            RefreshStep::Write { filename, bytes } => RefreshStepView::Write {
                filename: filename@,
                bytes: bytes@,
            },
            RefreshStep::Finished(Ok(done)) => RefreshStepView::Finished(
                Ok((done.status@, done.changed)),
            ),
            RefreshStep::Finished(Err(why)) => RefreshStepView::Finished(Err(why@)),
        }
    }
}

/// What came of a step.
pub enum RefreshEvent {
    /// The manifest: the registry's digest header, the bytes, and what they parse to.
    Manifest { header: Option<String>, bytes: Vec<u8>, parsed: Result<Manifest, String> },
    /// The referrers, or that the registry refused to list them.
    Referrers(Option<Index>),
    Candidate(Candidate),
    /// The spec: its bytes, and what they parse to.
    Spec { bytes: Vec<u8>, parsed: PalletSpec },
    /// The spec could not be had. Inline members are then unavailable.
    NoSpec,
    Fetched(Vec<u8>),
    Written,
    /// The step could not be carried out.
    Failed(String),
}

// ---------------------------------------------------------------------------
// The order

pub open spec fn ended(why: Seq<char>) -> (StageView, RefreshStepView) {
    (StageView::Done, RefreshStepView::Finished(Err(why)))
}

/// What a pallet over which the search came to `by` leads to.
pub open spec fn decided(
    source: PalletSource,
    digest: Seq<char>,
    manifest: Result<Manifest, String>,
    by: Option<SignatureDoc>,
) -> (StageView, RefreshStepView) {
    match pallet::pallet_fault(source, digest, by is Some, manifest) {
        Some(why) => ended(why),
        None => (
            StageView::Spec { digest, manifest: manifest->Ok_0, by },
            RefreshStepView::FetchSpec { digest: (manifest->Ok_0).config.digest@ },
        ),
    }
}

/// The next candidate, or the end of the search.
pub open spec fn looking(
    source: PalletSource,
    digest: Seq<char>,
    manifest: Result<Manifest, String>,
    fault: Option<Seq<char>>,
    left: Seq<Seq<char>>,
) -> (StageView, RefreshStepView) {
    if left.len() > 0 {
        (
            StageView::Candidate { digest, manifest, fault, left: left.skip(1) },
            RefreshStepView::FetchCandidate { digest: left[0] },
        )
    } else {
        match pallet::exhausted(fault, digest) {
            Err(why) => ended(why),
            Ok(_) => decided(source, digest, manifest, None),
        }
    }
}

/// What a pass that put every member in the cache comes to.
pub open spec fn completed(source: PalletSource, t: TakingView) -> Result<
    (AssetStatusView, bool),
    Seq<char>,
> {
    if pallet::bootable(t.steps) {
        Ok((pallet::pallet_status(source, t.manifest, t.digest, t.by is Some), true))
    } else {
        Err(
            "boot pallet "@ + t.digest + " is missing a kernel or initramfs (served: "@
                + pallet::shown_list(pallet::served(t.steps)) + ")"@,
        )
    }
}

/// The next member, or the end of the pass.
pub open spec fn taking(source: PalletSource, t: TakingView) -> (StageView, RefreshStepView) {
    if t.at < t.steps.len() {
        match t.steps[t.at as int] {
            MemberStepView::Inline { filename, text } => (
                StageView::Writing(t),
                RefreshStepView::Write { filename, bytes: vstd::utf8::encode_utf8(text) },
            ),
            MemberStepView::Fetch { layer, .. } => (
                StageView::Member(t),
                RefreshStepView::FetchMember { digest: t.manifest.layers@[layer as int].digest@ },
            ),
        }
    } else {
        (StageView::Done, RefreshStepView::Finished(completed(source, t)))
    }
}

/// The pallet to take, once its spec is known.
pub open spec fn planned(
    digest: Seq<char>,
    manifest: Manifest,
    by: Option<SignatureDoc>,
    spec: Option<Seq<u8>>,
    members: Seq<MemberDef>,
) -> TakingView {
    TakingView {
        digest,
        manifest,
        by,
        spec,
        steps: pallet::member_steps(manifest.layers@, members, manifest.layers@.len()),
        at: 0,
    }
}

/// How a member that could not be taken is named.
pub open spec fn untaken(t: TakingView) -> Seq<char> {
    match t.steps[t.at as int] {
        MemberStepView::Fetch { layer, role, .. } => "fetching member "@ + role + " ("@
            + t.manifest.layers@[layer as int].digest@ + ")"@,
        MemberStepView::Inline { filename, .. } => "writing inline member "@ + filename,
    }
}

/// What bytes that were fetched for the member at hand lead to.
pub open spec fn fetched(t: TakingView, bytes: Seq<u8>) -> (StageView, RefreshStepView) {
    match t.steps[t.at as int] {
        MemberStepView::Fetch { filename, layer, .. } => match pallet::member_fault(
            t.manifest.layers@[layer as int],
            filename,
            digest::digest(bytes),
            bytes.len(),
        ) {
            Some(_) => ended(untaken(t)),
            None => (StageView::Writing(t), RefreshStepView::Write { filename, bytes }),
        },
        MemberStepView::Inline { .. } => ended("an answer out of turn"@),
    }
}

/// What an event leads to: what is waited for then, and what to do.
pub open spec fn next(
    source: PalletSource,
    current: Option<Seq<char>>,
    verified: bool,
    stage: StageView,
    event: RefreshEvent,
) -> (StageView, RefreshStepView) {
    match (stage, event) {
        (StageView::Member(t), RefreshEvent::Failed(_)) => ended(untaken(t)),
        (_, RefreshEvent::Failed(why)) => ended(why@),
        (StageView::Manifest, RefreshEvent::Manifest { header, bytes, parsed }) => {
            match pallet::pinned(text::opt_text(header), digest::digest(bytes@)) {
                Err(why) => ended(why),
                Ok(d) => if current == Some(d) {
                    (
                        StageView::Done,
                        RefreshStepView::Finished(
                            match parsed {
                                Ok(m) => Ok((pallet::pallet_status(source, m, d, verified), false)),
                                Err(why) => Err(why@),
                            },
                        ),
                    )
                } else if source.trusted_keys@.len() > 0 {
                    (
                        StageView::Referrers { digest: d, manifest: parsed },
                        RefreshStepView::ListReferrers { subject: d },
                    )
                } else {
                    decided(source, d, parsed, None)
                },
            }
        },
        (StageView::Referrers { digest, manifest }, RefreshEvent::Referrers(answer)) => looking(
            source,
            digest,
            manifest,
            None,
            match answer {
                Some(index) => if source.trusted_keys@.len() > 0 {
                    pallet::signature_digests(index.manifests@)
                } else {
                    Seq::empty()
                },
                None => Seq::empty(),
            },
        ),
        (
            StageView::Candidate { digest, manifest, left, .. },
            RefreshEvent::Candidate(c),
        ) => match pallet::considered(c, digest, source.trusted_keys@) {
            Found::End(Err(why)) => ended(why),
            Found::End(Ok(_)) => decided(source, digest, manifest, Some(c->Document_0)),
            Found::Fault(why) => looking(source, digest, manifest, Some(why), left),
        },
        (StageView::Spec { digest, manifest, by }, RefreshEvent::NoSpec) => taking(
            source,
            planned(digest, manifest, by, None, Seq::empty()),
        ),
        (
            StageView::Spec { digest, manifest, by },
            RefreshEvent::Spec { bytes, parsed },
        ) => match pallet::spec_fault(manifest, bytes@) {
            Some(why) => ended(why),
            None => taking(source, planned(digest, manifest, by, Some(bytes@), parsed.members@)),
        },
        (StageView::Member(t), RefreshEvent::Fetched(bytes)) => fetched(t, bytes@),
        (StageView::Writing(t), RefreshEvent::Written) => taking(
            source,
            TakingView { at: t.at + 1, ..t },
        ),
        _ => ended("an answer out of turn"@),
    }
}

/// What holds of a pallet from its acceptance on: no reason speaks against it, the
/// document that is said to sign it does, and what it carries inline stands in a spec
/// that hashes to the digest the manifest names it by.
pub open spec fn accepted(
    source: PalletSource,
    digest: Seq<char>,
    manifest: Manifest,
    by: Option<SignatureDoc>,
) -> bool {
    &&& pallet::pallet_fault(source, digest, by is Some, Ok(manifest)) is None
    &&& by matches Some(doc) ==> stormsig::verdict(doc, digest, source.trusted_keys@) is Ok
}

/// What is known of a pallet whose members are being taken, before and after each.
pub open spec fn taken(source: PalletSource, t: TakingView) -> bool {
    &&& accepted(source, t.digest, t.manifest, t.by)
    &&& t.at <= t.steps.len()
    &&& forall|i: int|
        0 <= i < t.steps.len() ==> match #[trigger] t.steps[i] {
            MemberStepView::Fetch { layer, .. } => layer < t.manifest.layers@.len(),
            MemberStepView::Inline { .. } => t.spec is Some,
        }
    &&& t.spec matches Some(bytes) ==> pallet::spec_fault(t.manifest, bytes) is None
}

pub open spec fn in_progress(source: PalletSource, t: TakingView) -> bool {
    taken(source, t) && t.at < t.steps.len()
}

/// What every pass keeps to.
pub open spec fn sound(source: PalletSource, stage: StageView) -> bool {
    match stage {
        StageView::Spec { digest, manifest, by } => accepted(source, digest, manifest, by),
        StageView::Member(t) => in_progress(source, t) && t.steps[t.at as int] is Fetch,
        StageView::Writing(t) => in_progress(source, t),
        _ => true,
    }
}

/// Fetched members are layers that are there, and only a spec with members has one
/// inline.
proof fn lemma_member_steps(layers: Seq<Descriptor>, members: Seq<MemberDef>, n: nat)
    ensures
        forall|i: int|
            0 <= i < pallet::member_steps(layers, members, n).len()
                ==> match #[trigger] pallet::member_steps(layers, members, n)[i] {
                MemberStepView::Fetch { layer, .. } => layer < n,
                MemberStepView::Inline { .. } => members.len() > 0,
            },
    decreases n,
{
    if n > 0 {
        lemma_member_steps(layers, members, (n - 1) as nat);
    }
}

// ---------------------------------------------------------------------------
// The pass

fn finish(why: String) -> (r: (Stage, RefreshStep))
    ensures
        (r.0@, r.1@) == ended(why@),
        r.0.wf(),
{
    (Stage::Done, RefreshStep::Finished(Err(why)))
}

fn out_of_turn() -> (r: (Stage, RefreshStep))
    ensures
        (r.0@, r.1@) == ended("an answer out of turn"@),
        r.0.wf(),
{
    finish("an answer out of turn".to_owned())
}

fn decide(
    source: &PalletSource,
    digest: String,
    manifest: Result<Manifest, String>,
    signed: bool,
    by: Ghost<Option<SignatureDoc>>,
) -> (r: (Stage, RefreshStep))
    requires
        signed == (by@ is Some),
        by@ matches Some(doc) ==> stormsig::verdict(doc, digest@, source.trusted_keys@) is Ok,
    ensures
        (r.0@, r.1@) == decided(*source, digest@, manifest, by@),
        r.0.wf(),
        sound(*source, r.0@),
{
    match source.accept(digest.as_str(), signed, &manifest) {
        Err(why) => finish(why),
        Ok(()) => match manifest {
            Ok(m) => {
                let config = m.config.digest.clone();
                (
                    Stage::Spec { digest, manifest: m, signed, by },
                    RefreshStep::FetchSpec { digest: config },
                )
            },
            Err(why) => finish(why),
        },
    }
}

fn look(
    source: &PalletSource,
    manifest: Result<Manifest, String>,
    search: SignatureSearch,
    candidates: Vec<String>,
    next: usize,
) -> (r: (Stage, RefreshStep))
    requires
        next <= candidates@.len(),
    ensures
        (r.0@, r.1@) == looking(
            *source,
            search.subject@,
            manifest,
            text::opt_text(search.fault),
            text::texts(candidates@).skip(next as int),
        ),
        r.0.wf(),
        sound(*source, r.0@),
{
    if next < candidates.len() {
        let digest = candidates[next].clone();
        proof {
            let all = text::texts(candidates@);
            assert(all.skip(next as int)[0] == digest@);
            assert(all.skip(next as int).skip(1) =~= all.skip(next + 1));
        }
        (
            Stage::Candidate { manifest, search, candidates, next: next + 1 },
            RefreshStep::FetchCandidate { digest },
        )
    } else {
        let digest = search.subject.clone();
        match search.finish() {
            Err(why) => finish(why),
            Ok(_) => decide(source, digest, manifest, false, Ghost(None)),
        }
    }
}

fn take(source: &PalletSource, t: Taking) -> (r: (Stage, RefreshStep))
    requires
        t.signed == (t.by@ is Some),
        taken(*source, t@),
    ensures
        (r.0@, r.1@) == taking(*source, t@),
        r.0.wf(),
        sound(*source, r.0@),
{
    if t.at < t.steps.len() {
        let ghost at = t.at as int;
        assert(t@.steps[at] == t.steps@[at]@);
        match &t.steps[t.at] {
            MemberStep::Inline { filename, text } => {
                let name = *filename;
                let raw = text.as_str().as_bytes();
                let content = bytes::copied(raw, 0, raw.len());
                assert(content@ =~= raw@);
                (Stage::Writing(t), RefreshStep::Write { filename: name, bytes: content })
            },
            MemberStep::Fetch { filename, layer, role } => {
                let digest = t.manifest.layers[*layer].digest.clone();
                (Stage::Member(t), RefreshStep::FetchMember { digest })
            },
        }
    } else {
        let done = source.complete(&t.manifest, t.digest.as_str(), t.signed, &t.steps);
        (Stage::Done, RefreshStep::Finished(done))
    }
}

fn name_untaken(t: &Taking) -> (r: String)
    requires
        t.at < t.steps@.len(),
        t@.steps[t.at as int] matches MemberStepView::Fetch { layer, .. } ==> layer
            < t.manifest.layers@.len(),
    ensures
        r@ == untaken(t@),
{
    assert(t@.steps[t.at as int] == t.steps@[t.at as int]@);
    match &t.steps[t.at] {
        MemberStep::Fetch { filename, layer, role } => {
            let mut said = strings::concat("fetching member ", role.as_str());
            said.append(" (");
            said.append(t.manifest.layers[*layer].digest.as_str());
            said.append(")");
            said
        },
        MemberStep::Inline { filename, text } => strings::concat("writing inline member ", filename),
    }
}

fn hold_against(source: &PalletSource, t: Taking, content: Vec<u8>) -> (r: (Stage, RefreshStep))
    requires
        t.signed == (t.by@ is Some),
        in_progress(*source, t@),
    ensures
        (r.0@, r.1@) == fetched(t@, content@),
        r.0.wf(),
        sound(*source, r.0@),
{
    assert(t@.steps[t.at as int] == t.steps@[t.at as int]@);
    match &t.steps[t.at] {
        MemberStep::Fetch { filename, layer, role } => {
            let name = *filename;
            match pallet::check_member(&t.manifest.layers[*layer], name, content.as_slice()) {
                Ok(()) => (
                    Stage::Writing(t),
                    RefreshStep::Write { filename: name, bytes: content },
                ),
                Err(_) => finish(name_untaken(&t)),
            }
        },
        MemberStep::Inline { filename, text } => out_of_turn(),
    }
}

/// Starts on the members of an accepted pallet.
fn start(
    source: &PalletSource,
    digest: String,
    manifest: Manifest,
    signed: bool,
    by: Ghost<Option<SignatureDoc>>,
    spec: Ghost<Option<Seq<u8>>>,
    parsed: PalletSpec,
) -> (r: (Stage, RefreshStep))
    requires
        signed == (by@ is Some),
        accepted(*source, digest@, manifest, by@),
        spec@ is None ==> parsed.members@.len() == 0,
        spec@ matches Some(bytes) ==> pallet::spec_fault(manifest, bytes) is None,
    ensures
        (r.0@, r.1@) == taking(
            *source,
            planned(digest@, manifest, by@, spec@, parsed.members@),
        ),
        r.0.wf(),
        sound(*source, r.0@),
{
    let steps = pallet::plan_members(&manifest, &parsed);
    proof {
        lemma_member_steps(manifest.layers@, parsed.members@, manifest.layers@.len());
    }
    let t = Taking { digest, manifest, signed, by, spec, steps, at: 0 };
    assert(t@ == planned(digest@, manifest, by@, spec@, parsed.members@));
    take(source, t)
}

fn no_spec() -> (r: PalletSpec)
    ensures
        r.members@ == Seq::<MemberDef>::empty(),
{
    PalletSpec {
        name: String::new(),
        kind: String::new(),
        version_label: String::new(),
        members: Vec::new(),
    }
}

fn on_manifest(
    source: &PalletSource,
    current: &Option<String>,
    verified: bool,
    header: Option<String>,
    content: Vec<u8>,
    parsed: Result<Manifest, String>,
) -> (r: (Stage, RefreshStep))
    ensures
        (r.0@, r.1@) == next(
            *source,
            text::opt_text(*current),
            verified,
            StageView::Manifest,
            RefreshEvent::Manifest { header, bytes: content, parsed },
        ),
        r.0.wf(),
        sound(*source, r.0@),
{
    let digest = match pallet::pin(header, content.as_slice()) {
        Ok(d) => d,
        Err(why) => return finish(why),
    };
    let served = match current {
        Some(c) => Some(c.as_str()),
        None => None,
    };
    if let Some(done) = source.unchanged(served, verified, digest.as_str(), &parsed) {
        return (Stage::Done, RefreshStep::Finished(done));
    }
    if source.seeks_signature() {
        let subject = digest.clone();
        (Stage::Referrers { digest, manifest: parsed }, RefreshStep::ListReferrers { subject })
    } else {
        decide(source, digest, parsed, false, Ghost(None))
    }
}

fn on_candidate(
    source: &PalletSource,
    manifest: Result<Manifest, String>,
    search: SignatureSearch,
    candidates: Vec<String>,
    next: usize,
    c: Candidate,
) -> (r: (Stage, RefreshStep))
    requires
        next <= candidates@.len(),
    ensures
        (r.0@, r.1@) == match pallet::considered(c, search.subject@, source.trusted_keys@) {
            Found::End(Err(why)) => ended(why),
            Found::End(Ok(_)) => decided(
                *source,
                search.subject@,
                manifest,
                Some(c->Document_0),
            ),
            Found::Fault(why) => looking(
                *source,
                search.subject@,
                manifest,
                Some(why),
                text::texts(candidates@).skip(next as int),
            ),
        },
        r.0.wf(),
        sound(*source, r.0@),
{
    let mut search = search;
    let ghost doc = c->Document_0;
    let digest = search.subject.clone();
    match search.consider(c, source.trusted_keys.as_slice()) {
        Some(Err(why)) => finish(why),
        Some(Ok(_)) => decide(source, digest, manifest, true, Ghost(Some(doc))),
        None => look(source, manifest, search, candidates, next),
    }
}

/// One pass over the registry.
pub struct Refresh {
    /// The digest that is served.
    pub current: Option<String>,
    /// Whether a signature over it was verified when it was taken.
    pub verified: bool,
    pub stage: Stage,
}

impl Refresh {
    pub open spec fn wf(&self, source: PalletSource) -> bool {
        self.stage.wf() && sound(source, self.stage@)
    }

    /// A pass, and its first step. `served` is the status of what is served, once
    /// something is.
    pub fn new(served: Option<&AssetStatus>) -> (r: (Self, RefreshStep))
        ensures
            forall|source: PalletSource| #[trigger] r.0.wf(source),
            r.0.stage@ == StageView::Manifest,
            r.1@ == RefreshStepView::FetchManifest,
            match served {
                Some(s) => text::opt_text(r.0.current) == s@.digest && r.0.verified
                    == s.signature_verified,
                None => r.0.current is None && !r.0.verified,
            },
    {
        match served {
            Some(s) => (
                Refresh {
                    current: strings::clone_opt(&s.digest),
                    verified: s.signature_verified,
                    stage: Stage::Manifest,
                },
                RefreshStep::FetchManifest,
            ),
            None => (
                Refresh { current: None, verified: false, stage: Stage::Manifest },
                RefreshStep::FetchManifest,
            ),
        }
    }

    /// What came of the last step leads to the next one.
    pub fn on_event(&mut self, source: &PalletSource, event: RefreshEvent) -> (r: RefreshStep)
        requires
            old(self).wf(*source),
        ensures
            final(self).wf(*source),
            final(self).current == old(self).current,
            final(self).verified == old(self).verified,
            (final(self).stage@, r@) == next(
                *source,
                text::opt_text(old(self).current),
                old(self).verified,
                old(self).stage@,
                event,
            ),
    {
        let mut stage = Stage::Done;
        std::mem::swap(&mut stage, &mut self.stage);
        let (after, step) = match (stage, event) {
            (Stage::Member(t), RefreshEvent::Failed(_)) => finish(name_untaken(&t)),
            (_, RefreshEvent::Failed(why)) => finish(why),
            (Stage::Manifest, RefreshEvent::Manifest { header, bytes, parsed }) => on_manifest(
                source,
                &self.current,
                self.verified,
                header,
                bytes,
                parsed,
            ),
            (Stage::Referrers { digest, manifest }, RefreshEvent::Referrers(answer)) => {
                let candidates = source.candidates(answer.as_ref());
                let search = SignatureSearch::new(digest.as_str());
                assert(text::texts(candidates@).skip(0) =~= text::texts(candidates@));
                look(source, manifest, search, candidates, 0)
            },
            (
                Stage::Candidate { manifest, search, candidates, next },
                RefreshEvent::Candidate(c),
            ) => on_candidate(source, manifest, search, candidates, next, c),
            (Stage::Spec { digest, manifest, signed, by }, RefreshEvent::NoSpec) => start(
                source,
                digest,
                manifest,
                signed,
                by,
                Ghost(None),
                no_spec(),
            ),
            (
                Stage::Spec { digest, manifest, signed, by },
                RefreshEvent::Spec { bytes, parsed },
            ) => match pallet::check_spec(&manifest, bytes.as_slice()) {
                Ok(()) => start(
                    source,
                    digest,
                    manifest,
                    signed,
                    by,
                    Ghost(Some(bytes@)),
                    parsed,
                ),
                Err(why) => finish(why),
            },
            (Stage::Member(t), RefreshEvent::Fetched(bytes)) => hold_against(source, t, bytes),
            (Stage::Writing(t), RefreshEvent::Written) => {
                let mut t = t;
                let ghost was = t@;
                assert(in_progress(*source, was));
                assert(t.at < t.steps.len());
                t.at = t.at + 1;
                assert(t@ == (TakingView { at: was.at + 1, ..was }));
                take(source, t)
            },
            _ => out_of_turn(),
        };
        self.stage = after;
        step
    }
}

// ---------------------------------------------------------------------------
// Laws

/// Nothing is written before the pallet is accepted, and nothing unverified ever: where
/// signatures are required, a document over the manifest's digest has verified with a
/// trusted key; a fetched member hashes to the digest that names its layer; and a member
/// that is carried inline stands in a spec that hashes to the digest the manifest names
/// it by.
pub proof fn law_verified_before_a_byte_is_written(
    source: PalletSource,
    current: Option<Seq<char>>,
    verified: bool,
    stage: StageView,
    event: RefreshEvent,
)
    requires
        sound(source, stage),
        next(source, current, verified, stage, event).1 is Write,
    ensures
        next(source, current, verified, stage, event).0 is Writing,
        ({
            let t = next(source, current, verified, stage, event).0->Writing_0;
            let step = next(source, current, verified, stage, event).1;
            &&& source.require_signature ==> exists|doc: SignatureDoc|
                #[trigger] stormsig::verdict(doc, t.digest, source.trusted_keys@) is Ok
            &&& pallet::announces_pallet(t.manifest)
            &&& match t.steps[t.at as int] {
                MemberStepView::Fetch { filename, layer, .. } => {
                    &&& step->filename == filename
                    &&& layer < t.manifest.layers@.len()
                    &&& digest::digest(step->bytes) == text::to_lower(
                        t.manifest.layers@[layer as int].digest@,
                    )
                },
                MemberStepView::Inline { filename, text } => {
                    &&& step->filename == filename
                    &&& step->bytes == vstd::utf8::encode_utf8(text)
                    &&& t.spec is Some
                    &&& digest::digest(t.spec->0) == text::to_lower(t.manifest.config.digest@)
                },
            }
        }),
{
    lemma_next_is_sound(source, current, verified, stage, event);
    let t = next(source, current, verified, stage, event).0->Writing_0;
    if source.require_signature {
        assert(t.by is Some);
        assert(stormsig::verdict(t.by->0, t.digest, source.trusted_keys@) is Ok);
    }
}

proof fn lemma_decided_is_sound(
    source: PalletSource,
    digest: Seq<char>,
    manifest: Result<Manifest, String>,
    by: Option<SignatureDoc>,
)
    requires
        by matches Some(doc) ==> stormsig::verdict(doc, digest, source.trusted_keys@) is Ok,
    ensures
        sound(source, decided(source, digest, manifest, by).0),
        !(decided(source, digest, manifest, by).1 is Write),
        decided(source, digest, manifest, by).1 matches RefreshStepView::Finished(end) ==> end is Err,
{
}

proof fn lemma_taking_is_sound(source: PalletSource, t: TakingView)
    requires
        taken(source, t),
    ensures
        sound(source, taking(source, t).0),
{
}

proof fn lemma_next_is_sound(
    source: PalletSource,
    current: Option<Seq<char>>,
    verified: bool,
    stage: StageView,
    event: RefreshEvent,
)
    requires
        sound(source, stage),
    ensures
        sound(source, next(source, current, verified, stage, event).0),
{
    match (stage, event) {
        (_, RefreshEvent::Failed(_)) => {},
        (StageView::Manifest, RefreshEvent::Manifest { header, bytes, parsed }) => {
            let pin = pallet::pinned(text::opt_text(header), digest::digest(bytes@));
            if pin is Ok {
                lemma_decided_is_sound(source, pin->Ok_0, parsed, None);
            }
        },
        (StageView::Referrers { digest, manifest }, RefreshEvent::Referrers(_)) => {
            lemma_decided_is_sound(source, digest, manifest, None);
        },
        (StageView::Candidate { digest, manifest, left, .. }, RefreshEvent::Candidate(c)) => {
            lemma_decided_is_sound(source, digest, manifest, None);
            if pallet::considered(c, digest, source.trusted_keys@) == Found::End(Ok(true)) {
                lemma_decided_is_sound(source, digest, manifest, Some(c->Document_0));
            }
        },
        (StageView::Spec { digest, manifest, by }, RefreshEvent::NoSpec) => {
            lemma_member_steps(manifest.layers@, Seq::empty(), manifest.layers@.len());
            lemma_taking_is_sound(source, planned(digest, manifest, by, None, Seq::empty()));
        },
        (StageView::Spec { digest, manifest, by }, RefreshEvent::Spec { bytes, parsed }) => {
            lemma_member_steps(manifest.layers@, parsed.members@, manifest.layers@.len());
            if pallet::spec_fault(manifest, bytes@) is None {
                lemma_taking_is_sound(
                    source,
                    planned(digest, manifest, by, Some(bytes@), parsed.members@),
                );
            }
        },
        (StageView::Writing(t), RefreshEvent::Written) => {
            lemma_taking_is_sound(source, TakingView { at: t.at + 1, ..t });
        },
        _ => {},
    }
}

/// That a status which says so is of a pallet over whose digest a document verified with
/// a trusted key: in this pass, or when what is served was taken.
pub open spec fn vouched(
    source: PalletSource,
    current: Option<Seq<char>>,
    verified: bool,
    step: RefreshStepView,
) -> bool {
    step matches RefreshStepView::Finished(Ok((status, changed))) ==> (
    status.signature_verified ==> if changed {
        exists|doc: SignatureDoc|
            #[trigger] stormsig::verdict(doc, status.digest->0, source.trusted_keys@) is Ok
    } else {
        verified && status.digest == current
    })
}

proof fn lemma_taking_is_vouched(
    source: PalletSource,
    current: Option<Seq<char>>,
    verified: bool,
    t: TakingView,
)
    requires
        accepted(source, t.digest, t.manifest, t.by),
    ensures
        vouched(source, current, verified, taking(source, t).1),
{
    assert(t.by is Some ==> stormsig::verdict(t.by->0, t.digest, source.trusted_keys@) is Ok);
}

/// A pallet is called verified only if a document over its digest verified with a
/// trusted key, in this pass or when what is served was taken.
pub proof fn law_verified_is_never_just_claimed(
    source: PalletSource,
    current: Option<Seq<char>>,
    verified: bool,
    stage: StageView,
    event: RefreshEvent,
)
    requires
        sound(source, stage),
    ensures
        vouched(source, current, verified, next(source, current, verified, stage, event).1),
{
    match (stage, event) {
        (StageView::Manifest, RefreshEvent::Manifest { header, bytes, parsed }) => {
            let pin = pallet::pinned(text::opt_text(header), digest::digest(bytes@));
            if pin is Ok {
                lemma_decided_is_sound(source, pin->Ok_0, parsed, None);
            }
        },
        (StageView::Referrers { digest, manifest }, RefreshEvent::Referrers(_)) => {
            lemma_decided_is_sound(source, digest, manifest, None);
        },
        (StageView::Candidate { digest, manifest, left, .. }, RefreshEvent::Candidate(c)) => {
            lemma_decided_is_sound(source, digest, manifest, None);
            if pallet::considered(c, digest, source.trusted_keys@) == Found::End(Ok(true)) {
                lemma_decided_is_sound(source, digest, manifest, Some(c->Document_0));
            }
        },
        (StageView::Spec { digest, manifest, by }, RefreshEvent::NoSpec) => {
            let t = planned(digest, manifest, by, None, Seq::empty());
            lemma_taking_is_vouched(source, current, verified, t);
        },
        (StageView::Spec { digest, manifest, by }, RefreshEvent::Spec { bytes, parsed }) => {
            let t = planned(digest, manifest, by, Some(bytes@), parsed.members@);
            lemma_taking_is_vouched(source, current, verified, t);
        },
        (StageView::Writing(t), RefreshEvent::Written) => {
            let after = TakingView { at: t.at + 1, ..t };
            lemma_taking_is_vouched(source, current, verified, after);
        },
        _ => {},
    }
}

/// Whether a pass ends without having served anything new.
pub open spec fn fails(step: RefreshStepView) -> bool {
    step matches RefreshStepView::Finished(end) && end is Err
}

/// Whether a pass ends with a new pallet served, under that digest.
pub open spec fn serves(step: RefreshStepView, digest: Seq<char>, signed: bool) -> bool {
    &&& step matches RefreshStepView::Finished(Ok((status, changed)))
    &&& changed
    &&& status.ready
    &&& status.digest == Some(digest)
    &&& status.signature_verified == signed
}

/// Whether a pallet is about to be taken, from the first of those steps on.
pub open spec fn starts(
    t: TakingView,
    steps: Seq<MemberStepView>,
    digest: Seq<char>,
    by: Option<SignatureDoc>,
) -> bool {
    t.at == 0 && t.steps == steps && t.digest == digest && t.by == by
}

/// A pallet that is served already is left as it is: nothing is fetched, nothing is
/// written, and it counts as verified exactly where it did.
pub proof fn law_an_unchanged_pallet_is_left_alone(
    source: PalletSource,
    current: Seq<char>,
    verified: bool,
    header: Option<String>,
    bytes: Vec<u8>,
    manifest: Manifest,
)
    requires
        pallet::pinned(text::opt_text(header), digest::digest(bytes@)) == Ok::<
            Seq<char>,
            Seq<char>,
        >(current),
    ensures
        ({
            let event = RefreshEvent::Manifest { header, bytes, parsed: Ok(manifest) };
            let (stage, step) = next(source, Some(current), verified, StageView::Manifest, event);
            &&& stage is Done
            &&& step matches RefreshStepView::Finished(Ok((status, changed)))
            &&& !changed
            &&& status.digest == Some(current)
            &&& status.signature_verified == verified
            &&& status.ready
        }),
{
}

/// A pallet that is not the one served is first looked up by its signatures, where there is
/// a key to check them with; without one, it is taken only where it need not be signed.
pub proof fn law_a_new_pallet_is_looked_up_by_its_signatures(
    source: PalletSource,
    current: Option<Seq<char>>,
    verified: bool,
    header: Option<String>,
    bytes: Vec<u8>,
    parsed: Result<Manifest, String>,
    digest: Seq<char>,
)
    requires
        pallet::pinned(text::opt_text(header), digest::digest(bytes@)) == Ok::<
            Seq<char>,
            Seq<char>,
        >(digest),
        current != Some(digest),
    ensures
        ({
            let event = RefreshEvent::Manifest { header, bytes, parsed };
            let step = next(source, current, verified, StageView::Manifest, event).1;
            &&& source.trusted_keys@.len() > 0 ==> step == RefreshStepView::ListReferrers {
                subject: digest,
            }
            &&& source.trusted_keys@.len() == 0 && source.require_signature
                ==> fails(step)
            &&& source.trusted_keys@.len() == 0 && !source.require_signature && parsed is Ok
                && pallet::announces_pallet(parsed->Ok_0) ==> step == RefreshStepView::FetchSpec {
                digest: (parsed->Ok_0).config.digest@,
            }
        }),
{
}

/// The candidates are looked at one after the other. The first whose document verifies has
/// the pallet taken by that document; one that does not has the next one looked at.
pub proof fn law_candidates_are_looked_at_in_turn(
    source: PalletSource,
    current: Option<Seq<char>>,
    verified: bool,
    digest: Seq<char>,
    manifest: Manifest,
    fault: Option<Seq<char>>,
    left: Seq<Seq<char>>,
    doc: SignatureDoc,
)
    requires
        pallet::announces_pallet(manifest),
    ensures
        ({
            let stage = StageView::Candidate { digest, manifest: Ok(manifest), fault, left };
            let event = RefreshEvent::Candidate(pallet::Candidate::Document(doc));
            let (then, step) = next(source, current, verified, stage, event);
            let good = stormsig::verdict(doc, digest, source.trusted_keys@) is Ok;
            &&& good ==> then == (StageView::Spec { digest, manifest, by: Some(doc) }) && step
                == (RefreshStepView::FetchSpec { digest: manifest.config.digest@ })
            &&& !good && left.len() > 0 ==> step == (RefreshStepView::FetchCandidate {
                digest: left[0],
            }) && then is Candidate && then->left == left.skip(1) && then->Candidate_digest == digest
            &&& !good && left.len() == 0 ==> fails(step)
        }),
{
}

/// A fetched member is written under its own file as it came, exactly where it hashes to its
/// layer's digest and has its layer's size; otherwise the pass ends without it.
pub proof fn law_a_fetched_member_is_written_as_it_came(
    source: PalletSource,
    current: Option<Seq<char>>,
    verified: bool,
    t: TakingView,
    bytes: Vec<u8>,
)
    requires
        in_progress(source, t),
        t.steps[t.at as int] is Fetch,
    ensures
        ({
            let step = next(
                source,
                current,
                verified,
                StageView::Member(t),
                RefreshEvent::Fetched(bytes),
            ).1;
            let layer = t.manifest.layers@[t.steps[t.at as int]->layer as int];
            let good = digest::digest(bytes@) == text::to_lower(layer.digest@) && (layer.size == 0
                || layer.size == bytes@.len());
            &&& good ==> step == RefreshStepView::Write {
                filename: pallet::file_of(t.steps[t.at as int]),
                bytes: bytes@,
            }
            &&& !good ==> fails(step)
        }),
{
}

/// Once a member is written, the one behind it is taken: the layer's blob is asked for by
/// its digest, or the text of the spec is written. Behind the last one the pass ends, well
/// exactly where a kernel and an initramfs are there, and the status is of this pallet.
pub proof fn law_members_are_taken_one_after_the_other(
    source: PalletSource,
    current: Option<Seq<char>>,
    verified: bool,
    t: TakingView,
)
    requires
        in_progress(source, t),
    ensures
        ({
            let (stage, step) = next(
                source,
                current,
                verified,
                StageView::Writing(t),
                RefreshEvent::Written,
            );
            let at = t.at + 1;
            &&& at < t.steps.len() ==> match t.steps[at as int] {
                MemberStepView::Fetch { layer, .. } => step == (RefreshStepView::FetchMember {
                    digest: t.manifest.layers@[layer as int].digest@,
                }) && stage is Member && stage->Member_0.at == at,
                MemberStepView::Inline { filename, text } => step == (RefreshStepView::Write {
                    filename,
                    bytes: vstd::utf8::encode_utf8(text),
                }) && stage is Writing && stage->Writing_0.at == at,
            }
            &&& at == t.steps.len() ==> stage is Done && step is Finished
            &&& at == t.steps.len() && pallet::served(t.steps).contains("vmlinuz"@)
                && pallet::served(t.steps).contains("initramfs.img"@)
                ==> serves(step, t.digest, t.by is Some)
            &&& at == t.steps.len() && !(pallet::served(t.steps).contains("vmlinuz"@)
                && pallet::served(t.steps).contains("initramfs.img"@))
                ==> fails(step)
        }),
{
}

/// A step that could not be carried out ends the pass, and so does an answer to something
/// that was not asked: nothing is fetched or written behind it.
pub proof fn law_a_failed_step_ends_the_pass(
    source: PalletSource,
    current: Option<Seq<char>>,
    verified: bool,
    stage: StageView,
    why: String,
    bytes: Vec<u8>,
)
    ensures
        ({
            let (then, step) = next(source, current, verified, stage, RefreshEvent::Failed(why));
            &&& then is Done
            &&& fails(step)
            &&& !(stage is Member) ==> step == RefreshStepView::Finished(Err(why@))
        }),
        !(stage is Member) ==> fails(
            next(source, current, verified, stage, RefreshEvent::Fetched(bytes)).1,
        ),
        !(stage is Writing) ==> fails(
            next(source, current, verified, stage, RefreshEvent::Written).1,
        ),
{
}

/// An accepted pallet's members are planned from its layers and its spec, from the first
/// one on; a spec that does not hash to its digest ends the pass.
pub proof fn law_an_accepted_pallet_is_taken_from_its_first_member(
    source: PalletSource,
    current: Option<Seq<char>>,
    verified: bool,
    digest: Seq<char>,
    manifest: Manifest,
    by: Option<SignatureDoc>,
    bytes: Vec<u8>,
    parsed: pallet::PalletSpec,
)
    requires
        pallet::member_steps(
            manifest.layers@,
            parsed.members@,
            manifest.layers@.len(),
        ).len() > 0,
    ensures
        ({
            let (stage, step) = next(
                source,
                current,
                verified,
                StageView::Spec { digest, manifest, by },
                RefreshEvent::Spec { bytes, parsed },
            );
            let steps = pallet::member_steps(
                manifest.layers@,
                parsed.members@,
                manifest.layers@.len(),
            );
            let good = digest::digest(bytes@) == text::to_lower(manifest.config.digest@);
            &&& !good ==> fails(step)
            &&& good ==> match steps[0] {
                MemberStepView::Fetch { layer, .. } => step == (RefreshStepView::FetchMember {
                    digest: manifest.layers@[layer as int].digest@,
                }) && stage is Member && starts(stage->Member_0, steps, digest, by),
                MemberStepView::Inline { filename, text } => step == (RefreshStepView::Write {
                    filename,
                    bytes: vstd::utf8::encode_utf8(text),
                }) && stage is Writing && starts(stage->Writing_0, steps, digest, by),
            }
        }),
{
}

} // verus!
