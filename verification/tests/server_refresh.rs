use ed25519_dalek::{Signer, SigningKey};
use stormnetboot::server::digest::digest_of;
use stormnetboot::server::pallet::{
    check_spec, AssetStatus, Candidate, Descriptor, Index, Manifest, MemberDef, PalletSource,
    PalletSpec, PALLET_ARTIFACT_TYPE,
};
use stormnetboot::server::refresh::{Refresh, RefreshEvent, RefreshStep};
use stormnetboot::server::stormsig::{SignatureDoc, SIGNATURE_ARTIFACT_TYPE};

const SPEC: &[u8] = b"the spec";
const KERNEL: &[u8] = b"a kernel";
const INITRAMFS: &[u8] = b"an initramfs";
const MANIFEST: &[u8] = b"the manifest";

fn blob(media: &str, bytes: &[u8]) -> Descriptor {
    Descriptor {
        media_type: media.into(),
        digest: digest_of(bytes),
        size: bytes.len() as u64,
        artifact_type: None,
        annotations: vec![],
    }
}

fn manifest() -> Manifest {
    Manifest {
        artifact_type: Some(PALLET_ARTIFACT_TYPE.into()),
        config: blob("x", SPEC),
        layers: vec![
            blob("application/vnd.stormblock.member.kernel", KERNEL),
            blob("application/vnd.stormblock.member.initramfs", INITRAMFS),
            blob("application/vnd.stormblock.member.cmdline", b""),
        ],
        annotations: vec![],
    }
}

fn spec() -> PalletSpec {
    PalletSpec {
        name: "boot".into(),
        kind: "pallet".into(),
        version_label: "1".into(),
        members: vec![MemberDef {
            name: "cmdline".into(),
            role: "cmdline".into(),
            source: "inline".into(),
            digest: None,
            text: Some("quiet".into()),
        }],
    }
}

fn key() -> SigningKey {
    SigningKey::from_bytes(&[7; 32])
}

fn source(keys: Vec<String>, require_signature: bool) -> PalletSource {
    PalletSource::new(
        "http://r:5100".into(),
        "stormcos/boot".into(),
        "latest".into(),
        "/cache".into(),
        keys,
        require_signature,
    )
}

fn trusting() -> PalletSource {
    source(vec![hex::encode(key().verifying_key().to_bytes())], true)
}

/// A signature over the manifest's digest.
fn signed() -> SignatureDoc {
    let subject = digest_of(MANIFEST);
    let raw = hex::decode(&subject["sha256:".len()..]).unwrap();
    let mut stmt = [0u8; 64];
    stmt[..8].copy_from_slice(b"STORMSIG");
    stmt[8] = 1;
    stmt[9] = 1;
    stmt[16..48].copy_from_slice(&raw);
    let public_key = hex::encode(key().verifying_key().to_bytes());
    SignatureDoc {
        subject,
        subject_kind: "pallet".into(),
        key_id: public_key[..16].to_owned(),
        public_key,
        signature: hex::encode(key().sign(&stmt).to_bytes()),
        signed_at: 0,
        statement: hex::encode(stmt),
    }
}

fn answered() -> RefreshEvent {
    RefreshEvent::Manifest { header: None, bytes: MANIFEST.to_vec(), parsed: Ok(manifest()) }
}

fn referrers() -> RefreshEvent {
    let mut one = blob("x", b"referrer");
    one.artifact_type = Some(SIGNATURE_ARTIFACT_TYPE.into());
    RefreshEvent::Referrers(Some(Index { manifests: vec![one] }))
}

fn why(step: RefreshStep) -> String {
    match step {
        RefreshStep::Finished(Err(why)) => why,
        _ => panic!("the pass goes on"),
    }
}

/// A pass up to the question for the spec.
fn accepted(source: &PalletSource) -> Refresh {
    let (mut pass, first) = Refresh::new(None);
    assert!(matches!(first, RefreshStep::FetchManifest));
    match pass.on_event(source, answered()) {
        RefreshStep::ListReferrers { subject } => assert_eq!(subject, digest_of(MANIFEST)),
        _ => panic!("a signature is looked for first"),
    }
    match pass.on_event(source, referrers()) {
        RefreshStep::FetchCandidate { digest } => assert_eq!(digest, digest_of(b"referrer")),
        _ => panic!("the referrer is looked at"),
    }
    let step = pass.on_event(source, RefreshEvent::Candidate(Candidate::Document(signed())));
    assert!(matches!(step, RefreshStep::FetchSpec { ref digest } if *digest == digest_of(SPEC)));
    pass
}

fn writes(step: RefreshStep, name: &str, what: &[u8]) {
    match step {
        RefreshStep::Write { filename, bytes } => {
            assert_eq!(filename, name);
            assert_eq!(bytes, what);
        }
        _ => panic!("{name} is not written"),
    }
}

#[test]
fn a_signed_pallet_is_taken_member_by_member() {
    let source = trusting();
    let mut pass = accepted(&source);
    let step = pass.on_event(&source, RefreshEvent::Spec { bytes: SPEC.to_vec(), parsed: spec() });
    assert!(matches!(step, RefreshStep::FetchMember { ref digest } if *digest == digest_of(KERNEL)));
    writes(pass.on_event(&source, RefreshEvent::Fetched(KERNEL.to_vec())), "vmlinuz", KERNEL);
    let step = pass.on_event(&source, RefreshEvent::Written);
    assert!(matches!(step, RefreshStep::FetchMember { ref digest } if *digest == digest_of(INITRAMFS)));
    let step = pass.on_event(&source, RefreshEvent::Fetched(INITRAMFS.to_vec()));
    writes(step, "initramfs.img", INITRAMFS);
    writes(pass.on_event(&source, RefreshEvent::Written), "cmdline", b"quiet");
    match pass.on_event(&source, RefreshEvent::Written) {
        RefreshStep::Finished(Ok(done)) => {
            assert!(done.changed && done.status.ready && done.status.signature_verified);
            assert_eq!(done.status.digest, Some(digest_of(MANIFEST)));
        }
        _ => panic!("the pass is over"),
    }
}

#[test]
fn a_member_that_is_not_what_its_digest_names_is_never_written() {
    let source = trusting();
    let mut pass = accepted(&source);
    pass.on_event(&source, RefreshEvent::Spec { bytes: SPEC.to_vec(), parsed: spec() });
    let step = pass.on_event(&source, RefreshEvent::Fetched(b"another kernel".to_vec()));
    assert_eq!(why(step), format!("fetching member kernel ({})", digest_of(KERNEL)));
    // What could not be fetched ends the pass the same way.
    let mut pass = accepted(&source);
    pass.on_event(&source, RefreshEvent::Spec { bytes: SPEC.to_vec(), parsed: spec() });
    let step = pass.on_event(&source, RefreshEvent::Failed("GET".into()));
    assert_eq!(why(step), format!("fetching member kernel ({})", digest_of(KERNEL)));
}

#[test]
fn a_spec_that_is_not_what_its_digest_names_is_refused() {
    let source = trusting();
    let mut pass = accepted(&source);
    let step = pass.on_event(&source, RefreshEvent::Spec { bytes: b"odd".to_vec(), parsed: spec() });
    let said = format!(
        "pallet spec digest mismatch: expected {}, got {}",
        digest_of(SPEC),
        digest_of(b"odd")
    );
    assert_eq!(why(step), said);
    assert_eq!(check_spec(&manifest(), b"odd"), Err(said));
    assert_eq!(check_spec(&manifest(), SPEC), Ok(()));
}

#[test]
fn without_its_spec_the_inline_member_is_fetched() {
    let source = trusting();
    let mut pass = accepted(&source);
    pass.on_event(&source, RefreshEvent::NoSpec);
    pass.on_event(&source, RefreshEvent::Fetched(KERNEL.to_vec()));
    pass.on_event(&source, RefreshEvent::Written);
    pass.on_event(&source, RefreshEvent::Fetched(INITRAMFS.to_vec()));
    let step = pass.on_event(&source, RefreshEvent::Written);
    assert!(matches!(step, RefreshStep::FetchMember { ref digest } if *digest == digest_of(b"")));
}

#[test]
fn an_unsigned_pallet_is_refused_before_anything_is_fetched() {
    let source = trusting();
    let (mut pass, _) = Refresh::new(None);
    pass.on_event(&source, answered());
    let step = pass.on_event(&source, RefreshEvent::Referrers(None));
    assert!(why(step).starts_with("refusing to serve pallet sha256:"));

    let (mut pass, _) = Refresh::new(None);
    pass.on_event(&source, answered());
    pass.on_event(&source, referrers());
    let mut doc = signed();
    doc.signature = "00".repeat(64);
    let step = pass.on_event(&source, RefreshEvent::Candidate(Candidate::Document(doc)));
    assert!(why(step).starts_with("no acceptable signature for sha256:"));
}

#[test]
fn a_pallet_taken_unsigned_stays_unsigned() {
    // No key, and no signature asked for: the registry's referrers are not even listed.
    let source = source(vec![], false);
    let (mut pass, _) = Refresh::new(None);
    let step = pass.on_event(&source, answered());
    assert!(matches!(step, RefreshStep::FetchSpec { .. }));

    for verified in [false, true] {
        let served = AssetStatus {
            digest: Some(digest_of(MANIFEST)),
            signature_verified: verified,
            ..AssetStatus::default()
        };
        let (mut pass, _) = Refresh::new(Some(&served));
        match pass.on_event(&source, answered()) {
            RefreshStep::Finished(Ok(done)) => {
                assert!(!done.changed);
                assert_eq!(done.status.signature_verified, verified);
            }
            _ => panic!("nothing is fetched again"),
        }
    }
}

#[test]
fn an_answer_out_of_turn_ends_the_pass() {
    let source = trusting();
    let (mut pass, _) = Refresh::new(None);
    assert_eq!(why(pass.on_event(&source, RefreshEvent::Written)), "an answer out of turn");
    assert_eq!(
        why(pass.on_event(&source, RefreshEvent::Fetched(KERNEL.to_vec()))),
        "an answer out of turn"
    );
    let (mut pass, _) = Refresh::new(None);
    assert_eq!(why(pass.on_event(&source, RefreshEvent::Failed("GET".into()))), "GET");
}
