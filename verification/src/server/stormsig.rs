//! STORMSIG signature verification.
//!
//! Every byte this server hands a booting machine is content it will execute as
//! its kernel, so the boot pallet's signature is checked before anything is
//! served from it.
//!
//! The statement is a fixed 64-byte layout with no parser, so that a verifier
//! with no JSON is possible before a kernel exists:
//!
//! ```text
//!  0..8   "STORMSIG"        16..48  digest of what is signed
//!  8      version, 1        48..56  seconds since the epoch, little endian
//!  9      kind of subject   10..16 and 56..64 reserved
//! ```

use crate::bytes;
use crate::server::digest;
use crate::strings;
use crate::text;
use vstd::prelude::*;
use vstd::string::StringExecFns;

verus! {

/// OCI artifactType of a signature referrer.
pub const SIGNATURE_ARTIFACT_TYPE: &'static str = "application/vnd.stormblock.signature.v1+json";

/// What the signature covers.
#[derive(Debug, Clone, Copy, PartialEq, Eq, Structural)]
pub enum SubjectKind {
    Other,
    Pallet,
    Stack,
}

impl SubjectKind {
    pub open spec fn of_byte(v: u8) -> SubjectKind {
        if v == 1 {
            SubjectKind::Pallet
        } else if v == 2 {
            SubjectKind::Stack
        } else {
            SubjectKind::Other
        }
    }

    fn from_u8(v: u8) -> (r: Self)
        ensures
            r == Self::of_byte(v),
    {
        match v {
            1 => SubjectKind::Pallet,
            2 => SubjectKind::Stack,
            _ => SubjectKind::Other,
        }
    }
}

/// The signature document, stored as the config blob of the signature referrer
/// manifest, so verifying costs one fetch.
#[derive(Debug, PartialEq, Eq)]
pub struct SignatureDoc {
    /// Digest of the manifest that was signed, `sha256:` and hex.
    pub subject: String,
    pub subject_kind: String,
    /// 64 hex chars.
    pub public_key: String,
    /// First 16 hex chars of `public_key`.
    pub key_id: String,
    /// 128 hex chars: 64 raw bytes.
    pub signature: String,
    pub signed_at: u64,
    /// 128 hex chars: the 64-byte statement, verbatim as signed.
    pub statement: String,
}

impl Clone for SignatureDoc {
    fn clone(&self) -> (r: Self)
        ensures
            r == *self,
    {
        SignatureDoc {
            subject: self.subject.clone(),
            subject_kind: self.subject_kind.clone(),
            public_key: self.public_key.clone(),
            key_id: self.key_id.clone(),
            signature: self.signature.clone(),
            signed_at: self.signed_at,
            statement: self.statement.clone(),
        }
    }
}

#[derive(Debug, Clone, PartialEq, Eq)]
pub enum VerifyError {
    /// Statement was not 64 bytes.
    StatementLength(usize),
    BadMagic,
    /// A statement version this reader does not understand. Refused rather than
    /// guessed at: a newer version may mean something different.
    UnsupportedVersion(u8),
    NotHex(&'static str),
    /// Public key was not 32 bytes, or is not a valid Ed25519 point.
    BadPublicKey,
    /// Signature was not 64 bytes.
    BadSignature,
    /// The statement does not name the manifest we asked about. This is the check
    /// that stops a valid signature for something else being replayed onto this
    /// pallet.
    SubjectMismatch { signed: String, expected: String },
    /// The key is not in our trusted set.
    Untrusted { key_id: String },
    /// Ed25519 said no.
    Invalid,
}

pub enum VerifyErrorView {
    StatementLength(nat),
    BadMagic,
    UnsupportedVersion(u8),
    NotHex(Seq<char>),
    BadPublicKey,
    BadSignature,
    SubjectMismatch { signed: Seq<char>, expected: Seq<char> },
    Untrusted { key_id: Seq<char> },
    Invalid,
}

impl View for VerifyError {
    type V = VerifyErrorView;

    open spec fn view(&self) -> VerifyErrorView {
        match *self {
            VerifyError::StatementLength(n) => VerifyErrorView::StatementLength(n as nat),
            VerifyError::BadMagic => VerifyErrorView::BadMagic,
            VerifyError::UnsupportedVersion(v) => VerifyErrorView::UnsupportedVersion(v),
            VerifyError::NotHex(field) => VerifyErrorView::NotHex(field@),
            VerifyError::BadPublicKey => VerifyErrorView::BadPublicKey,
            VerifyError::BadSignature => VerifyErrorView::BadSignature,
            VerifyError::SubjectMismatch { signed, expected } => VerifyErrorView::SubjectMismatch {
                signed: signed@,
                expected: expected@,
            },
            VerifyError::Untrusted { key_id } => VerifyErrorView::Untrusted { key_id: key_id@ },
            VerifyError::Invalid => VerifyErrorView::Invalid,
        }
    }
}

/// What to tell an operator.
pub open spec fn says(e: VerifyErrorView) -> Seq<char> {
    match e {
        VerifyErrorView::StatementLength(n) => "statement is "@ + text::dec(n)
            + " bytes, expected 64"@,
        VerifyErrorView::BadMagic => "statement magic is not STORMSIG"@,
        VerifyErrorView::UnsupportedVersion(v) => "statement version "@ + text::dec(v as nat)
            + " is newer than this reader"@,
        VerifyErrorView::NotHex(field) => field + " is not valid hex"@,
        VerifyErrorView::BadPublicKey => "public key is not a valid Ed25519 key"@,
        VerifyErrorView::BadSignature => "signature is not 64 bytes"@,
        VerifyErrorView::SubjectMismatch { signed, expected } => "signature covers "@ + signed
            + " but we are verifying "@ + expected,
        VerifyErrorView::Untrusted { key_id } => "key "@ + key_id + " is not trusted"@,
        VerifyErrorView::Invalid => "signature does not verify"@,
    }
}

impl VerifyError {
    pub fn message(&self) -> (r: String)
        ensures
            r@ == says(self@),
    {
        match self {
            VerifyError::StatementLength(n) => {
                let mut out = strings::concat("statement is ", strings::dec(*n as u64).as_str());
                out.append(" bytes, expected 64");
                out
            },
            VerifyError::BadMagic => "statement magic is not STORMSIG".to_owned(),
            VerifyError::UnsupportedVersion(v) => {
                let mut out = strings::concat(
                    "statement version ",
                    strings::dec(*v as u64).as_str(),
                );
                out.append(" is newer than this reader");
                out
            },
            VerifyError::NotHex(field) => strings::concat(field, " is not valid hex"),
            VerifyError::BadPublicKey => "public key is not a valid Ed25519 key".to_owned(),
            VerifyError::BadSignature => "signature is not 64 bytes".to_owned(),
            VerifyError::SubjectMismatch { signed, expected } => {
                let mut out = strings::concat("signature covers ", signed.as_str());
                out.append(" but we are verifying ");
                out.append(expected.as_str());
                out
            },
            VerifyError::Untrusted { key_id } => {
                let mut out = strings::concat("key ", key_id.as_str());
                out.append(" is not trusted");
                out
            },
            VerifyError::Invalid => "signature does not verify".to_owned(),
        }
    }
}

/// Parsed view of a statement's fixed fields.
#[derive(Debug, Clone, PartialEq, Eq)]
pub struct Statement {
    pub subject_hex: String,
    pub subject_kind: SubjectKind,
    pub signed_at: u64,
}

#[verifier::ext_equal]
pub struct StatementView {
    pub subject_hex: Seq<char>,
    pub subject_kind: SubjectKind,
    pub signed_at: u64,
}

impl View for Statement {
    type V = StatementView;

    open spec fn view(&self) -> StatementView {
        StatementView {
            subject_hex: self.subject_hex@,
            subject_kind: self.subject_kind,
            signed_at: self.signed_at,
        }
    }
}

pub open spec fn viewed(r: Result<Statement, VerifyError>) -> Result<
    StatementView,
    VerifyErrorView,
> {
    match r {
        Ok(s) => Ok(s@),
        Err(e) => Err(e@),
    }
}

// ---------------------------------------------------------------------------
// The statement

/// `STORMSIG` in ASCII.
pub open spec fn magic() -> Seq<u8> {
    seq![0x53, 0x54, 0x4f, 0x52, 0x4d, 0x53, 0x49, 0x47]
}

/// What 64 bytes state.
pub open spec fn stated(bytes: Seq<u8>) -> Result<StatementView, VerifyErrorView> {
    if bytes.len() != 64 {
        Err(VerifyErrorView::StatementLength(bytes.len()))
    } else if bytes.take(8) != magic() {
        Err(VerifyErrorView::BadMagic)
    } else if bytes[8] != 1 {
        Err(VerifyErrorView::UnsupportedVersion(bytes[8]))
    } else {
        Ok(
            StatementView {
                subject_hex: digest::hex_text(bytes.subrange(16, 48)),
                subject_kind: SubjectKind::of_byte(bytes[9]),
                signed_at: bytes::le64_at(bytes, 48) as u64,
            },
        )
    }
}

fn has_magic(bytes: &[u8]) -> (r: bool)
    requires
        bytes@.len() >= 8,
    ensures
        r == (bytes@.take(8) == magic()),
{
    let r = bytes[0] == 0x53 && bytes[1] == 0x54 && bytes[2] == 0x4f && bytes[3] == 0x52 && bytes[4]
        == 0x4d && bytes[5] == 0x53 && bytes[6] == 0x49 && bytes[7] == 0x47;
    proof {
        let head = bytes@.take(8);
        if r {
            assert(head =~= magic());
        } else {
            assert(head[0] == bytes@[0] && head[1] == bytes@[1] && head[2] == bytes@[2] && head[3]
                == bytes@[3] && head[4] == bytes@[4] && head[5] == bytes@[5] && head[6] == bytes@[6]
                && head[7] == bytes@[7]);
        }
    }
    r
}

/// Parse the 64-byte statement, refusing anything it does not fully understand.
pub fn parse_statement(bytes: &[u8]) -> (r: Result<Statement, VerifyError>)
    ensures
        viewed(r) == stated(bytes@),
{
    if bytes.len() != 64 {
        return Err(VerifyError::StatementLength(bytes.len()));
    }
    if !has_magic(bytes) {
        return Err(VerifyError::BadMagic);
    }
    let version: u8 = bytes[8];
    if version != 1 {
        return Err(VerifyError::UnsupportedVersion(version));
    }
    Ok(
        Statement {
            subject_hex: digest::encode(&bytes[16..48]),
            subject_kind: SubjectKind::from_u8(bytes[9]),
            signed_at: bytes::le64(bytes, 48),
        },
    )
}

// ---------------------------------------------------------------------------
// Verification

/// A digest without its optional `sha256:`, in lowercase, so callers can pass it
/// in either of the forms the registry uses.
pub open spec fn normalised(digest: Seq<char>) -> Seq<char> {
    text::to_lower(text::trim_prefixes(text::trim(digest), "sha256:"@))
}

fn normalise_digest(digest: &str) -> (r: String)
    ensures
        r@ == normalised(digest@),
{
    let trimmed = strings::trim(digest);
    let bare = strings::trim_prefixes(trimmed.as_str(), "sha256:");
    strings::to_lower(bare.as_str())
}

/// The id of a key: its first sixteen hex digits.
pub open spec fn id_of(public_key: Seq<char>) -> Option<Seq<char>> {
    if public_key.len() >= 16 {
        Some(text::to_lower(public_key).take(16))
    } else {
        None
    }
}

/// Whether a trusted key names the document's key, in full or by its id. The id is the
/// key's own: what the document claims it to be is no evidence.
pub open spec fn names_key(trusted: Seq<char>, doc: SignatureDoc) -> bool {
    let t = text::to_lower(text::trim(trusted));
    t.len() > 0 && (t == text::to_lower(doc.public_key@) || Some(t) == id_of(doc.public_key@))
}

pub open spec fn is_trusted(doc: SignatureDoc, keys: Seq<String>) -> bool {
    exists|i: int| 0 <= i < keys.len() && names_key(#[trigger] keys[i]@, doc)
}

/// Whether these 32 bytes are an Ed25519 public key.
pub uninterp spec fn is_public_key(bytes: Seq<u8>) -> bool;

/// Whether the signature is the key's over the message, by the strict check.
pub uninterp spec fn verifies(key: Seq<u8>, message: Seq<u8>, signature: Seq<u8>) -> bool;

/// `ed25519_dalek::VerifyingKey::from_bytes` accepts the bytes that are the
/// encoding of a point. Which ones are is not stated.
#[verifier::external_body]
fn accepts_key(bytes: &[u8; 32]) -> (r: bool)
    ensures
        r == is_public_key(bytes@),
{
    ed25519_dalek::VerifyingKey::from_bytes(bytes).is_ok()
}

/// `ed25519_dalek::VerifyingKey::verify_strict` checks the signature over the
/// message with the key, and rejects small-order keys. Its answer depends on the
/// three alone; what it is on given bytes is not stated.
#[verifier::external_body]
fn verify_strict(key: &[u8; 32], message: &[u8], signature: &[u8; 64]) -> (r: bool)
    requires
        is_public_key(key@),
    ensures
        r == verifies(key@, message@, signature@),
{
    match ed25519_dalek::VerifyingKey::from_bytes(key) {
        Ok(k) => k.verify_strict(message, &ed25519_dalek::Signature::from_bytes(signature)).is_ok(),
        Err(_) => false,
    }
}

/// What a document comes to before the signature maths is consulted: its
/// statement, the statement's bytes and the key's.
pub open spec fn examined(doc: SignatureDoc, subject: Seq<char>, keys: Seq<String>) -> Result<
    (StatementView, Seq<u8>, Seq<u8>),
    VerifyErrorView,
> {
    if !is_trusted(doc, keys) {
        Err(VerifyErrorView::Untrusted { key_id: text::to_lower(doc.key_id@) })
    } else {
        match digest::hex_bytes(text::trim(doc.statement@)) {
            None => Err(VerifyErrorView::NotHex("statement"@)),
            Some(bytes) => match stated(bytes) {
                Err(e) => Err(e),
                Ok(statement) => if statement.subject_hex != normalised(subject) {
                    Err(
                        VerifyErrorView::SubjectMismatch {
                            signed: statement.subject_hex,
                            expected: normalised(subject),
                        },
                    )
                } else {
                    match digest::hex_bytes(text::to_lower(doc.public_key@)) {
                        None => Err(VerifyErrorView::NotHex("public_key"@)),
                        Some(key) => if key.len() != 32 {
                            Err(VerifyErrorView::BadPublicKey)
                        } else {
                            Ok((statement, bytes, key))
                        },
                    }
                },
            },
        }
    }
}

/// The signature's 64 bytes.
pub open spec fn signature_of(doc: SignatureDoc) -> Result<Seq<u8>, VerifyErrorView> {
    match digest::hex_bytes(text::trim(doc.signature@)) {
        None => Err(VerifyErrorView::NotHex("signature"@)),
        Some(bytes) => if bytes.len() != 64 {
            Err(VerifyErrorView::BadSignature)
        } else {
            Ok(bytes)
        },
    }
}

/// What is concluded of an examined document, given whether its key is one and
/// whether the signature verifies.
pub open spec fn concluded(
    statement: StatementView,
    signature: Result<Seq<u8>, VerifyErrorView>,
    key_ok: bool,
    signature_ok: bool,
) -> Result<StatementView, VerifyErrorView> {
    if !key_ok {
        Err(VerifyErrorView::BadPublicKey)
    } else {
        match signature {
            Err(e) => Err(e),
            Ok(_) => if signature_ok {
                Ok(statement)
            } else {
                Err(VerifyErrorView::Invalid)
            },
        }
    }
}

/// What verifying the document against the subject comes to.
pub open spec fn verdict(doc: SignatureDoc, subject: Seq<char>, keys: Seq<String>) -> Result<
    StatementView,
    VerifyErrorView,
> {
    match examined(doc, subject, keys) {
        Err(e) => Err(e),
        Ok((statement, bytes, key)) => concluded(
            statement,
            signature_of(doc),
            is_public_key(key),
            match signature_of(doc) {
                Ok(signature) => verifies(key, bytes, signature),
                Err(_) => false,
            },
        ),
    }
}

/// A document whose key is trusted and whose statement binds the subject.
pub struct Examined {
    pub statement: Statement,
    pub statement_bytes: Vec<u8>,
    pub key: [u8; 32],
}

fn key_id(public_key: &str) -> (r: Option<String>)
    ensures
        text::opt_text(r) == id_of(public_key@),
{
    let whole = strings::to_lower(public_key);
    let chars = strings::chars_of(whole.as_str());
    if chars.len() >= 16 {
        let id = strings::range(&chars, 0, 16);
        assert(id@ =~= text::to_lower(public_key@).take(16));
        Some(id)
    } else {
        None
    }
}

fn trusted(doc: &SignatureDoc, keys: &[String]) -> (r: bool)
    ensures
        r == is_trusted(*doc, keys@),
{
    let public_key = strings::to_lower(doc.public_key.as_str());
    let id = key_id(doc.public_key.as_str());
    let mut i: usize = 0;
    while i < keys.len()
        invariant
            i <= keys@.len(),
            public_key@ == text::to_lower(doc.public_key@),
            text::opt_text(id) == id_of(doc.public_key@),
            forall|j: int| 0 <= j < i ==> !names_key(#[trigger] keys@[j]@, *doc),
        decreases keys@.len() - i,
    {
        let t = strings::to_lower(strings::trim(keys[i].as_str()).as_str());
        let by_id = match &id {
            Some(k) => strings::eq(t.as_str(), k.as_str()),
            None => false,
        };
        if !strings::is_empty(t.as_str()) && (strings::eq(t.as_str(), public_key.as_str())
            || by_id) {
            assert(names_key(keys@[i as int]@, *doc));
            return true;
        }
        i = i + 1;
    }
    false
}

fn array32(v: &Vec<u8>) -> (r: [u8; 32])
    requires
        v@.len() == 32,
    ensures
        r@ == v@,
{
    let mut a = [0u8;32];
    let mut i: usize = 0;
    while i < 32
        invariant
            i <= 32,
            v@.len() == 32,
            forall|j: int| 0 <= j < i ==> #[trigger] a@[j] == v@[j],
        decreases 32 - i,
    {
        a[i] = v[i];
        i = i + 1;
    }
    assert(a@ =~= v@);
    a
}

fn array64(v: &Vec<u8>) -> (r: [u8; 64])
    requires
        v@.len() == 64,
    ensures
        r@ == v@,
{
    let mut a = [0u8;64];
    let mut i: usize = 0;
    while i < 64
        invariant
            i <= 64,
            v@.len() == 64,
            forall|j: int| 0 <= j < i ==> #[trigger] a@[j] == v@[j],
        decreases 64 - i,
    {
        a[i] = v[i];
        i = i + 1;
    }
    assert(a@ =~= v@);
    a
}

/// The checks that come before the signature maths.
///
/// The order matters and mirrors the registry's own verifier: the key must be
/// trusted and the statement must bind this subject first. A cryptographically
/// valid signature over a different pallet is exactly what this ordering refuses.
pub fn examine(doc: &SignatureDoc, subject_digest: &str, trusted_keys: &[String]) -> (r: Result<
    Examined,
    VerifyError,
>)
    ensures
        match r {
            Ok(e) => examined(*doc, subject_digest@, trusted_keys@) == Ok::<
                (StatementView, Seq<u8>, Seq<u8>),
                VerifyErrorView,
            >((e.statement@, e.statement_bytes@, e.key@)),
            Err(e) => examined(*doc, subject_digest@, trusted_keys@) == Err::<
                (StatementView, Seq<u8>, Seq<u8>),
                VerifyErrorView,
            >(e@),
        },
{
    if !trusted(doc, trusted_keys) {
        return Err(VerifyError::Untrusted { key_id: strings::to_lower(doc.key_id.as_str()) });
    }
    let statement_bytes = match digest::decode(strings::trim(doc.statement.as_str()).as_str()) {
        Some(bytes) => bytes,
        None => return Err(VerifyError::NotHex("statement")),
    };
    let statement = match parse_statement(statement_bytes.as_slice()) {
        Ok(s) => s,
        Err(e) => return Err(e),
    };
    let expected = normalise_digest(subject_digest);
    if !strings::eq(statement.subject_hex.as_str(), expected.as_str()) {
        return Err(VerifyError::SubjectMismatch { signed: statement.subject_hex, expected });
    }
    let key_bytes = match digest::decode(strings::to_lower(doc.public_key.as_str()).as_str()) {
        Some(bytes) => bytes,
        None => return Err(VerifyError::NotHex("public_key")),
    };
    if key_bytes.len() != 32 {
        return Err(VerifyError::BadPublicKey);
    }
    Ok(Examined { statement, statement_bytes, key: array32(&key_bytes) })
}

fn signature_bytes(doc: &SignatureDoc) -> (r: Result<[u8; 64], VerifyError>)
    ensures
        match r {
            Ok(bytes) => signature_of(*doc) == Ok::<Seq<u8>, VerifyErrorView>(bytes@),
            Err(e) => signature_of(*doc) == Err::<Seq<u8>, VerifyErrorView>(e@),
        },
{
    match digest::decode(strings::trim(doc.signature.as_str()).as_str()) {
        None => Err(VerifyError::NotHex("signature")),
        Some(bytes) => if bytes.len() != 64 {
            Err(VerifyError::BadSignature)
        } else {
            Ok(array64(&bytes))
        },
    }
}

/// The last steps of verification, given what Ed25519 said of the key and of the
/// signature.
pub fn conclude(
    statement: Statement,
    signature: Result<[u8; 64], VerifyError>,
    key_ok: bool,
    signature_ok: bool,
) -> (r: Result<Statement, VerifyError>)
    ensures
        viewed(r) == concluded(
            statement@,
            match signature {
                Ok(bytes) => Ok(bytes@),
                Err(e) => Err(e@),
            },
            key_ok,
            signature_ok,
        ),
{
    if !key_ok {
        return Err(VerifyError::BadPublicKey);
    }
    match signature {
        Err(e) => Err(e),
        Ok(_) => if signature_ok {
            Ok(statement)
        } else {
            Err(VerifyError::Invalid)
        },
    }
}

/// Verify a signature document against the manifest digest it should cover.
pub fn verify(doc: &SignatureDoc, subject_digest: &str, trusted_keys: &[String]) -> (r: Result<
    Statement,
    VerifyError,
>)
    ensures
        viewed(r) == verdict(*doc, subject_digest@, trusted_keys@),
{
    let found = match examine(doc, subject_digest, trusted_keys) {
        Ok(e) => e,
        Err(e) => return Err(e),
    };
    let key_ok = accepts_key(&found.key);
    if !key_ok {
        return Err(VerifyError::BadPublicKey);
    }
    let signature = signature_bytes(doc);
    // Verified over the statement bytes exactly as stored, never a rebuilt
    // statement: re-deriving them would verify our own assumptions instead of
    // what the signer actually signed.
    let signature_ok = match &signature {
        Ok(bytes) => verify_strict(&found.key, found.statement_bytes.as_slice(), bytes),
        Err(_) => false,
    };
    conclude(found.statement, signature, key_ok, signature_ok)
}

// ---------------------------------------------------------------------------
// Laws

/// A document is accepted only if its key is trusted, its statement names the
/// very subject that was asked about, and the signature over the statement
/// verifies with that key.
pub proof fn law_accepted_only_if_trusted_bound_and_signed(
    doc: SignatureDoc,
    subject: Seq<char>,
    keys: Seq<String>,
)
    requires
        verdict(doc, subject, keys) is Ok,
    ensures
        is_trusted(doc, keys),
        (verdict(doc, subject, keys)->Ok_0).subject_hex == normalised(subject),
        digest::hex_bytes(text::trim(doc.statement@)) is Some,
        digest::hex_bytes(text::to_lower(doc.public_key@)) is Some,
        digest::hex_bytes(text::trim(doc.signature@)) is Some,
        verifies(
            digest::hex_bytes(text::to_lower(doc.public_key@))->0,
            digest::hex_bytes(text::trim(doc.statement@))->0,
            digest::hex_bytes(text::trim(doc.signature@))->0,
        ),
{
}

/// The key whose signature verified is itself in the trusted set, in full or by its
/// first sixteen digits, whatever id the document claims for it.
pub proof fn law_the_key_that_signed_is_trusted(
    doc: SignatureDoc,
    subject: Seq<char>,
    keys: Seq<String>,
)
    requires
        verdict(doc, subject, keys) is Ok,
    ensures
        ({
            let key = text::to_lower(doc.public_key@);
            &&& digest::hex_bytes(key) is Some
            &&& verifies(
                digest::hex_bytes(key)->0,
                digest::hex_bytes(text::trim(doc.statement@))->0,
                digest::hex_bytes(text::trim(doc.signature@))->0,
            )
            &&& exists|i: int|
                0 <= i < keys.len() && {
                    let t = text::to_lower(text::trim(#[trigger] keys[i]@));
                    t == key || t == key.take(16)
                }
        }),
{
    let i = choose|i: int| 0 <= i < keys.len() && names_key(#[trigger] keys[i]@, doc);
    let t = text::to_lower(text::trim(keys[i]@));
    assert(t == text::to_lower(doc.public_key@) || t == text::to_lower(doc.public_key@).take(16));
}

/// What a document claims its key's id to be decides nothing but how a refusal names
/// it.
pub proof fn law_a_claimed_id_is_no_evidence(
    doc: SignatureDoc,
    other: SignatureDoc,
    subject: Seq<char>,
    keys: Seq<String>,
)
    requires
        other == (SignatureDoc { key_id: other.key_id, ..doc }),
    ensures
        is_trusted(other, keys) == is_trusted(doc, keys),
        verdict(doc, subject, keys) is Ok <==> verdict(other, subject, keys) is Ok,
{
    assert forall|i: int| 0 <= i < keys.len() implies names_key(#[trigger] keys[i]@, other)
        == names_key(keys[i]@, doc) by {}
}

/// One document is never accepted for two different pallets.
pub proof fn law_no_replay_onto_another_pallet(
    doc: SignatureDoc,
    first: Seq<char>,
    second: Seq<char>,
    keys: Seq<String>,
)
    requires
        verdict(doc, first, keys) is Ok,
        normalised(first) != normalised(second),
    ensures
        verdict(doc, second, keys) == Err::<StatementView, VerifyErrorView>(
            VerifyErrorView::SubjectMismatch {
                signed: normalised(first),
                expected: normalised(second),
            },
        ),
{
}

/// A key that is not trusted is refused before anything else is looked at.
pub proof fn law_untrusted_before_anything_else(
    doc: SignatureDoc,
    subject: Seq<char>,
    keys: Seq<String>,
)
    requires
        !is_trusted(doc, keys),
    ensures
        verdict(doc, subject, keys) == Err::<StatementView, VerifyErrorView>(
            VerifyErrorView::Untrusted { key_id: text::to_lower(doc.key_id@) },
        ),
{
}

/// Whether a configured key, as it was typed, is the document's key in full or its
/// first sixteen digits.
pub open spec fn is_the_key(typed: Seq<char>, public_key: Seq<char>) -> bool {
    let t = text::to_lower(text::trim(typed));
    let key = text::to_lower(public_key);
    t.len() > 0 && (t == key || key.len() >= 16 && t == key.subrange(0, 16))
}

/// Any of the configured keys will do: a document is accepted, with what it states, if
/// its key is one of them, wherever it stands among them, its statement names the
/// subject, and the signature verifies over the statement with that key.
pub proof fn law_a_document_of_any_trusted_key_is_accepted(
    doc: SignatureDoc,
    subject: Seq<char>,
    keys: Seq<String>,
    i: int,
    statement: Seq<u8>,
    key: Seq<u8>,
    signature: Seq<u8>,
)
    requires
        0 <= i < keys.len(),
        is_the_key(keys[i]@, doc.public_key@),
        digest::hex_bytes(text::trim(doc.statement@)) == Some(statement),
        stated(statement) is Ok,
        (stated(statement)->Ok_0).subject_hex == normalised(subject),
        digest::hex_bytes(text::to_lower(doc.public_key@)) == Some(key),
        key.len() == 32,
        is_public_key(key),
        digest::hex_bytes(text::trim(doc.signature@)) == Some(signature),
        signature.len() == 64,
        verifies(key, statement, signature),
    ensures
        verdict(doc, subject, keys) == Ok::<StatementView, VerifyErrorView>(stated(statement)->Ok_0),
{
    let lowered = text::to_lower(doc.public_key@);
    assert(lowered.len() == doc.public_key@.len());
    if lowered.len() >= 16 {
        assert(lowered.subrange(0, 16) =~= lowered.take(16));
    }
    assert(names_key(keys[i]@, doc));
}

/// Trust is in the keys, not in their order: a key that is among the others is
/// trusted with them however they are listed, and trusting more keys never loses one.
pub proof fn law_trust_is_by_membership(doc: SignatureDoc, keys: Seq<String>, more: Seq<String>)
    requires
        forall|i: int|
            0 <= i < keys.len() ==> exists|j: int|
                0 <= j < more.len() && (#[trigger] more[j])@ == (#[trigger] keys[i])@,
    ensures
        is_trusted(doc, keys) ==> is_trusted(doc, more),
{
    if is_trusted(doc, keys) {
        let i = choose|i: int| 0 <= i < keys.len() && names_key(#[trigger] keys[i]@, doc);
        let j = choose|j: int| 0 <= j < more.len() && (#[trigger] more[j])@ == keys[i]@;
        assert(names_key(more[j]@, doc));
    }
}

/// One key is enough, and none is not: of a list the one key that is the document's
/// decides, and where no key is, the document is not trusted.
pub proof fn law_trust_needs_the_key(doc: SignatureDoc, keys: Seq<String>)
    ensures
        is_trusted(doc, keys) <==> exists|i: int|
            0 <= i < keys.len() && is_the_key((#[trigger] keys[i])@, doc.public_key@),
{
    let lowered = text::to_lower(doc.public_key@);
    if lowered.len() >= 16 {
        assert(lowered.subrange(0, 16) =~= lowered.take(16));
    }
    assert forall|i: int| 0 <= i < keys.len() implies names_key((#[trigger] keys[i])@, doc)
        == is_the_key(keys[i]@, doc.public_key@) by {}
    if is_trusted(doc, keys) {
        let i = choose|i: int| 0 <= i < keys.len() && names_key(#[trigger] keys[i]@, doc);
        assert(is_the_key(keys[i]@, doc.public_key@));
    }
    if exists|i: int| 0 <= i < keys.len() && is_the_key((#[trigger] keys[i])@, doc.public_key@) {
        let i = choose|i: int|
            0 <= i < keys.len() && is_the_key((#[trigger] keys[i])@, doc.public_key@);
        assert(names_key(keys[i]@, doc));
    }
}

/// A statement as it is laid out: the magic, the version, the kind, six bytes, the
/// digest, the time and eight bytes.
pub open spec fn laid_out(
    kind: u8,
    reserved: Seq<u8>,
    digest: Seq<u8>,
    signed_at: u64,
    tail: Seq<u8>,
) -> Seq<u8> {
    seq![0x53u8, 0x54, 0x4f, 0x52, 0x4d, 0x53, 0x49, 0x47, 1, kind] + reserved + digest
        + bytes::le64_bytes(signed_at) + tail
}

/// What was signed is what is read: the digest, the kind and the time of a statement
/// come back as they were put in, whatever its reserved bytes hold.
pub proof fn law_a_statement_reads_back(
    kind: u8,
    reserved: Seq<u8>,
    digest: Seq<u8>,
    signed_at: u64,
    tail: Seq<u8>,
)
    requires
        reserved.len() == 6,
        digest.len() == 32,
        tail.len() == 8,
    ensures
        ({
            let s = stated(laid_out(kind, reserved, digest, signed_at, tail));
            &&& s is Ok
            &&& digest::hex_bytes((s->Ok_0).subject_hex) == Some(digest)
            &&& (s->Ok_0).signed_at == signed_at
            &&& (s->Ok_0).subject_kind == match kind {
                1 => SubjectKind::Pallet,
                2 => SubjectKind::Stack,
                _ => SubjectKind::Other,
            }
        }),
{
    let b = laid_out(kind, reserved, digest, signed_at, tail);
    assert(b.take(8) =~= magic());
    assert(b.subrange(16, 48) =~= digest);
    digest::law_hex_reads_back(digest);
    bytes::law_numbers_read_back(0, 0, signed_at);
    let t = bytes::le64_bytes(signed_at);
    assert(b[48] == t[0] && b[49] == t[1] && b[50] == t[2] && b[51] == t[3] && b[52] == t[4] && b[53]
        == t[5] && b[54] == t[6] && b[55] == t[7]);
}

/// Anything but the layout is refused: another length, another magic, another version.
pub proof fn law_only_the_layout_is_read(bytes: Seq<u8>)
    ensures
        stated(bytes) is Ok <==> bytes.len() == 64 && bytes.subrange(0, 8) == seq![
            0x53u8,
            0x54,
            0x4f,
            0x52,
            0x4d,
            0x53,
            0x49,
            0x47,
        ] && bytes[8] == 1,
{
    if bytes.len() == 64 {
        assert(bytes.subrange(0, 8) =~= bytes.take(8));
    }
}

/// A digest is the same with its hash's name in front and without, in capitals and in
/// small letters.
pub proof fn law_a_digest_is_the_same_in_every_form(hex: Seq<char>)
    requires
        text::is_trimmed(hex),
        !text::starts_with(text::to_lower(hex), "sha256:"@),
    ensures
        normalised("sha256:"@ + hex) == normalised(hex),
        normalised(text::to_lower(hex)) == normalised(hex),
        normalised(hex) == text::to_lower(hex),
{
    reveal_strlit("sha256:");
    let long = "sha256:"@ + hex;
    assert(long[0] == 's' && long.last() == hex.last());
    assert(text::is_trimmed(long));
    text::law_trimmed(long);
    text::law_trimmed(hex);
    assert(long.take(7) =~= "sha256:"@);
    assert(long.skip(7) =~= hex);
    assert(text::starts_with(long, "sha256:"@));
    assert(text::trim_prefixes(long, "sha256:"@) == text::trim_prefixes(hex, "sha256:"@));
    let small = text::to_lower(hex);
    if text::starts_with(hex, "sha256:"@) {
        assert forall|i: int| 0 <= i < 7 implies small.take(7)[i] == "sha256:"@[i] by {
            assert(hex.take(7)[i] == hex[i]);
        }
        assert(small.take(7) =~= "sha256:"@);
    }
    assert forall|i: int| 0 <= i < hex.len() implies text::is_white(#[trigger] small[i])
        == text::is_white(hex[i]) by {}
    assert(small.last() == text::lower(hex.last()));
    assert(text::is_trimmed(small));
    text::law_trimmed(small);
    assert(text::to_lower(small) =~= small) by {
        assert forall|i: int| 0 <= i < small.len() implies text::lower(#[trigger] small[i])
            == small[i] by {}
    }
}

} // verus!
