//! Boot-media self-refresh.
//!
//! A machine that boots from local media instead of PXE still has to be able to pick
//! up a new kernel and initramfs. This is deliberately **not** a poll-and-apply
//! updater. It runs once per boot, with the root already attached; the comparison is
//! by digest, never "is there something newer"; and the replacement is carried inside
//! the golden the machine just booted, so there is no second source of truth.
//!
//! Two ordering rules make an interrupted refresh safe. The new image is written
//! under a temporary name and renamed over the live one, so the boot path is never a
//! half-copied file. And the stamp recording what is installed is written last, so a
//! crash in between leaves a stale stamp, which simply makes the next boot try again.
//!
//! Nothing here may fail a boot: every way of not refreshing is an outcome.

use crate::init::cmdline::{BootParams, ParamsView};
use crate::init::report;
use crate::init::report::{Posting, Reporter};
use crate::strings;
use crate::text;
use vstd::prelude::*;
use vstd::string::StringExecFns;
use vstd::utf8;

verus! {

/// Where the ESP is mounted while it is being examined.
pub const ESP_MOUNT: &'static str = "/run/esp";

/// The stamp on the mounted media.
pub const ESP_CONF: &'static str = "/run/esp/stormnetboot/media.conf";

/// The image that a golden carries for the media that booted it, below its root. It
/// is finished: the initramfs copies it and builds nothing.
pub const PAYLOAD_UKI: &'static str = "usr/lib/stormcos/boot-media/boot.efi";

/// The stamp that a golden carries with it.
pub const PAYLOAD_CONF: &'static str = "usr/lib/stormcos/boot-media/media.conf";

/// What a refresh pass decided. Every variant is success to the boot.
#[derive(Debug, PartialEq, Eq)]
pub enum Outcome {
    /// No `rd.stormnetboot.media=` on the command line, so this machine did not boot
    /// from media this code owns.
    Disabled,
    /// Media already carries the digest this golden asks for.
    Current(String),
    /// ESP rewritten. The next boot runs `to`.
    Updated { from: String, to: String },
    /// Something was not in place. Never an error: the boot continues.
    Skipped(String),
}

#[verifier::ext_equal]
pub enum OutcomeView {
    Disabled,
    Current(Seq<char>),
    Updated { from: Seq<char>, to: Seq<char> },
    Skipped(Seq<char>),
}

impl View for Outcome {
    type V = OutcomeView;

    open spec fn view(&self) -> OutcomeView {
        match *self {
            Outcome::Disabled => OutcomeView::Disabled,
            Outcome::Current(digest) => OutcomeView::Current(digest@),
            Outcome::Updated { from, to } => OutcomeView::Updated { from: from@, to: to@ },
            Outcome::Skipped(why) => OutcomeView::Skipped(why@),
        }
    }
}

// ---------------------------------------------------------------------------
// Stamp files

/// The digest that a line of a stamp file names.
pub open spec fn pallet_on(line: Seq<char>) -> Option<Seq<char>> {
    let l = text::trim(line);
    if l.len() == 0 || l[0] == '#' {
        None
    } else {
        match text::split_once(l, '=') {
            Some((k, v)) if text::trim(k) == "pallet"@ && text::trim(v).len() > 0 => Some(
                text::trim(v),
            ),
            _ => None,
        }
    }
}

/// The digest that the first of `lines` to name one names.
pub open spec fn pallet_among(lines: Seq<Seq<char>>) -> Option<Seq<char>>
    decreases lines.len(),
{
    if lines.len() == 0 {
        None
    } else {
        match pallet_on(lines[0]) {
            Some(digest) => Some(digest),
            None => pallet_among(lines.skip(1)),
        }
    }
}

/// The digest that a stamp file names.
pub open spec fn pallet_in(contents: Seq<char>) -> Option<Seq<char>> {
    pallet_among(text::lines(contents))
}

/// A file that may not be there, or not be readable.
#[derive(Debug, Clone, PartialEq, Eq)]
pub enum StampFile {
    Missing,
    Unreadable,
    Text(String),
}

#[verifier::ext_equal]
pub enum StampView {
    Missing,
    Unreadable,
    Text(Seq<char>),
}

impl View for StampFile {
    type V = StampView;

    open spec fn view(&self) -> StampView {
        match *self {
            StampFile::Missing => StampView::Missing,
            StampFile::Unreadable => StampView::Unreadable,
            StampFile::Text(s) => StampView::Text(s@),
        }
    }
}

/// The digest that a stamp file names, where it can be read.
pub open spec fn stamped(file: StampView) -> Option<Seq<char>> {
    match file {
        StampView::Text(s) => pallet_in(s),
        _ => None,
    }
}

fn line_pallet(line: &str) -> (r: Option<String>)
    ensures
        text::opt_text(r) == pallet_on(line@),
{
    let trimmed = strings::trim(line);
    let chars = strings::chars_of(trimmed.as_str());
    if chars.len() == 0 || chars[0] == '#' {
        return None;
    }
    let Some((key, value)) = strings::split_once(trimmed.as_str(), '=') else {
        return None;
    };
    if !strings::eq(strings::trim(key.as_str()).as_str(), "pallet") {
        return None;
    }
    strings::nonempty(strings::trim(value.as_str()))
}

/// Pulls `pallet=` out of a `key=value` stamp file.
pub fn read_pallet(file: &StampFile) -> (r: Option<String>)
    ensures
        text::opt_text(r) == stamped(file@),
{
    let StampFile::Text(contents) = file else {
        return None;
    };
    let lines = strings::lines(contents.as_str());
    let ghost all = text::texts(lines@);
    let mut i: usize = 0;
    assert(all.skip(0) == all);
    while i < lines.len()
        invariant
            i <= lines@.len(),
            all == text::texts(lines@),
            stamped(file@) == pallet_among(all.skip(i as int)),
        decreases lines@.len() - i,
    {
        assert(all.skip(i as int).skip(1) == all.skip(i + 1));
        assert(all[i as int] == lines@[i as int]@);
        let found = line_pallet(lines[i].as_str());
        if found.is_some() {
            return found;
        }
        i = i + 1;
    }
    None
}

// ---------------------------------------------------------------------------
// The pass

/// How far a pass has got: what it needs to know or have done next.
#[derive(Debug, PartialEq, Eq)]
pub enum Stage {
    /// Look for the image and the stamp that the golden carries for its media.
    Payload { device: String },
    /// Mount the device as vfat on the mount point.
    Mount { device: String, wanted: String },
    /// Look for the stamp on the mounted media.
    Stamp { device: String, wanted: String },
    /// Install the golden's image.
    Install { device: String, from: String, to: String },
    Finished(Outcome),
}

#[verifier::ext_equal]
pub enum StageView {
    Payload { device: Seq<char> },
    Mount { device: Seq<char>, wanted: Seq<char> },
    Stamp { device: Seq<char>, wanted: Seq<char> },
    Install { device: Seq<char>, from: Seq<char>, to: Seq<char> },
    Finished(OutcomeView),
}

impl View for Stage {
    type V = StageView;

    open spec fn view(&self) -> StageView {
        match *self {
            Stage::Payload { device } => StageView::Payload { device: device@ },
            Stage::Mount { device, wanted } => StageView::Mount {
                device: device@,
                wanted: wanted@,
            },
            Stage::Stamp { device, wanted } => StageView::Stamp {
                device: device@,
                wanted: wanted@,
            },
            Stage::Install { device, from, to } => StageView::Install {
                device: device@,
                from: from@,
                to: to@,
            },
            Stage::Finished(outcome) => StageView::Finished(outcome@),
        }
    }
}

pub open spec fn skipped(why: Seq<char>) -> StageView {
    StageView::Finished(OutcomeView::Skipped(why))
}

/// Where a pass starts.
pub open spec fn first_stage(p: ParamsView) -> StageView {
    match p.media_dev {
        Some(device) => StageView::Payload { device },
        None => StageView::Finished(OutcomeView::Disabled),
    }
}

/// The golden decides. If it carries no payload for the media, there is nothing to
/// compare against and nothing to install.
pub open spec fn after_payload(device: Seq<char>, image: bool, conf: StampView) -> StageView {
    if !image || conf is Missing {
        skipped("golden carries no usr/lib/stormcos/boot-media payload"@)
    } else {
        match stamped(conf) {
            Some(wanted) => StageView::Mount { device, wanted },
            None => skipped("usr/lib/stormcos/boot-media/media.conf names no pallet digest"@),
        }
    }
}

pub open spec fn after_mount(device: Seq<char>, wanted: Seq<char>, mounted: bool) -> StageView {
    if mounted {
        StageView::Stamp { device, wanted }
    } else {
        skipped("could not mount "@ + device + " as vfat on /run/esp"@)
    }
}

/// The stamp doubles as proof of ownership: its absence means that the device is
/// somebody else's, and rewriting that would be unrecoverable and silent.
pub open spec fn after_stamp(device: Seq<char>, wanted: Seq<char>, stamp: StampView) -> StageView {
    if stamp is Missing {
        skipped(
            device
                + " carries no stormnetboot/media.conf; not stormnetboot media, refusing to write"@,
        )
    } else {
        let installed = match stamped(stamp) {
            Some(digest) => digest,
            None => "unknown"@,
        };
        if installed == wanted {
            StageView::Finished(OutcomeView::Current(wanted))
        } else {
            StageView::Install { device, from: installed, to: wanted }
        }
    }
}

pub open spec fn after_install(
    device: Seq<char>,
    from: Seq<char>,
    to: Seq<char>,
    failure: Option<Seq<char>>,
) -> StageView {
    match failure {
        Some(why) => skipped(
            "rewriting EFI/BOOT/BOOTX64.EFI on "@ + device + " failed: "@ + why,
        ),
        None => StageView::Finished(OutcomeView::Updated { from, to }),
    }
}

/// Starts a pass.
pub fn run(params: &BootParams) -> (r: Stage)
    ensures
        r@ == first_stage(params@),
{
    match &params.media_dev {
        Some(device) => Stage::Payload { device: device.clone() },
        None => Stage::Finished(Outcome::Disabled),
    }
}

/// Goes on once it is known whether the golden carries an image, and what its stamp
/// holds.
pub fn on_payload(device: String, image: bool, conf: &StampFile) -> (r: Stage)
    ensures
        r@ == after_payload(device@, image, conf@),
{
    let missing = match conf {
        StampFile::Missing => true,
        _ => false,
    };
    if !image || missing {
        return Stage::Finished(
            Outcome::Skipped(
                "golden carries no usr/lib/stormcos/boot-media payload".to_owned(),
            ),
        );
    }
    match read_pallet(conf) {
        Some(wanted) => Stage::Mount { device, wanted },
        None => Stage::Finished(
            Outcome::Skipped(
                "usr/lib/stormcos/boot-media/media.conf names no pallet digest".to_owned(),
            ),
        ),
    }
}

/// Goes on once mounting the device has been tried.
pub fn on_mount(device: String, wanted: String, mounted: bool) -> (r: Stage)
    ensures
        r@ == after_mount(device@, wanted@, mounted),
{
    if mounted {
        return Stage::Stamp { device, wanted };
    }
    let mut why = strings::concat("could not mount ", device.as_str());
    why.append(" as vfat on /run/esp");
    Stage::Finished(Outcome::Skipped(why))
}

/// Goes on once it is known what the stamp on the media holds.
pub fn on_stamp(device: String, wanted: String, stamp: &StampFile) -> (r: Stage)
    ensures
        r@ == after_stamp(device@, wanted@, stamp@),
{
    if let StampFile::Missing = stamp {
        return Stage::Finished(
            Outcome::Skipped(
                strings::concat(
                    device.as_str(),
                    " carries no stormnetboot/media.conf; not stormnetboot media, refusing to write",
                ),
            ),
        );
    }
    let installed = match read_pallet(stamp) {
        Some(digest) => digest,
        None => "unknown".to_owned(),
    };
    if strings::eq(installed.as_str(), wanted.as_str()) {
        Stage::Finished(Outcome::Current(wanted))
    } else {
        Stage::Install { device, from: installed, to: wanted }
    }
}

/// Ends a pass once installing has been tried; `failure` says what went wrong.
pub fn on_install(device: String, from: String, to: String, failure: Option<&str>) -> (r: Stage)
    ensures
        r@ == after_install(device@, from@, to@, text::opt_str(failure)),
{
    match failure {
        Some(why) => {
            let mut said = strings::concat("rewriting EFI/BOOT/BOOTX64.EFI on ", device.as_str());
            said.append(" failed: ");
            said.append(why);
            Stage::Finished(Outcome::Skipped(said))
        },
        None => Stage::Finished(Outcome::Updated { from, to }),
    }
}

// ---------------------------------------------------------------------------
// Installing

/// One operation on files.
#[derive(Debug, PartialEq, Eq)]
pub enum FileStep {
    CreateDir(String),
    Copy { from: String, to: String },
    /// Flush one file. FAT has no journal, so an explicit flush is the only thing
    /// standing between a power cut and an unbootable stick.
    Flush(String),
    Rename { from: String, to: String },
    Write { path: String, text: String },
    /// Flush the block layer too, for the metadata written alongside the files.
    FlushAll,
}

#[verifier::ext_equal]
pub enum FileStepView {
    CreateDir(Seq<char>),
    Copy { from: Seq<char>, to: Seq<char> },
    Flush(Seq<char>),
    Rename { from: Seq<char>, to: Seq<char> },
    Write { path: Seq<char>, text: Seq<char> },
    FlushAll,
}

impl View for FileStep {
    type V = FileStepView;

    open spec fn view(&self) -> FileStepView {
        match *self {
            FileStep::CreateDir(path) => FileStepView::CreateDir(path@),
            FileStep::Copy { from, to } => FileStepView::Copy { from: from@, to: to@ },
            FileStep::Flush(path) => FileStepView::Flush(path@),
            FileStep::Rename { from, to } => FileStepView::Rename { from: from@, to: to@ },
            FileStep::Write { path, text } => FileStepView::Write { path: path@, text: text@ },
            FileStep::FlushAll => FileStepView::FlushAll,
        }
    }
}

pub open spec fn file_steps(v: Seq<FileStep>) -> Seq<FileStepView> {
    v.map_values(|s: FileStep| s@)
}

/// The stamp that says `wanted` is installed.
pub open spec fn stamp_text(wanted: Seq<char>) -> Seq<char> {
    "# written by stormnetboot-init; the digest of the UKI in EFI/BOOT/BOOTX64.EFI\npallet="@
        + wanted + "\n"@
}

/// What installing takes, in order: the image is put in place first, and only then
/// the stamp is written.
pub open spec fn install_steps(image: Seq<char>, wanted: Seq<char>) -> Seq<FileStepView> {
    seq![
        FileStepView::CreateDir("/run/esp/EFI/BOOT"@),
        FileStepView::CreateDir("/run/esp/stormnetboot"@),
        FileStepView::Copy { from: image, to: "/run/esp/EFI/BOOT/BOOTX64.EFI.new"@ },
        FileStepView::Flush("/run/esp/EFI/BOOT/BOOTX64.EFI.new"@),
        FileStepView::Rename {
            from: "/run/esp/EFI/BOOT/BOOTX64.EFI.new"@,
            to: "/run/esp/EFI/BOOT/BOOTX64.EFI"@,
        },
        FileStepView::Write {
            path: "/run/esp/stormnetboot/media.conf"@,
            text: stamp_text(wanted),
        },
        FileStepView::Flush("/run/esp/stormnetboot/media.conf"@),
        FileStepView::FlushAll,
    ]
}

/// Copies the golden's image over the media's, then records what was installed.
///
/// An interruption leaves a working image with a stale stamp, and the next boot
/// repeats the copy; never a stamp that claims an image the media does not have.
pub fn install(image: &str, wanted: &str) -> (r: Vec<FileStep>)
    ensures
        file_steps(r@) == install_steps(image@, wanted@),
{
    let mut text = strings::concat(
        "# written by stormnetboot-init; the digest of the UKI in EFI/BOOT/BOOTX64.EFI\npallet=",
        wanted,
    );
    text.append("\n");
    let mut steps: Vec<FileStep> = Vec::new();
    steps.push(FileStep::CreateDir("/run/esp/EFI/BOOT".to_owned()));
    steps.push(FileStep::CreateDir("/run/esp/stormnetboot".to_owned()));
    steps.push(
        FileStep::Copy {
            from: image.to_owned(),
            to: "/run/esp/EFI/BOOT/BOOTX64.EFI.new".to_owned(),
        },
    );
    steps.push(FileStep::Flush("/run/esp/EFI/BOOT/BOOTX64.EFI.new".to_owned()));
    steps.push(
        FileStep::Rename {
            from: "/run/esp/EFI/BOOT/BOOTX64.EFI.new".to_owned(),
            to: "/run/esp/EFI/BOOT/BOOTX64.EFI".to_owned(),
        },
    );
    steps.push(
        FileStep::Write { path: "/run/esp/stormnetboot/media.conf".to_owned(), text },
    );
    steps.push(FileStep::Flush("/run/esp/stormnetboot/media.conf".to_owned()));
    steps.push(FileStep::FlushAll);
    assert(file_steps(steps@) =~= install_steps(image@, wanted@));
    steps
}

// ---------------------------------------------------------------------------
// Saying what was decided

/// A digest without the name of its hash.
pub open spec fn bare(digest: Seq<char>) -> Seq<char> {
    match text::strip_prefix(digest, "sha256:"@) {
        Some(rest) => rest,
        None => digest,
    }
}

/// Where to cut a text that is longer than `n` bytes: there, or at the last character
/// before it where one stands across.
pub open spec fn cut(bytes: Seq<u8>, n: nat) -> nat
    decreases n,
{
    if n == 0 || utf8::is_char_boundary(bytes, n as int) {
        n
    } else {
        cut(bytes, (n - 1) as nat)
    }
}

/// Digests are long and the console is narrow: enough to tell two apart.
pub open spec fn shortened(digest: Seq<char>) -> Seq<char> {
    let bytes = utf8::encode_utf8(bare(digest));
    if bytes.len() > 12 {
        utf8::decode_utf8(bytes.subrange(0, cut(bytes, 12) as int)) + "…"@
    } else {
        bare(digest)
    }
}

fn strip_hash(digest: &str) -> (r: String)
    ensures
        r@ == bare(digest@),
{
    match strings::strip_prefix(digest, "sha256:") {
        Some(rest) => rest,
        None => digest.to_owned(),
    }
}

pub fn short(digest: &str) -> (r: String)
    ensures
        r@ == shortened(digest@),
{
    let hex = strip_hash(digest);
    let s = hex.as_str();
    if s.as_bytes().len() > 12 {
        let ghost bytes = utf8::encode_utf8(s@);
        proof {
            utf8::encode_utf8_valid_utf8(s@);
        }
        let mut at: usize = 12;
        while at > 0 && !s.is_char_boundary(at)
            invariant
                bytes == utf8::encode_utf8(s@),
                utf8::valid_utf8(bytes),
                cut(bytes, 12) == cut(bytes, at as nat),
            decreases at,
        {
            at = at - 1;
        }
        let (head, _) = s.split_at(at);
        proof {
            utf8::encode_utf8_decode_utf8(head@);
        }
        strings::concat(head, "…")
    } else {
        hex
    }
}

/// What goes on the console about a pass.
pub open spec fn console_line(outcome: OutcomeView) -> Option<Seq<char>> {
    match outcome {
        OutcomeView::Disabled => None,
        OutcomeView::Current(digest) => Some(
            "boot media current ("@ + shortened(digest) + ")"@,
        ),
        OutcomeView::Updated { from, to } => Some(
            "boot media updated "@ + shortened(from) + " -> "@ + shortened(to)
                + "; next boot runs it"@,
        ),
        OutcomeView::Skipped(why) => Some("boot media not refreshed: "@ + why),
    }
}

/// What a pass leaves to be said.
#[derive(Debug, PartialEq, Eq)]
pub struct Said {
    /// A line for the console, if any.
    pub line: Option<String>,
    /// A report, silent unless the media was rewritten.
    pub report: Posting,
}

/// Says what a pass decided. Only a rewrite is worth a report.
pub fn refresh(outcome: &Outcome, reporter: &Reporter) -> (r: Said)
    ensures
        text::opt_text(r.line) == console_line(outcome@),
        r.report@ == match outcome@ {
            OutcomeView::Updated { from, to } => report::posting(
                reporter.url(),
                reporter.mac(),
                "media-updated"@,
                Some(shortened(from) + " -> "@ + shortened(to)),
            ),
            _ => report::PostingView::Silent,
        },
{
    match outcome {
        Outcome::Disabled => Said { line: None, report: Posting::Silent },
        Outcome::Current(digest) => {
            let mut line = strings::concat("boot media current (", short(digest.as_str()).as_str());
            line.append(")");
            Said { line: Some(line), report: Posting::Silent }
        },
        Outcome::Updated { from, to } => {
            let mut change = short(from.as_str());
            let after = short(to.as_str());
            let mut line = strings::concat("boot media updated ", change.as_str());
            line.append(" -> ");
            line.append(after.as_str());
            line.append("; next boot runs it");
            change.append(" -> ");
            change.append(after.as_str());
            let report = reporter.phase("media-updated", Some(change.as_str()));
            Said { line: Some(line), report }
        },
        Outcome::Skipped(why) => Said {
            line: Some(strings::concat("boot media not refreshed: ", why.as_str())),
            report: Posting::Silent,
        },
    }
}

// ---------------------------------------------------------------------------
// Laws

/// Nothing is ever installed on media without a stamp: a device named by mistake is
/// somebody else's, and is left alone.
pub proof fn law_only_stamped_media_is_rewritten(
    device: Seq<char>,
    wanted: Seq<char>,
    stamp: StampView,
)
    requires
        after_stamp(device, wanted, stamp) is Install,
    ensures
        !(stamp is Missing),
        stamped(stamp) != Some(wanted),
{
}

/// A machine that was not told of its media does not touch any.
pub proof fn law_unnamed_media_is_left_alone(p: ParamsView)
    requires
        p.media_dev is None,
    ensures
        first_stage(p) == StageView::Finished(OutcomeView::Disabled),
{
}

/// Media that carries what the golden asks for is current, and nothing is installed.
pub proof fn law_current_media_is_left_alone(
    device: Seq<char>,
    wanted: Seq<char>,
    stamp: StampView,
)
    requires
        stamped(stamp) == Some(wanted),
    ensures
        after_stamp(device, wanted, stamp) == StageView::Finished(OutcomeView::Current(wanted)),
{
}

/// How many questions a pass still asks of the machine at most.
pub open spec fn questions(stage: StageView) -> nat {
    match stage {
        StageView::Payload { .. } => 4,
        StageView::Mount { .. } => 3,
        StageView::Stamp { .. } => 2,
        StageView::Install { .. } => 1,
        StageView::Finished(_) => 0,
    }
}

/// A pass cannot hold up a boot: whatever the machine answers, each answer leads
/// nearer to the end, and a failure is one of the ends.
pub proof fn law_a_pass_always_finishes(
    p: ParamsView,
    device: Seq<char>,
    from: Seq<char>,
    wanted: Seq<char>,
    present: bool,
    file: StampView,
    failure: Option<Seq<char>>,
)
    ensures
        questions(first_stage(p)) <= 4,
        questions(after_payload(device, present, file)) <= 3,
        questions(after_mount(device, wanted, present)) <= 2,
        questions(after_stamp(device, wanted, file)) <= 1,
        questions(after_install(device, from, wanted, failure)) == 0,
        failure is Some ==> after_install(device, from, wanted, failure)->Finished_0 is Skipped,
{
}

/// The stamp is written behind the image: whichever steps of an install have been
/// done, either the image is in place or the stamp has not been touched.
pub proof fn law_the_stamp_is_written_last(image: Seq<char>, wanted: Seq<char>, done: int)
    requires
        0 <= done <= install_steps(image, wanted).len(),
    ensures
        (exists|i: int| 0 <= i < done && #[trigger] install_steps(image, wanted)[i] is Write)
            ==> (exists|i: int| 0 <= i < done && #[trigger] install_steps(image, wanted)[i] is Rename),
{
    let steps = install_steps(image, wanted);
    assert(steps[4] is Rename);
    if exists|i: int| 0 <= i < done && #[trigger] steps[i] is Write {
        let i = choose|i: int| 0 <= i < done && #[trigger] steps[i] is Write;
        assert(i == 5);
        assert(0 <= 4 < done && steps[4] is Rename);
    }
}

/// A trimmed text that is not empty starts and ends in something else than white
/// space, and holds nothing that the text does not.
proof fn lemma_trim(s: Seq<char>, c: char)
    requires
        text::trim(s).len() > 0,
    ensures
        text::is_trimmed(text::trim(s)),
        text::free_of(s, c) ==> text::free_of(text::trim(s), c),
{
    lemma_trim_start(s, c);
    lemma_trim_end(text::trim_start(s), c);
}

proof fn lemma_trim_start(s: Seq<char>, c: char)
    ensures
        text::trim_start(s).len() > 0 ==> !text::is_white(text::trim_start(s)[0]),
        text::free_of(s, c) ==> text::free_of(text::trim_start(s), c),
    decreases s.len(),
{
    if s.len() > 0 && text::is_white(s[0]) {
        lemma_trim_start(s.skip(1), c);
        if text::free_of(s, c) {
            assert forall|i: int| 0 <= i < s.skip(1).len() implies #[trigger] s.skip(1)[i]
                != c by {
                assert(s.skip(1)[i] == s[i + 1]);
            }
        }
    }
}

proof fn lemma_trim_end(s: Seq<char>, c: char)
    ensures
        text::trim_end(s).len() > 0 ==> !text::is_white(text::trim_end(s).last()) && text::trim_end(
            s,
        )[0] == s[0],
        text::free_of(s, c) ==> text::free_of(text::trim_end(s), c),
    decreases s.len(),
{
    if s.len() > 0 && text::is_white(s.last()) {
        lemma_trim_end(s.drop_last(), c);
        if text::free_of(s, c) {
            assert forall|i: int| 0 <= i < s.drop_last().len() implies #[trigger] s.drop_last()[i]
                != c by {
                assert(s.drop_last()[i] == s[i]);
            }
        }
    }
}

/// No line holds a line feed.
proof fn lemma_lines(s: Seq<char>)
    ensures
        forall|i: int| 0 <= i < text::lines(s).len() ==> text::free_of(#[trigger] text::lines(s)[i], '\n'),
    decreases s.len(),
{
    if s.len() > 0 {
        lemma_before_index(s, '\n');
        let k = text::index_of(s, '\n') as int;
        if k < s.len() {
            let rest = s.skip(k + 1);
            lemma_lines(rest);
            let first = text::strip_cr(s.take(k));
            assert(text::free_of(first, '\n'));
            assert(text::lines(s) == seq![first] + text::lines(rest));
            assert forall|i: int| 0 <= i < text::lines(s).len() implies text::free_of(
                #[trigger] text::lines(s)[i],
                '\n',
            ) by {
                if i > 0 {
                    assert(text::lines(s)[i] == text::lines(rest)[i - 1]);
                }
            }
        } else {
            assert(s.take(k) =~= s);
        }
    }
}

proof fn lemma_before_index(s: Seq<char>, c: char)
    ensures
        text::index_of(s, c) <= s.len(),
        text::free_of(s.take(text::index_of(s, c) as int), c),
    decreases s.len(),
{
    if s.len() > 0 && s[0] != c {
        lemma_before_index(s.skip(1), c);
        let k = text::index_of(s, c) as int;
        assert forall|i: int| 0 <= i < k implies #[trigger] s.take(k)[i] != c by {
            if i > 0 {
                assert(s.take(k)[i] == s.skip(1).take(k - 1)[i - 1]);
            }
        }
    }
}

proof fn lemma_pallet_among(lines: Seq<Seq<char>>)
    requires
        pallet_among(lines) is Some,
        forall|i: int| 0 <= i < lines.len() ==> text::free_of(#[trigger] lines[i], '\n'),
    ensures
        text::is_trimmed(pallet_among(lines)->0),
        text::free_of(pallet_among(lines)->0, '\n'),
    decreases lines.len(),
{
    match pallet_on(lines[0]) {
        Some(digest) => {
            let line = lines[0];
            assert(text::free_of(line, '\n'));
            lemma_trim(line, '\n');
            let l = text::trim(line);
            let k = text::index_of(l, '=') as int;
            let v = l.skip(k + 1);
            assert(text::free_of(v, '\n'));
            lemma_trim(v, '\n');
        },
        None => {
            assert forall|i: int| 0 <= i < lines.skip(1).len() implies text::free_of(
                #[trigger] lines.skip(1)[i],
                '\n',
            ) by {
                assert(lines.skip(1)[i] == lines[i + 1]);
            }
            lemma_pallet_among(lines.skip(1));
        },
    }
}

/// What an install stamps reads back: a digest that the golden asked for, once
/// installed, is what the media is found to carry. The next boot finds the media
/// current and installs nothing.
pub proof fn law_the_stamp_reads_back(asked: Seq<char>, device: Seq<char>)
    requires
        pallet_in(asked) is Some,
    ensures
        pallet_in(stamp_text(pallet_in(asked)->0)) == pallet_in(asked),
        after_stamp(
            device,
            pallet_in(asked)->0,
            StampView::Text(stamp_text(pallet_in(asked)->0)),
        ) == StageView::Finished(OutcomeView::Current(pallet_in(asked)->0)),
{
    lemma_lines(asked);
    lemma_pallet_among(text::lines(asked));
    lemma_stamp_names(pallet_in(asked)->0);
}

/// Media is current only by its digest, and any other digest on media of ours is
/// replaced: what is installed is what the golden asks for, over what the stamp named.
pub proof fn law_media_is_current_only_by_its_digest(
    device: Seq<char>,
    wanted: Seq<char>,
    stamp: StampView,
)
    ensures
        after_stamp(device, wanted, stamp) matches StageView::Finished(OutcomeView::Current(d))
            ==> d == wanted && (stamped(stamp) == Some(wanted) || stamped(stamp) is None && wanted
            == "unknown"@),
        stamped(stamp) is Some && stamped(stamp) != Some(wanted) ==> after_stamp(
            device,
            wanted,
            stamp,
        ) == (StageView::Install { device, from: stamped(stamp)->0, to: wanted }),
        !(stamp is Missing) && stamped(stamp) is None && wanted != "unknown"@ ==> after_stamp(
            device,
            wanted,
            stamp,
        ) == (StageView::Install { device, from: "unknown"@, to: wanted }),
        stamp is Missing ==> after_stamp(device, wanted, stamp)->Finished_0 is Skipped,
{
}

/// A whole pass, given what the golden's stamp file and the media's name: the media is
/// rewritten with the golden's digest exactly when it names another one.
pub proof fn law_a_pass_compares_by_digest(
    device: Seq<char>,
    golden: Seq<char>,
    media: Seq<char>,
)
    requires
        pallet_in(golden) is Some,
        pallet_in(media) is Some,
    ensures
        ({
            let wanted = pallet_in(golden)->0;
            let installed = pallet_in(media)->0;
            let looked = after_payload(device, true, StampView::Text(golden));
            let mounted = after_mount(looked->Mount_device, looked->Mount_wanted, true);
            let end = after_stamp(
                mounted->Stamp_device,
                mounted->Stamp_wanted,
                StampView::Text(media),
            );
            &&& looked is Mount
            &&& mounted is Stamp
            &&& installed == wanted ==> end == StageView::Finished(OutcomeView::Current(wanted))
            &&& installed != wanted ==> end == (StageView::Install {
                device,
                from: installed,
                to: wanted,
            }) && after_install(device, installed, wanted, None) == StageView::Finished(
                OutcomeView::Updated { from: installed, to: wanted },
            )
        }),
{
}

/// A golden without an image, without a stamp file, or whose stamp file names nothing
/// leaves the media alone; so does media that cannot be mounted.
pub proof fn law_the_golden_decides(
    device: Seq<char>,
    wanted: Seq<char>,
    image: bool,
    conf: StampView,
)
    ensures
        after_payload(device, image, conf) is Mount <==> image && stamped(conf) is Some,
        after_payload(device, image, conf) matches StageView::Mount { device: d, wanted: w } ==> d
            == device && stamped(conf) == Some(w),
        !(after_payload(device, image, conf) is Mount) ==> after_payload(
            device,
            image,
            conf,
        )->Finished_0 is Skipped,
        after_mount(device, wanted, true) == (StageView::Stamp { device, wanted }),
        after_mount(device, wanted, false)->Finished_0 is Skipped,
        stamped(StampView::Missing) is None,
        stamped(StampView::Unreadable) is None,
{
}

/// A pass examines the device that the command line names.
pub proof fn law_the_named_device_is_examined(p: ParamsView)
    ensures
        p.media_dev matches Some(named) ==> first_stage(p) == (StageView::Payload {
            device: named,
        }),
{
}

/// A comment, and a line without an equals sign, name nothing.
proof fn lemma_names_nothing(line: Seq<char>)
    requires
        line.len() == 0 || line[0] == '#' || text::free_of(line, '='),
    ensures
        pallet_on(line) is None,
{
    if line.len() > 0 {
        if line[0] == '#' {
            text::law_trim_keeps_the_first(line);
        } else {
            let l = text::trim(line);
            if l.len() > 0 {
                lemma_trim(line, '=');
                text::law_not_found(l, '=');
            }
        }
    }
}

/// The first line that names a digest counts: comments, blank lines and words in front
/// of it say nothing, and what stands behind it makes no difference.
pub proof fn law_the_first_digest_counts(
    before: Seq<Seq<char>>,
    digest: Seq<char>,
    behind: Seq<Seq<char>>,
)
    requires
        text::is_trimmed(digest),
        forall|i: int|
            0 <= i < before.len() ==> (#[trigger] before[i]).len() == 0 || before[i][0] == '#'
                || text::free_of(before[i], '='),
    ensures
        pallet_among(before + seq!["pallet="@ + digest] + behind) == Some(digest),
        pallet_among(before) is None,
    decreases before.len(),
{
    let line = "pallet="@ + digest;
    let all = before + seq![line] + behind;
    if before.len() == 0 {
        reveal_strlit("pallet=");
        reveal_strlit("pallet");
        assert(all[0] == line);
        assert(line[0] == 'p');
        assert(line.last() == digest.last());
        assert(text::is_trimmed(line));
        text::law_trimmed(line);
        assert(line =~= "pallet"@ + seq!['='] + digest);
        text::law_splits_once("pallet"@, '=', digest);
        assert(text::is_trimmed("pallet"@));
        text::law_trimmed("pallet"@);
        text::law_trimmed(digest);
        assert(pallet_on(line) == Some(digest));
    } else {
        lemma_names_nothing(before[0]);
        assert(all[0] == before[0]);
        assert(all.skip(1) =~= before.skip(1) + seq![line] + behind);
        assert forall|i: int| 0 <= i < before.skip(1).len() implies (#[trigger] before.skip(
            1,
        )[i]).len() == 0 || before.skip(1)[i][0] == '#' || text::free_of(before.skip(1)[i], '=') by {
            assert(before.skip(1)[i] == before[i + 1]);
        }
        law_the_first_digest_counts(before.skip(1), digest, behind);
    }
}

/// What an install does to the media: the golden's image is copied beside the live one
/// and flushed before it takes its place, the live one is touched by nothing else, and
/// the stamp, which is where it will be looked for, names the digest installed.
pub proof fn law_an_install_replaces_the_live_image(image: Seq<char>, wanted: Seq<char>)
    requires
        text::is_trimmed(wanted),
        text::free_of(wanted, '\n'),
    ensures
        ({
            let steps = install_steps(image, wanted);
            let live = ESP_MOUNT@ + "/EFI/BOOT/BOOTX64.EFI"@;
            exists|copy: int, flush: int, rename: int, write: int, end: int|
                {
                    &&& 0 <= copy < flush < rename < write < end < steps.len()
                    &&& (#[trigger] steps[copy] matches FileStepView::Copy { from, to } && from == image
                        && to != live && #[trigger] steps[flush] == FileStepView::Flush(to)
                        && #[trigger] steps[rename] == (FileStepView::Rename { from: to, to: live }))
                    &&& (#[trigger] steps[write] matches FileStepView::Write { path, text } && path
                        == ESP_CONF@ && pallet_in(text) == Some(wanted))
                    &&& #[trigger] steps[end] is FlushAll
                }
        }),
        forall|i: int|
            0 <= i < install_steps(image, wanted).len() ==> match #[trigger] install_steps(
                image,
                wanted,
            )[i] {
                FileStepView::Copy { from, to } => i == 2,
                FileStepView::Rename { from, to } => i == 4,
                FileStepView::Write { path, text } => i == 5,
                _ => true,
            },
{
    let steps = install_steps(image, wanted);
    reveal_strlit("/run/esp");
    reveal_strlit("/EFI/BOOT/BOOTX64.EFI");
    reveal_strlit("/run/esp/EFI/BOOT/BOOTX64.EFI");
    reveal_strlit("/run/esp/EFI/BOOT/BOOTX64.EFI.new");
    assert("/run/esp"@ + "/EFI/BOOT/BOOTX64.EFI"@ =~= "/run/esp/EFI/BOOT/BOOTX64.EFI"@);
    assert("/run/esp/EFI/BOOT/BOOTX64.EFI.new"@.len() == 33);
    assert("/run/esp/EFI/BOOT/BOOTX64.EFI"@.len() == 29);
    lemma_stamp_names(wanted);
    assert(steps[2] is Copy && steps[3] is Flush && steps[4] is Rename && steps[5] is Write
        && steps[7] is FlushAll);
}

/// A stamp names the digest it was written for.
proof fn lemma_stamp_names(wanted: Seq<char>)
    requires
        text::is_trimmed(wanted),
        text::free_of(wanted, '\n'),
    ensures
        pallet_in(stamp_text(wanted)) == Some(wanted),
{
    let comment =
        "# written by stormnetboot-init; the digest of the UKI in EFI/BOOT/BOOTX64.EFI"@;
    let head =
        "# written by stormnetboot-init; the digest of the UKI in EFI/BOOT/BOOTX64.EFI\npallet="@;
    reveal_strlit("# written by stormnetboot-init; the digest of the UKI in EFI/BOOT/BOOTX64.EFI");
    reveal_strlit(
        "# written by stormnetboot-init; the digest of the UKI in EFI/BOOT/BOOTX64.EFI\npallet=",
    );
    reveal_strlit("pallet=");
    reveal_strlit("\n");
    let line = "pallet="@ + wanted;
    assert(head =~= comment + seq!['\n'] + "pallet="@);
    let stamp = stamp_text(wanted);
    let rest = line + seq!['\n'] + Seq::<char>::empty();
    assert(stamp =~= comment + seq!['\n'] + rest);
    text::law_first_line(comment, rest);
    assert(text::free_of(line, '\n')) by {
        assert forall|i: int| 0 <= i < line.len() implies #[trigger] line[i] != '\n' by {
            if i >= 7 {
                assert(line[i] == wanted[i - 7]);
            }
        }
    }
    text::law_first_line(line, Seq::empty());
    assert(text::lines(Seq::<char>::empty()) =~= Seq::<Seq<char>>::empty());
    assert(line.last() == wanted.last());
    assert(text::strip_cr(line) == line);
    assert(text::strip_cr(comment) == comment);
    assert(text::lines(stamp) =~= seq![comment] + seq![line] + Seq::<Seq<char>>::empty());
    law_the_first_digest_counts(seq![comment], wanted, Seq::empty());
}

} // verus!
