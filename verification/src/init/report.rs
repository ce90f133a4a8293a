//! Progress reporting from inside the initramfs.
//!
//! Deliberately the crudest HTTP client that can work: a hand-written POST, no TLS,
//! no dependency that has to be in the initramfs. Reporting is best-effort by design:
//! a boot must never fail because the thing watching it was unreachable.

use crate::http1;
use crate::http1::{Outgoing, OutgoingView};
use crate::strings;
use crate::text;
use vstd::prelude::*;
use vstd::string::StringExecFns;

verus! {

// ---------------------------------------------------------------------------
// The body

/// How a character stands in the body. The control characters that JSON has no
/// short form for are not worth carrying and become spaces.
pub open spec fn escaped(c: char) -> Seq<char> {
    if c == '"' {
        seq!['\\', '"']
    } else if c == '\\' {
        seq!['\\', '\\']
    } else if c == '\n' {
        seq!['\\', 'n']
    } else if c == '\r' {
        seq!['\\', 'r']
    } else if c == '\t' {
        seq!['\\', 't']
    } else if (c as u32) < 0x20 {
        seq![' ']
    } else {
        seq![c]
    }
}

pub open spec fn escaped_all(s: Seq<char>) -> Seq<char>
    decreases s.len(),
{
    if s.len() == 0 {
        Seq::empty()
    } else {
        escaped(s[0]) + escaped_all(s.skip(1))
    }
}

/// The body of a report.
pub open spec fn body(mac: Seq<char>, phase: Seq<char>, detail: Option<Seq<char>>) -> Seq<char> {
    "{\"mac\":\""@ + escaped_all(mac) + "\",\"phase\":\""@ + escaped_all(phase) + "\""@
        + match detail {
        Some(d) => ",\"detail\":\""@ + escaped_all(d) + "\""@,
        None => Seq::empty(),
    } + "}"@
}

pub fn escape(s: &str) -> (r: String)
    ensures
        r@ == escaped_all(s@),
{
    let chars = strings::chars_of(s);
    let mut out = String::new();
    let mut i: usize = 0;
    assert(chars@.skip(0) == chars@);
    assert(out@ + escaped_all(chars@) == escaped_all(chars@));
    while i < chars.len()
        invariant
            i <= chars@.len(),
            out@ + escaped_all(chars@.skip(i as int)) == escaped_all(chars@),
        decreases chars@.len() - i,
    {
        let c = chars[i];
        let ghost was = out@;
        let ghost rest = escaped_all(chars@.skip(i + 1));
        assert(chars@.skip(i as int).skip(1) == chars@.skip(i + 1));
        if c == '"' || c == '\\' {
            out.push('\\');
            out.push(c);
        } else if c == '\n' {
            out.push('\\');
            out.push('n');
        } else if c == '\r' {
            out.push('\\');
            out.push('r');
        } else if c == '\t' {
            out.push('\\');
            out.push('t');
        } else if (c as u32) < 0x20 {
            out.push(' ');
        } else {
            out.push(c);
        }
        assert(out@ == was + escaped(c));
        assert(was + escaped(c) + rest == was + (escaped(c) + rest));
        i = i + 1;
    }
    assert(out@ + Seq::<char>::empty() == out@);
    out
}

/// Minimal JSON, escaped by hand.
pub fn build_body(mac: &str, phase: &str, detail: Option<&str>) -> (r: String)
    ensures
        r@ == body(mac@, phase@, text::opt_str(detail)),
{
    let mut out = strings::concat("{\"mac\":\"", escape(mac).as_str());
    out.append("\",\"phase\":\"");
    out.append(escape(phase).as_str());
    out.append("\"");
    match detail {
        Some(d) => {
            let mut more = strings::concat(",\"detail\":\"", escape(d).as_str());
            more.append("\"");
            out.append(more.as_str());
        },
        None => {
            assert(out@ + Seq::<char>::empty() == out@);
        },
    }
    out.append("}");
    out
}

// ---------------------------------------------------------------------------
// Where it goes

/// Why a URL cannot be reported to.
pub open spec fn bad_url(url: Seq<char>) -> Option<Seq<char>> {
    match text::strip_prefix(url, "http://"@) {
        None => Some("only http:// is supported here: "@ + url),
        Some(rest) => if http1::authority(rest).len() == 0 {
            Some("no host in "@ + url)
        } else {
            None
        },
    }
}

/// The host that a URL names.
pub open spec fn host_in(url: Seq<char>) -> Seq<char> {
    http1::authority(text::strip_prefix(url, "http://"@)->0)
}

/// Splits `http://host:port/...` into where to connect to and the Host header.
pub fn split_url(url: &str) -> (r: Result<(String, String), String>)
    ensures
        match r {
            Ok((connect, host)) => bad_url(url@) is None && host@ == host_in(url@) && connect@
                == http1::dialled(host_in(url@)),
            Err(said) => bad_url(url@) == Some(said@),
        },
{
    let Some(rest) = strings::strip_prefix(url, "http://") else {
        return Err(strings::concat("only http:// is supported here: ", url));
    };
    let (host, _) = http1::split(rest.as_str());
    if strings::is_empty(host.as_str()) {
        return Err(strings::concat("no host in ", url));
    }
    Ok((http1::dial(host.as_str()), host))
}

// ---------------------------------------------------------------------------
// Reporting

/// What comes of a report.
#[derive(Debug, PartialEq, Eq)]
pub enum Posting {
    /// There is nobody to tell, or nobody to tell about.
    Silent,
    /// Something to send.
    Send(Outgoing),
    /// Something to print, never fatal.
    Complain(String),
}

#[verifier::ext_equal]
pub enum PostingView {
    Silent,
    Send(OutgoingView),
    Complain(Seq<char>),
}

impl View for Posting {
    type V = PostingView;

    open spec fn view(&self) -> PostingView {
        match *self {
            Posting::Silent => PostingView::Silent,
            Posting::Send(out) => PostingView::Send(out@),
            Posting::Complain(said) => PostingView::Complain(said@),
        }
    }
}

/// What is printed when a report fails.
pub open spec fn complaint(phase: Seq<char>, why: Seq<char>) -> Seq<char> {
    "stormnetboot-init: report "@ + phase + " failed: "@ + why
}

/// What comes of reporting a phase.
pub open spec fn posting(
    url: Option<Seq<char>>,
    mac: Option<Seq<char>>,
    phase: Seq<char>,
    detail: Option<Seq<char>>,
) -> PostingView {
    match (url, mac) {
        (Some(u), Some(m)) => match bad_url(u) {
            Some(why) => PostingView::Complain(complaint(phase, why)),
            None => PostingView::Send(
                OutgoingView {
                    connect: http1::dialled(host_in(u)),
                    text: http1::posted("/api/v1/report"@, host_in(u), body(m, phase, detail)),
                },
            ),
        },
        _ => PostingView::Silent,
    }
}

#[derive(Debug)]
pub struct Reporter {
    /// Base URL of the boot server, e.g. `http://boot.storm.lo:8080`.
    url: Option<String>,
    mac: Option<String>,
}

impl Reporter {
    pub closed spec fn url(&self) -> Option<Seq<char>> {
        text::opt_text(self.url)
    }

    pub closed spec fn mac(&self) -> Option<Seq<char>> {
        text::opt_text(self.mac)
    }

    pub fn new(url: Option<String>, mac: Option<String>) -> (r: Self)
        ensures
            r.url() == text::opt_text(url),
            r.mac() == text::opt_text(mac),
    {
        Reporter { url, mac }
    }

    /// The report of a phase, unless there is nobody to send it to.
    pub fn try_post(&self, phase: &str, detail: Option<&str>) -> (r: Result<
        Option<Outgoing>,
        String,
    >)
        ensures
            match r {
                Ok(None) => posting(self.url(), self.mac(), phase@, text::opt_str(detail))
                    is Silent,
                Ok(Some(out)) => posting(self.url(), self.mac(), phase@, text::opt_str(detail))
                    == PostingView::Send(out@),
                Err(why) => posting(self.url(), self.mac(), phase@, text::opt_str(detail))
                    == PostingView::Complain(complaint(phase@, why@)),
            },
    {
        let Some(url) = &self.url else {
            return Ok(None);
        };
        let Some(mac) = &self.mac else {
            return Ok(None);
        };
        match split_url(url.as_str()) {
            Err(why) => Err(why),
            Ok((connect, host)) => {
                let said = build_body(mac.as_str(), phase, detail);
                let text = http1::post("/api/v1/report", host.as_str(), said.as_str());
                Ok(Some(Outgoing { connect, text }))
            },
        }
    }

    /// Reports a phase.
    pub fn phase(&self, phase: &str, detail: Option<&str>) -> (r: Posting)
        ensures
            r@ == posting(self.url(), self.mac(), phase@, text::opt_str(detail)),
    {
        match self.try_post(phase, detail) {
            Ok(None) => Posting::Silent,
            Ok(Some(out)) => Posting::Send(out),
            Err(why) => Posting::Complain(self.complain(phase, why.as_str())),
        }
    }

    /// What to print when a report could not be made.
    pub fn complain(&self, phase: &str, why: &str) -> (r: String)
        ensures
            r@ == complaint(phase@, why@),
    {
        let mut said = strings::concat("stormnetboot-init: report ", phase);
        said.append(" failed: ");
        said.append(why);
        said
    }

    /// Reports that the boot failed.
    pub fn failed(&self, detail: &str) -> (r: Posting)
        ensures
            r@ == posting(self.url(), self.mac(), "failed"@, Some(detail@)),
    {
        self.phase("failed", Some(detail))
    }
}

// ---------------------------------------------------------------------------
// Laws

/// What a reader of JSON takes a string for, from behind its opening quote: the
/// string, and what stands behind its closing quote.
pub open spec fn read_string(s: Seq<char>) -> Option<(Seq<char>, Seq<char>)>
    decreases s.len(),
{
    if s.len() == 0 || (s[0] as u32) < 0x20 {
        None
    } else if s[0] == '"' {
        Some((Seq::empty(), s.skip(1)))
    } else if s[0] == '\\' {
        if s.len() < 2 {
            None
        } else {
            let c = match s[1] {
                '"' => Some('"'),
                '\\' => Some('\\'),
                'n' => Some('\n'),
                'r' => Some('\r'),
                't' => Some('\t'),
                _ => None,
            };
            match (c, read_string(s.skip(2))) {
                (Some(c), Some((rest, tail))) => Some((seq![c] + rest, tail)),
                _ => None,
            }
        }
    } else {
        match read_string(s.skip(1)) {
            Some((rest, tail)) => Some((seq![s[0]] + rest, tail)),
            None => None,
        }
    }
}

/// A text with the control characters that the body does not carry made spaces.
pub open spec fn carried(s: Seq<char>) -> Seq<char> {
    s.map_values(
        |c: char|
            if (c as u32) < 0x20 && c != '\n' && c != '\r' && c != '\t' {
                ' '
            } else {
                c
            },
    )
}

/// Whatever a text holds, it cannot break the JSON around it: a reader gets it back,
/// and goes on reading where it ends.
pub proof fn law_escaped_text_reads_back(s: Seq<char>, rest: Seq<char>)
    ensures
        read_string(escaped_all(s) + seq!['"'] + rest) == Some((carried(s), rest)),
    decreases s.len(),
{
    let t = escaped_all(s) + seq!['"'] + rest;
    if s.len() == 0 {
        assert(t[0] == '"');
        assert(t.skip(1) =~= rest);
        assert(carried(s) =~= Seq::empty());
    } else {
        let tail = escaped_all(s.skip(1)) + seq!['"'] + rest;
        law_escaped_text_reads_back(s.skip(1), rest);
        assert(t =~= escaped(s[0]) + tail);
        assert(carried(s) =~= seq![carried(s)[0]] + carried(s.skip(1)));
        if escaped(s[0]).len() == 2 {
            assert(t[0] == '\\');
            assert(t[1] == escaped(s[0])[1]);
            assert(t.skip(2) =~= tail);
        } else {
            assert(t[0] == escaped(s[0])[0]);
            assert(t.skip(1) =~= tail);
        }
    }
}

/// A report is on one line, whatever it says.
pub proof fn law_escaped_text_stays_on_one_line(s: Seq<char>)
    ensures
        forall|i: int| 0 <= i < escaped_all(s).len() ==> #[trigger] escaped_all(s)[i] as u32 >= 0x20,
    decreases s.len(),
{
    if s.len() > 0 {
        law_escaped_text_stays_on_one_line(s.skip(1));
        let head = escaped(s[0]);
        let tail = escaped_all(s.skip(1));
        assert forall|i: int| 0 <= i < escaped_all(s).len() implies #[trigger] escaped_all(
            s,
        )[i] as u32 >= 0x20 by {
            if i >= head.len() {
                assert(escaped_all(s)[i] == tail[i - head.len()]);
            } else {
                assert(escaped_all(s)[i] == head[i]);
            }
        }
    }
}

/// Without somebody to tell, or something to be told about, reporting is inert.
pub proof fn law_nobody_to_tell_is_silence(
    url: Option<Seq<char>>,
    mac: Option<Seq<char>>,
    phase: Seq<char>,
    detail: Option<Seq<char>>,
)
    ensures
        posting(url, mac, phase, detail) is Silent <==> url is None || mac is None,
{
}

/// A report goes to the host that the URL names, at its port, and says of which machine and
/// which phase it is: reading the strings of its body gives both back, and what was said
/// about it.
pub proof fn law_a_report_says_who_and_where(
    host: Seq<char>,
    tail: Seq<char>,
    mac: Seq<char>,
    phase: Seq<char>,
    detail: Option<Seq<char>>,
)
    requires
        text::free_of(host, '/'),
        host.len() > 0,
    ensures
        ({
            let sent = posting(
                Some("http://"@ + (host + seq!['/'] + tail)),
                Some(mac),
                phase,
                detail,
            );
            &&& sent is Send
            &&& sent->Send_0.connect == http1::dialled(host)
            &&& sent->Send_0.text == http1::posted(
                "/api/v1/report"@,
                host,
                body(mac, phase, detail),
            )
        }),
        exists|after_mac: Seq<char>, after_phase: Seq<char>| #[trigger]
            told(body(mac, phase, detail), carried(mac), after_mac, carried(phase), after_phase)
                && match detail {
                None => after_phase == "}"@,
                Some(d) => after_phase.len() > 11 && after_phase.take(11) == ",\"detail\":\""@
                    && read_string(after_phase.skip(11)) == Some((carried(d), "}"@)),
            },
{
    let url = "http://"@ + (host + seq!['/'] + tail);
    assert(url.take("http://"@.len() as int) =~= "http://"@);
    assert(url.skip("http://"@.len() as int) =~= host + seq!['/'] + tail);
    http1::law_a_target_splits_at_its_first_slash(host, tail);
    reveal_strlit("{\"mac\":\"");
    reveal_strlit("\",\"phase\":\"");
    reveal_strlit("\"");
    reveal_strlit("}");
    reveal_strlit(",\"detail\":\"");
    let quote = seq!['"'];
    assert("\""@ =~= quote);
    let after_phase = match detail {
        Some(d) => ",\"detail\":\""@ + escaped_all(d) + "\""@,
        None => Seq::empty(),
    } + "}"@;
    let key = ",\"phase\":\""@;
    reveal_strlit(",\"phase\":\"");
    assert("\",\"phase\":\""@ =~= quote + key);
    let after_mac = key + (escaped_all(phase) + quote + after_phase);
    let all = body(mac, phase, detail);
    assert(all =~= "{\"mac\":\""@ + (escaped_all(mac) + quote + after_mac));
    assert(all.take(8) =~= "{\"mac\":\""@);
    assert(all.skip(8) =~= escaped_all(mac) + quote + after_mac);
    law_escaped_text_reads_back(mac, after_mac);
    assert(after_mac.take(10) =~= key);
    assert(after_mac.skip(10) =~= escaped_all(phase) + quote + after_phase);
    law_escaped_text_reads_back(phase, after_phase);
    if let Some(d) = detail {
        assert(after_phase.take(11) =~= ",\"detail\":\""@);
        assert(after_phase.skip(11) =~= escaped_all(d) + quote + "}"@);
        law_escaped_text_reads_back(d, "}"@);
    } else {
        assert(after_phase =~= "}"@);
    }
    assert(told(all, carried(mac), after_mac, carried(phase), after_phase));
}

/// Whether a body opens with the strings `mac` and `phase`, and what stands behind each.
pub open spec fn told(
    body: Seq<char>,
    mac: Seq<char>,
    after_mac: Seq<char>,
    phase: Seq<char>,
    after_phase: Seq<char>,
) -> bool {
    &&& body.len() > 8 && body.take(8) == "{\"mac\":\""@
    &&& read_string(body.skip(8)) == Some((mac, after_mac))
    &&& after_mac.len() > 10 && after_mac.take(10) == ",\"phase\":\""@
    &&& read_string(after_mac.skip(10)) == Some((phase, after_phase))
}

/// Only plain HTTP with a host is spoken; anything else is complained about, naming the
/// phase and the URL, and nothing is sent.
pub proof fn law_only_plain_http_is_spoken(url: Seq<char>, mac: Seq<char>, phase: Seq<char>)
    ensures
        !"http://"@.is_prefix_of(url) ==> posting(Some(url), Some(mac), phase, None)
            == PostingView::Complain(
            "stormnetboot-init: report "@ + phase + " failed: "@ + ("only http:// is supported here: "@
                + url),
        ),
        posting(Some("http://"@), Some(mac), phase, None) is Complain,
{
    let p = "http://"@;
    if p.len() <= url.len() {
        assert(url.subrange(0, p.len() as int) =~= url.take(p.len() as int));
    }
    assert(p.take(p.len() as int) =~= p);
    assert(p.skip(p.len() as int).len() == 0);
}

} // verus!
