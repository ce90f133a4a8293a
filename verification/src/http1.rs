//! HTTP/1.1 as the programs on the machine itself speak it: one request over one
//! connection, no TLS, no client library to carry along.

use crate::strings;
use crate::text;
use vstd::prelude::*;
use vstd::string::StringExecFns;

verus! {

/// The part of a URL, without its scheme, that names the host.
pub open spec fn authority(rest: Seq<char>) -> Seq<char> {
    rest.take(text::index_of(rest, '/') as int)
}

/// The part of a URL, without its scheme, that names what is asked for.
pub open spec fn path(rest: Seq<char>) -> Seq<char> {
    if text::index_of(rest, '/') < rest.len() {
        rest.skip(text::index_of(rest, '/') as int)
    } else {
        "/"@
    }
}

/// Where to connect to: the port is 80 unless the host names one.
pub open spec fn dialled(authority: Seq<char>) -> Seq<char> {
    if text::find(authority, ":"@) is Some {
        authority
    } else {
        authority + ":80"@
    }
}

/// A POST of a JSON body.
pub open spec fn posted(path: Seq<char>, host: Seq<char>, body: Seq<char>) -> Seq<char> {
    "POST "@ + path + " HTTP/1.1\r\nHost: "@ + host
        + "\r\nContent-Type: application/json\r\nContent-Length: "@ + text::dec(
        vstd::utf8::encode_utf8(body).len(),
    ) + "\r\nConnection: close\r\n\r\n"@ + body
}

/// The status code of a response: the second word of its first line.
pub open spec fn status_of(response: Seq<char>) -> Option<nat> {
    let lines = text::lines(response);
    if lines.len() > 0 && text::words(lines[0]).len() > 1 {
        text::parse_dec(text::words(lines[0])[1], 65535)
    } else {
        None
    }
}

/// A request to send, and where to.
#[derive(Debug, Clone, PartialEq, Eq)]
pub struct Outgoing {
    pub connect: String,
    pub text: String,
}

#[verifier::ext_equal]
pub struct OutgoingView {
    pub connect: Seq<char>,
    pub text: Seq<char>,
}

impl View for Outgoing {
    type V = OutgoingView;

    open spec fn view(&self) -> OutgoingView {
        OutgoingView { connect: self.connect@, text: self.text@ }
    }
}

/// Splits a URL without its scheme into the host and what is asked for.
pub fn split(rest: &str) -> (r: (String, String))
    ensures
        r.0@ == authority(rest@),
        r.1@ == path(rest@),
{
    match strings::split_once(rest, '/') {
        Some((host, tail)) => {
            let asked = strings::concat("/", tail.as_str());
            proof {
                reveal_strlit("/");
                let at = text::index_of(rest@, '/');
                lemma_stands_there(rest@, '/');
                assert(asked@ =~= rest@.skip(at as int));
            }
            (host, asked)
        },
        None => {
            proof {
                lemma_stands_there(rest@, '/');
                assert(rest@.take(rest@.len() as int) == rest@);
            }
            (rest.to_owned(), "/".to_owned())
        },
    }
}

/// A position found is within the text, and the character stands there.
proof fn lemma_stands_there(s: Seq<char>, c: char)
    ensures
        text::index_of(s, c) <= s.len(),
        text::index_of(s, c) < s.len() ==> s[text::index_of(s, c) as int] == c,
    decreases s.len(),
{
    if s.len() > 0 && s[0] != c {
        lemma_stands_there(s.skip(1), c);
    }
}

/// Where to connect to for a host.
pub fn dial(host: &str) -> (r: String)
    ensures
        r@ == dialled(host@),
{
    if strings::contains(host, ":") {
        host.to_owned()
    } else {
        strings::concat(host, ":80")
    }
}

/// The request that posts a JSON body.
pub fn post(path: &str, host: &str, body: &str) -> (r: String)
    ensures
        r@ == posted(path@, host@, body@),
{
    let mut req = strings::concat("POST ", path);
    req.append(" HTTP/1.1\r\nHost: ");
    req.append(host);
    req.append("\r\nContent-Type: application/json\r\nContent-Length: ");
    req.append(strings::dec(body.as_bytes().len() as u64).as_str());
    req.append("\r\nConnection: close\r\n\r\n");
    req.append(body);
    req
}

/// The status code of a response.
pub fn parse_status(response: &str) -> (r: Option<u16>)
    ensures
        match r {
            Some(code) => status_of(response@) == Some(code as nat),
            None => status_of(response@) is None,
        },
{
    let lines = strings::lines(response);
    if lines.len() == 0 {
        assert(text::texts(lines@).len() == 0);
        return None;
    }
    assert(text::texts(lines@)[0] == lines@[0]@);
    let words = strings::words(lines[0].as_str());
    if words.len() < 2 {
        assert(text::texts(words@).len() < 2);
        return None;
    }
    assert(text::texts(words@)[1] == words@[1]@);
    match strings::parse_dec(words[1].as_str(), 65535) {
        Some(n) => Some(n as u16),
        None => None,
    }
}

// ---------------------------------------------------------------------------
// Laws

/// What stands in front of the first slash is the host, and the slash begins the path. A
/// URL without one asks for the root.
pub proof fn law_a_target_splits_at_its_first_slash(host: Seq<char>, tail: Seq<char>)
    requires
        text::free_of(host, '/'),
    ensures
        authority(host + seq!['/'] + tail) == host,
        path(host + seq!['/'] + tail) == seq!['/'] + tail,
        authority(host) == host,
        path(host) == seq!['/'],
{
    reveal_strlit("/");
    text::law_found_behind(host, '/', tail);
    text::law_not_found(host, '/');
    let s = host + seq!['/'] + tail;
    assert(s.take(host.len() as int) =~= host);
    assert(s.skip(host.len() as int) =~= seq!['/'] + tail);
    assert(host.take(host.len() as int) =~= host);
    assert("/"@ =~= seq!['/']);
}

/// A host is dialled at the port it names, and at 80 where it names none.
pub proof fn law_a_host_is_dialled_at_its_port(host: Seq<char>, port: Seq<char>)
    requires
        text::free_of(host, ':'),
    ensures
        dialled(host) == host + ":80"@,
        dialled(host + seq![':'] + port) == host + seq![':'] + port,
{
    reveal_strlit(":");
    let full = host + seq![':'] + port;
    text::law_found_where_it_first_stands(host, ":"@);
    text::law_found_where_it_first_stands(full, ":"@);
    if let Some(i) = text::find(host, ":"@) {
        let rest = host.skip(i as int);
        assert(rest.take(1)[0] == ":"@[0]);
        assert(host[i as int] == ':');
    }
    let at = full.skip(host.len() as int);
    assert(at.take(1) =~= ":"@);
    assert(text::starts_with(at, ":"@));
}

/// A request names what it asks for and of whom, says how many bytes of body follow, and
/// ends in that body.
pub proof fn law_a_request_says_how_much_follows(
    asked: Seq<char>,
    host: Seq<char>,
    body: Seq<char>,
)
    ensures
        exists|digits: Seq<char>| #[trigger]
            text::all_digits(digits) && text::digits_value(digits) == vstd::utf8::encode_utf8(
                body,
            ).len() && posted(asked, host, body) == "POST "@ + asked + " HTTP/1.1\r\nHost: "@ + host
                + "\r\nContent-Type: application/json\r\nContent-Length: "@ + digits
                + "\r\nConnection: close\r\n\r\n"@ + body,
{
    let n = vstd::utf8::encode_utf8(body).len();
    text::law_decimals_read_back(n, n);
    assert(text::all_digits(text::dec(n)));
}

/// The status of a response is the number behind the version on its first line, whatever
/// stands behind it.
pub proof fn law_the_status_stands_on_the_first_line(
    version: Seq<char>,
    code: nat,
    reason: Seq<char>,
    rest: Seq<char>,
)
    requires
        text::one_word(version),
        code <= 65535,
        text::free_of(reason, '\n'),
    ensures
        status_of(
            version + seq![' '] + (text::dec(code) + seq![' '] + reason) + seq!['\n'] + rest,
        ) == Some(code),
        status_of(version + seq!['\n'] + rest) is None,
        status_of(Seq::empty()) is None,
{
    let digits = text::dec(code);
    text::law_decimals_read_back(code, 65535);
    text::law_digits_are_plain(digits, ' ');
    text::law_digits_are_plain(digits, '\n');
    let tail = digits + seq![' '] + reason;
    let line = version + seq![' '] + tail;
    assert forall|i: int| 0 <= i < version.len() implies #[trigger] version[i] != '\n' by {
        assert(!text::is_white(version[i]));
    }
    assert forall|i: int| 0 <= i < line.len() implies #[trigger] line[i] != '\n' by {
        if i < version.len() {
            assert(line[i] == version[i]);
        } else if i > version.len() {
            assert(line[i] == tail[i - version.len() - 1]);
        }
    }
    text::law_first_line(line, rest);
    text::law_first_line(version, rest);
    let shown = text::strip_cr(line);
    assert(text::strip_cr(version) == version) by {
        assert(!text::is_white(version.last()));
    }
    text::law_a_word_is_its_own(version);
    text::law_the_first_word_comes_first(version, ' ', tail);
    text::law_the_first_word_comes_first(digits, ' ', reason);
    if shown != line {
        assert(line.last() == '\r');
        assert(reason.len() > 0 && reason.last() == '\r');
        assert(shown =~= version + seq![' '] + (digits + seq![' '] + reason.drop_last()));
        text::law_the_first_word_comes_first(
            version,
            ' ',
            digits + seq![' '] + reason.drop_last(),
        );
        text::law_the_first_word_comes_first(digits, ' ', reason.drop_last());
    }
}

} // verus!
