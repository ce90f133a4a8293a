//! Claiming an image from sbregistry, keyed on the service tag.
//!
//! HTTP is spoken directly over TCP: one request is a few lines, and the NVMe path
//! needs TCP regardless.
//!
//! The response parser is deliberately not a JSON parser. The claim reply is a
//! small flat object from a service we control, and a boot-critical binary is the
//! wrong place to grow a parser for it.

use crate::firmware::ipv4;
use crate::http1;
use crate::strings;
use crate::text;
use vstd::prelude::*;
use vstd::string::StringExecFns;

verus! {

/// Everything needed to attach, as sbregistry reports it.
///
/// Taken from the response, never assumed from the request: an exporter may ignore
/// the requested protocol, and a client that assumed its own request had been
/// honoured would attach nothing and blame the network.
#[derive(Debug)]
pub struct Attach {
    pub address: [u8; 4],
    pub port: u16,
    pub nqn: String,
    pub nsid: u32,
}

#[verifier::ext_equal]
pub struct AttachView {
    pub address: Seq<u8>,
    pub port: u16,
    pub nqn: Seq<char>,
    pub nsid: u32,
}

impl View for Attach {
    type V = AttachView;

    open spec fn view(&self) -> AttachView {
        AttachView { address: self.address@, port: self.port, nqn: self.nqn@, nsid: self.nsid }
    }
}

pub fn parse_ipv4(s: &str) -> (r: Option<[u8; 4]>)
    ensures
        ipv4::opt_address(r) == ipv4::address(s@, false),
{
    ipv4::parse(s, false)
}

// ---------------------------------------------------------------------------
// Flat JSON

/// Whether a bare value ends here.
pub open spec fn ends_value(c: char) -> bool {
    c == ',' || c == '}' || c == '\n'
}

/// Where a bare value ends; the length of `s` when it does not.
pub open spec fn value_end(s: Seq<char>) -> nat
    decreases s.len(),
{
    if s.len() == 0 || ends_value(s[0]) {
        0
    } else {
        1 + value_end(s.skip(1))
    }
}

/// The value at the start of `s`: what stands in quotes, or what stands in front
/// of the next end.
pub open spec fn value_at(s: Seq<char>) -> Option<Seq<char>> {
    if s.len() > 0 && s[0] == '"' {
        match text::split_once(s.skip(1), '"') {
            Some((v, _)) => Some(v),
            None => None,
        }
    } else if value_end(s) < s.len() && text::trim(s.take(value_end(s) as int)).len() > 0 {
        Some(text::trim(s.take(value_end(s) as int)))
    } else {
        None
    }
}

/// The value of one field of a flat JSON object.
pub open spec fn json_field(body: Seq<char>, key: Seq<char>) -> Option<Seq<char>> {
    match text::after(body, "\""@ + key + "\""@) {
        None => None,
        Some(rest) => match text::strip_prefix(text::trim_start(rest), ":"@) {
            None => None,
            Some(v) => value_at(text::trim_start(v)),
        },
    }
}

fn find_end(chars: &Vec<char>) -> (k: usize)
    ensures
        k == value_end(chars@),
        k <= chars@.len(),
{
    let mut k: usize = 0;
    assert(chars@.skip(0) == chars@);
    while k < chars.len() && !(chars[k] == ',' || chars[k] == '}' || chars[k] == '\n')
        invariant
            k <= chars@.len(),
            value_end(chars@) == k + value_end(chars@.skip(k as int)),
        decreases chars@.len() - k,
    {
        assert(chars@.skip(k as int).skip(1) == chars@.skip(k + 1));
        k = k + 1;
    }
    k
}

fn read_value(s: &str) -> (r: Option<String>)
    ensures
        text::opt_text(r) == value_at(s@),
{
    let chars = strings::chars_of(s);
    if chars.len() > 0 && chars[0] == '"' {
        assert(chars@.subrange(1, chars@.len() as int) == chars@.skip(1));
        let rest = strings::range(&chars, 1, chars.len());
        match strings::split_once(rest.as_str(), '"') {
            Some((v, _)) => Some(v),
            None => None,
        }
    } else {
        let end = find_end(&chars);
        if end == chars.len() {
            return None;
        }
        assert(chars@.subrange(0, end as int) == chars@.take(end as int));
        let v = strings::trim(strings::range(&chars, 0, end).as_str());
        strings::nonempty(v)
    }
}

/// Pull one field out of a flat JSON object.
pub fn field(body: &str, key: &str) -> (r: Option<String>)
    ensures
        text::opt_text(r) == json_field(body@, key@),
{
    let mut needle = strings::concat("\"", key);
    needle.append("\"");
    match strings::after(body, needle.as_str()) {
        None => None,
        Some(rest) => match strings::strip_prefix(strings::trim_start(rest.as_str()).as_str(), ":") {
            None => None,
            Some(v) => read_value(strings::trim_start(v.as_str()).as_str()),
        },
    }
}

// ---------------------------------------------------------------------------
// HTTP

/// One HTTP request.
pub open spec fn http_request(
    host: Seq<char>,
    method: Seq<char>,
    path: Seq<char>,
    body: Option<Seq<char>>,
) -> Seq<char> {
    let head = method + " "@ + path + " HTTP/1.1\r\nHost: "@ + host
        + "\r\nUser-Agent: stormbootx\r\nAccept: application/json\r\nConnection: close\r\n"@;
    match body {
        None => head + "\r\n"@,
        Some(b) => head + "Content-Type: application/json\r\nContent-Length: "@ + text::dec(
            vstd::utf8::encode_utf8(b).len(),
        ) + "\r\n\r\n"@ + b,
    }
}

fn request(host: &str, method: &str, path: &str, body: Option<&str>) -> (r: String)
    ensures
        r@ == http_request(host@, method@, path@, text::opt_str(body)),
{
    let mut req = strings::concat(method, " ");
    req.append(path);
    req.append(" HTTP/1.1\r\nHost: ");
    req.append(host);
    req.append("\r\nUser-Agent: stormbootx\r\nAccept: application/json\r\nConnection: close\r\n");
    match body {
        None => req.append("\r\n"),
        Some(b) => {
            req.append("Content-Type: application/json\r\nContent-Length: ");
            req.append(strings::dec(b.as_bytes().len() as u64).as_str());
            req.append("\r\n\r\n");
            req.append(b);
        },
    }
    req
}

/// What stands behind the first empty line, up to the next one.
pub open spec fn body_of(response: Seq<char>) -> Seq<char> {
    match text::second_piece(response, "\r\n\r\n"@) {
        Some(b) => b,
        None => Seq::empty(),
    }
}

pub fn split_response(response: &str) -> (r: Result<(u16, String), String>)
    ensures
        match r {
            Ok((status, body)) => http1::status_of(response@) == Some(status as nat) && body@ == body_of(
                response@,
            ),
            Err(said) => http1::status_of(response@) is None && said@ == "no HTTP status line"@,
        },
{
    let status = http1::parse_status(response);
    match status {
        None => Err("no HTTP status line".to_owned()),
        Some(code) => {
            let body = match strings::second_piece(response, "\r\n\r\n") {
                Some(b) => b,
                None => String::new(),
            };
            Ok((code, body))
        },
    }
}

// ---------------------------------------------------------------------------
// Claims

pub open spec fn claim_text(host: Seq<char>, golden: Seq<char>, service_tag: Seq<char>) -> Seq<
    char,
> {
    http_request(
        host,
        "POST"@,
        "/v1/clones/claim"@,
        Some("{\"golden\":\""@ + golden + "\",\"consumer\":\""@ + service_tag + "\"}"@),
    )
}

/// The request that claims an image for this machine.
///
/// The service tag is the `consumer`, which is exactly what that field is for: a
/// warm clone can be bound to whoever turns out to need it.
pub fn claim_request(host: &str, golden: &str, service_tag: &str) -> (r: String)
    ensures
        r@ == claim_text(host@, golden@, service_tag@),
{
    let mut body = strings::concat("{\"golden\":\"", golden);
    body.append("\",\"consumer\":\"");
    body.append(service_tag);
    body.append("\"}");
    request(host, "POST", "/v1/clones/claim", Some(body.as_str()))
}

/// The request for a clone this machine already holds.
pub fn existing_request(host: &str, service_tag: &str) -> (r: String)
    ensures
        r@ == http_request(host@, "GET"@, "/v1/clones?consumer="@ + service_tag@, None),
{
    request(host, "GET", strings::concat("/v1/clones?consumer=", service_tag).as_str(), None)
}

/// What a response says to attach to.
pub open spec fn attach_of(body: Seq<char>) -> Result<AttachView, Seq<char>> {
    let address = match json_field(body, "address"@) {
        Some(a) => ipv4::address(a, false),
        None => None,
    };
    match address {
        None => Err("no usable \"address\" in the response"@),
        Some(a) => match json_field(body, "nqn"@) {
            None => Err("no \"nqn\" in the response"@),
            Some(nqn) => Ok(
                AttachView {
                    address: a,
                    port: text::number_or(json_field(body, "port"@), 65535, 4420) as u16,
                    nqn,
                    nsid: text::number_or(json_field(body, "nsid"@), 0xFFFF_FFFF, 1) as u32,
                },
            ),
        },
    }
}

pub open spec fn told(r: Result<Attach, String>) -> Result<AttachView, Seq<char>> {
    match r {
        Ok(a) => Ok(a@),
        Err(said) => Err(said@),
    }
}

fn attach_from(body: &str) -> (r: Result<Attach, String>)
    ensures
        told(r) == attach_of(body@),
{
    let address = match field(body, "address") {
        Some(a) => parse_ipv4(a.as_str()),
        None => None,
    };
    match address {
        None => Err("no usable \"address\" in the response".to_owned()),
        Some(address) => match field(body, "nqn") {
            None => Err("no \"nqn\" in the response".to_owned()),
            Some(nqn) => {
                let port: u64 = strings::number_or(&field(body, "port"), 65535, 4420);
                let nsid: u64 = strings::number_or(&field(body, "nsid"), 0xFFFF_FFFF, 1);
                Ok(Attach { address, port: port as u16, nqn, nsid: nsid as u32 })
            },
        },
    }
}

/// What the response to a claim comes to.
pub open spec fn claimed(response: Seq<char>) -> Result<AttachView, Seq<char>> {
    match http1::status_of(response) {
        None => Err("no HTTP status line"@),
        Some(status) => if 200 <= status < 300 {
            attach_of(body_of(response))
        } else {
            Err(
                "claim returned HTTP "@ + text::dec(status) + ": "@ + text::trim(body_of(response)),
            )
        },
    }
}

/// Claim an image for this machine: what the registry's response says.
pub fn claim(response: &str) -> (r: Result<Attach, String>)
    ensures
        told(r) == claimed(response@),
{
    match split_response(response) {
        Err(said) => Err(said),
        Ok((status, body)) => {
            if 200 <= status && status < 300 {
                attach_from(body.as_str())
            } else {
                let mut said = strings::concat(
                    "claim returned HTTP ",
                    strings::dec(status as u64).as_str(),
                );
                said.append(": ");
                said.append(strings::trim(body.as_str()).as_str());
                Err(said)
            }
        },
    }
}

/// What the response to a lookup comes to.
pub open spec fn held(response: Seq<char>) -> Result<Option<AttachView>, Seq<char>> {
    match http1::status_of(response) {
        None => Err("no HTTP status line"@),
        Some(status) => if !(200 <= status < 300) {
            Err("lookup returned HTTP "@ + text::dec(status))
        } else if text::trim(body_of(response)) == "[]"@ || text::trim(body_of(response)).len()
            == 0 {
            Ok(None)
        } else {
            match attach_of(body_of(response)) {
                Ok(a) => Ok(Some(a)),
                Err(said) => Err(said),
            }
        },
    }
}

/// Look for a clone this machine already holds, so a reboot reattaches the same
/// volume instead of minting another: what the registry's response says.
pub fn existing(response: &str) -> (r: Result<Option<Attach>, String>)
    ensures
        match r {
            Ok(Some(a)) => held(response@) == Ok::<Option<AttachView>, Seq<char>>(Some(a@)),
            Ok(None) => held(response@) == Ok::<Option<AttachView>, Seq<char>>(None),
            Err(said) => held(response@) == Err::<Option<AttachView>, Seq<char>>(said@),
        },
{
    match split_response(response) {
        Err(said) => Err(said),
        Ok((status, body)) => {
            if !(200 <= status && status < 300) {
                return Err(
                    strings::concat("lookup returned HTTP ", strings::dec(status as u64).as_str()),
                );
            }
            let trimmed = strings::trim(body.as_str());
            if strings::eq(trimmed.as_str(), "[]") || strings::is_empty(trimmed.as_str()) {
                return Ok(None);
            }
            match attach_from(body.as_str()) {
                Ok(a) => Ok(Some(a)),
                Err(said) => Err(said),
            }
        },
    }
}

/// Everything after the last `/`.
pub open spec fn tail_of(s: Seq<char>) -> Seq<char>
    decreases s.len(),
{
    if s.len() == 0 || s.last() == '/' {
        Seq::empty()
    } else {
        tail_of(s.drop_last()).push(s.last())
    }
}

/// Everything after the last `/`, for logging a digest without the noise.
pub fn short(s: &str) -> (r: String)
    ensures
        r@ == tail_of(s@),
{
    let chars = strings::chars_of(s);
    let n: usize = chars.len();
    let mut k: usize = n;
    assert(chars@.take(n as int) == chars@);
    assert(tail_of(chars@) == tail_of(chars@.take(k as int)) + chars@.subrange(k as int, n as int));
    while k > 0 && chars[k - 1] != '/'
        invariant
            k <= n == chars@.len(),
            tail_of(chars@) == tail_of(chars@.take(k as int)) + chars@.subrange(
                k as int,
                n as int,
            ),
        decreases k,
    {
        let ghost was = chars@.take(k as int);
        assert(was.drop_last() == chars@.take(k - 1));
        assert(was.last() == chars@[k - 1]);
        assert(tail_of(chars@.take(k - 1)).push(chars@[k - 1]) + chars@.subrange(
            k as int,
            n as int,
        ) =~= tail_of(chars@.take(k - 1)) + chars@.subrange(k - 1, n as int));
        k = k - 1;
    }
    assert(Seq::<char>::empty() + chars@.subrange(k as int, n as int) =~= chars@.subrange(
        k as int,
        n as int,
    ));
    strings::range(&chars, k, n)
}

pub fn to_vec(s: &str) -> (r: Vec<u8>)
    ensures
        r@ == vstd::utf8::encode_utf8(s@),
{
    s.as_bytes_vec()
}

// ---------------------------------------------------------------------------
// Laws

/// A lookup that finds a clone and a claim that is granted say the same of the
/// same response body.
pub proof fn law_lookup_and_claim_agree(response: Seq<char>)
    requires
        held(response) matches Ok(Some(_)),
    ensures
        claimed(response) == Ok::<AttachView, Seq<char>>((held(response)->Ok_0)->0),
{
}

/// A string value is what stands between its quotes, and any other what stands in front of
/// the next comma, brace or line end.
pub proof fn law_a_value_ends_where_it_should(v: Seq<char>, end: char, rest: Seq<char>)
    requires
        end == ',' || end == '}' || end == '\n',
    ensures
        text::free_of(v, '"') ==> value_at(seq!['"'] + (v + seq!['"'] + rest)) == Some(v),
        text::one_word(v) && v[0] != '"' && text::free_of(v, ',') && text::free_of(v, '}')
            ==> value_at(v + seq![end] + rest) == Some(v),
{
    if text::free_of(v, '"') {
        let s = seq!['"'] + (v + seq!['"'] + rest);
        assert(s.skip(1) =~= v + seq!['"'] + rest);
        text::law_splits_once(v, '"', rest);
    }
    if text::one_word(v) && v[0] != '"' && text::free_of(v, ',') && text::free_of(v, '}') {
        let s = v + seq![end] + rest;
        assert forall|i: int| 0 <= i < v.len() implies !ends_value(#[trigger] v[i]) by {
            assert(!text::is_white(v[i]));
        }
        lemma_value_end(v, end, rest);
        assert(s[0] == v[0]);
        assert(s.take(v.len() as int) =~= v);
        text::law_trimmed(v);
    }
}

proof fn lemma_value_end(v: Seq<char>, end: char, rest: Seq<char>)
    requires
        ends_value(end),
        forall|i: int| 0 <= i < v.len() ==> !ends_value(#[trigger] v[i]),
    ensures
        value_end(v + seq![end] + rest) == v.len(),
    decreases v.len(),
{
    let s = v + seq![end] + rest;
    if v.len() == 0 {
        assert(s[0] == end);
    } else {
        assert(s[0] == v[0]);
        assert(s.skip(1) =~= v.skip(1) + seq![end] + rest);
        assert forall|i: int| 0 <= i < v.skip(1).len() implies !ends_value(
            #[trigger] v.skip(1)[i],
        ) by {
            assert(v.skip(1)[i] == v[i + 1]);
        }
        lemma_value_end(v.skip(1), end, rest);
    }
}

/// What is attached is what the fields of the response say: the address octet by octet, the
/// NQN as it stands, and the port and the namespace they spell, or else the usual ones.
/// Without an address or an NQN there is nothing to attach.
pub proof fn law_an_attachment_is_what_its_fields_say(body: Seq<char>, a: Seq<u8>, port: u16, nsid: u32)
    requires
        a.len() == 4,
    ensures
        json_field(body, "address"@) == Some(ipv4::dotted(a)) && json_field(body, "nqn"@) is Some
            ==> ({
            let to = attach_of(body);
            &&& to is Ok
            &&& (to->Ok_0).address == a
            &&& (to->Ok_0).nqn == json_field(body, "nqn"@)->0
            &&& json_field(body, "port"@) == Some(text::dec(port as nat)) ==> (to->Ok_0).port
                == port
            &&& json_field(body, "port"@) is None ==> (to->Ok_0).port == 4420
            &&& json_field(body, "nsid"@) == Some(text::dec(nsid as nat)) ==> (to->Ok_0).nsid
                == nsid
            &&& json_field(body, "nsid"@) is None ==> (to->Ok_0).nsid == 1
        }),
        json_field(body, "address"@) is None ==> attach_of(body) is Err,
        json_field(body, "nqn"@) is None ==> attach_of(body) is Err,
{
    ipv4::law_dotted_reads_back(a, false);
    text::law_decimals_read_back(port as nat, 65535);
    text::law_decimals_read_back(nsid as nat, 0xFFFF_FFFF);
}

/// A claim is a request of the registry for the golden, in the name of the machine, and
/// says how many bytes of body follow.
pub proof fn law_a_claim_names_golden_and_machine(
    host: Seq<char>,
    golden: Seq<char>,
    tag: Seq<char>,
)
    ensures
        ({
            let body = "{\"golden\":\""@ + golden + "\",\"consumer\":\""@ + tag + "\"}"@;
            exists|front: Seq<char>, digits: Seq<char>| #[trigger]
                text::all_digits(digits) && text::digits_value(digits)
                    == vstd::utf8::encode_utf8(body).len() && claim_text(host, golden, tag)
                    == #[trigger] (front + host)
                    + "\r\nUser-Agent: stormbootx\r\nAccept: application/json\r\nConnection: close\r\n"@
                    + "Content-Type: application/json\r\nContent-Length: "@ + digits + "\r\n\r\n"@
                    + body && front == "POST"@ + " "@ + "/v1/clones/claim"@
                    + " HTTP/1.1\r\nHost: "@
        }),
{
    let body = "{\"golden\":\""@ + golden + "\",\"consumer\":\""@ + tag + "\"}"@;
    let n = vstd::utf8::encode_utf8(body).len();
    text::law_decimals_read_back(n, n);
    let front = "POST"@ + " "@ + "/v1/clones/claim"@ + " HTTP/1.1\r\nHost: "@;
    let digits = text::dec(n);
    assert(text::all_digits(digits));
    assert(claim_text(host, golden, tag) == (front + host)
        + "\r\nUser-Agent: stormbootx\r\nAccept: application/json\r\nConnection: close\r\n"@
        + "Content-Type: application/json\r\nContent-Length: "@ + digits + "\r\n\r\n"@ + body);
}

/// What is shown of a path is what stands behind its last slash.
pub proof fn law_a_path_is_shown_by_its_end(front: Seq<char>, end: Seq<char>)
    requires
        text::free_of(end, '/'),
    ensures
        tail_of(front + seq!['/'] + end) == end,
        tail_of(end) == end,
    decreases end.len(),
{
    let s = front + seq!['/'] + end;
    if end.len() == 0 {
        assert(s.last() == '/');
        assert(end =~= Seq::<char>::empty());
    } else {
        let less = end.drop_last();
        assert forall|i: int| 0 <= i < less.len() implies #[trigger] less[i] != '/' by {
            assert(less[i] == end[i]);
        }
        law_a_path_is_shown_by_its_end(front, less);
        assert(s.drop_last() =~= front + seq!['/'] + less);
        assert(s.last() == end[end.len() - 1]);
        assert(end.last() == end[end.len() - 1]);
        assert(less.push(end.last()) =~= end);
    }
}

} // verus!
