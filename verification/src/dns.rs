//! The pure parts of DNS-based peer discovery.
//!
//! Building a query and reading a response are deterministic byte work
//! and live here; sending the datagram and waiting for the answer do
//! not. The wire encoding and decoding are done by the `dns_parser`
//! crate behind two trusted wrappers; everything around them — label
//! checking, response validation, record extraction, splitting
//! `host:port` text — is verified.

use vstd::prelude::*;
use vstd::string::StringSliceAdditionalSpecFns;

use crate::node::SockAddr;

verus! {

/// ASCII '+'.
pub const PLUS: u8 = 43;

/// ASCII '.'.
pub const DOT: u8 = 46;

/// ASCII '0'.
pub const DIGIT_LO: u8 = 48;

/// ASCII '9'.
pub const DIGIT_HI: u8 = 57;

/// ASCII ':'.
pub const COLON: u8 = 58;

/// The record types the discovery asks for.
#[derive(Debug, Clone, Copy, PartialEq, Eq, Structural)]
pub enum QueryKind {
    /// IPv4 host addresses.
    A,
    /// IPv6 host addresses.
    Aaaa,
    /// Free-form text records carrying peer hints.
    Txt,
}

/// The DNS record type code of each query kind.
pub open spec fn query_code(kind: QueryKind) -> int {
    match kind {
        QueryKind::A => 1,
        QueryKind::Aaaa => 28,
        QueryKind::Txt => 16,
    }
}

/// Why a query could not be built or a response not used.
#[derive(Debug, Clone, Copy, PartialEq, Eq, Structural)]
pub enum DnsError {
    /// A label of the queried name is too long for the wire format.
    NameTooLong,
    /// The response bytes do not parse as a DNS packet.
    MalformedPacket,
    /// The server answered with an error response code.
    ResponseCode,
    /// The response parsed but carried no resource records.
    NoRecords,
}

/// One resource record of a response, reduced to what the discovery
/// reads: the address octets or the text chunks.
#[derive(Debug, Clone, PartialEq)]
pub enum DnsRecordData {
    A([u8; 4]),
    Aaaa([u8; 16]),
    Txt(Vec<Vec<u8>>),
    Other,
}

/// A parsed DNS response: whether the server reported success, and
/// its answer records in order.
#[derive(Debug, Clone, PartialEq)]
pub struct DnsReply {
    pub no_error: bool,
    pub answers: Vec<DnsRecordData>,
}

/// Whether every `.`-separated label of a name, read as bytes and with
/// `run` bytes of the current label already seen, stays under the
/// 63-byte limit of the DNS wire format.
pub open spec fn runs_short(s: Seq<u8>, run: int) -> bool
    decreases s.len(),
{
    if s.len() == 0 {
        true
    } else if s[0] == DOT {
        runs_short(s.drop_first(), 0)
    } else {
        run + 1 < 63 && runs_short(s.drop_first(), run + 1)
    }
}

/// Whether every `.`-separated label of a name is short enough to be
/// encoded on the wire.
pub open spec fn labels_short(s: Seq<u8>) -> bool {
    runs_short(s, 0)
}

/// Check `labels_short` on a byte string.
pub fn check_labels(s: &[u8]) -> (r: bool)
    ensures
        r == labels_short(s@),
{
    let n = s.len();
    let mut i: usize = 0;
    let mut run: usize = 0;
    assert(s@.subrange(0, n as int) =~= s@);
    while i < n
        invariant
            n == s@.len(),
            0 <= i <= n,
            0 <= run < 63,
            labels_short(s@) == runs_short(s@.subrange(i as int, n as int), run as int),
        decreases n - i,
    {
        let ghost pre = s@.subrange(i as int, n as int);
        assert(pre.drop_first() =~= s@.subrange(i + 1, n as int));
        if s[i] == DOT {
            run = 0;
        } else {
            run = run + 1;
            if run >= 63 {
                return false;
            }
        }
        i = i + 1;
    }
    assert(s@.subrange(i as int, n as int) =~= Seq::<u8>::empty());
    true
}

/// The wire encoding of a single-question recursive query for the
/// given name and record type, as `dns_parser` produces it.
pub uninterp spec fn dns_query_encoding(domain: Seq<u8>, code: int) -> Seq<u8>;

/// Relies on `dns_parser::Builder` (`new_query`, `add_question`,
/// `build`): the bytes of a one-question query are a function of the
/// name and the record type alone. `add_question` panics on a label of
/// 63 bytes or more, which the precondition rules out.
#[verifier::external_body]
fn build_query_raw(domain: &str, kind: QueryKind) -> (r: Vec<u8>)
    requires
        labels_short(domain.spec_bytes()),
    ensures
        r@ == dns_query_encoding(domain.spec_bytes(), query_code(kind)),
{
    let mut builder = dns_parser::Builder::new_query(1, true);
    let qtype = match kind {
        QueryKind::A => dns_parser::QueryType::A,
        QueryKind::Aaaa => dns_parser::QueryType::AAAA,
        QueryKind::Txt => dns_parser::QueryType::TXT,
    };
    builder.add_question(domain, false, qtype, dns_parser::QueryClass::IN);
    match builder.build() {
        Ok(v) => v,
        Err(v) => v,
    }
}

/// Build the query datagram for a name, refusing a name the wire
/// format cannot carry.
pub fn build_dns_query(domain: &str, kind: QueryKind) -> (r: Result<Vec<u8>, DnsError>)
    ensures
        labels_short(domain.spec_bytes()) ==> (r matches Ok(v) && v@ == dns_query_encoding(
            domain.spec_bytes(),
            query_code(kind),
        )),
        !labels_short(domain.spec_bytes()) ==> r == Err::<Vec<u8>, DnsError>(
            DnsError::NameTooLong,
        ),
{
    let bytes = domain.as_bytes();
    if check_labels(bytes) {
        Ok(build_query_raw(domain, kind))
    } else {
        Err(DnsError::NameTooLong)
    }
}

/// What a response datagram parses to: `None` when the bytes are not
/// a DNS packet, otherwise the reduced reply.
pub uninterp spec fn dns_reply_parsed(data: Seq<u8>) -> Option<DnsReply>;

/// Relies on `dns_parser::Packet::parse`: the parse of a response is a
/// function of its bytes alone. The reply keeps the response code as a
/// success flag and each answer's address octets or text chunks.
#[verifier::external_body]
fn parse_reply_raw(data: &[u8]) -> (r: Option<DnsReply>)
    ensures
        r == dns_reply_parsed(data@),
{
    let packet = match dns_parser::Packet::parse(data) {
        Ok(p) => p,
        Err(_) => return None,
    };
    let no_error = matches!(packet.header.response_code, dns_parser::ResponseCode::NoError);
    let mut answers = Vec::new();
    for record in packet.answers {
        answers.push(match record.data {
            dns_parser::RData::A(a) => DnsRecordData::A(a.0.octets()),
            dns_parser::RData::AAAA(a) => DnsRecordData::Aaaa(a.0.octets()),
            dns_parser::RData::TXT(t) => DnsRecordData::Txt(t.iter().map(|c| c.to_vec()).collect()),
            _ => DnsRecordData::Other,
        });
    }
    Some(DnsReply { no_error, answers })
}

/// Parse a response datagram and validate it: a reply is returned
/// exactly when the bytes parse, the server reported no error and at
/// least one answer record is present; each failure names its reason.
pub fn parse_dns_reply(data: &[u8]) -> (r: Result<DnsReply, DnsError>)
    ensures
        ({
            let parsed = dns_reply_parsed(data@);
            match parsed {
                Option::None => r == Err::<DnsReply, DnsError>(DnsError::MalformedPacket),
                Option::Some(rep) => if !rep.no_error {
                    r == Err::<DnsReply, DnsError>(DnsError::ResponseCode)
                } else if rep.answers@.len() == 0 {
                    r == Err::<DnsReply, DnsError>(DnsError::NoRecords)
                } else {
                    r == Ok::<DnsReply, DnsError>(rep)
                },
            }
        }),
{
    match parse_reply_raw(data) {
        None => Err(DnsError::MalformedPacket),
        Some(rep) => {
            if !rep.no_error {
                Err(DnsError::ResponseCode)
            } else if rep.answers.len() == 0 {
                Err(DnsError::NoRecords)
            } else {
                Ok(rep)
            }
        },
    }
}

/// The IPv4 addresses of the A records of some answers, in order.
pub open spec fn a_records_of(s: Seq<DnsRecordData>) -> Seq<[u8; 4]>
    decreases s.len(),
{
    if s.len() == 0 {
        Seq::empty()
    } else {
        a_records_of(s.drop_last()) + (match s.last() {
            DnsRecordData::A(ip) => seq![ip],
            _ => Seq::empty(),
        })
    }
}

/// The IPv6 addresses of the AAAA records of some answers, in order.
pub open spec fn aaaa_records_of(s: Seq<DnsRecordData>) -> Seq<[u8; 16]>
    decreases s.len(),
{
    if s.len() == 0 {
        Seq::empty()
    } else {
        aaaa_records_of(s.drop_last()) + (match s.last() {
            DnsRecordData::Aaaa(ip) => seq![ip],
            _ => Seq::empty(),
        })
    }
}

/// The text chunks of the TXT records of some answers, in order.
pub open spec fn txt_records_of(s: Seq<DnsRecordData>) -> Seq<Seq<u8>>
    decreases s.len(),
{
    if s.len() == 0 {
        Seq::empty()
    } else {
        txt_records_of(s.drop_last()) + (match s.last() {
            DnsRecordData::Txt(chunks) => chunks.deep_view(),
            _ => Seq::empty(),
        })
    }
}

/// Collect the IPv4 addresses a reply carries.
pub fn a_records(reply: &DnsReply) -> (r: Vec<[u8; 4]>)
    ensures
        r@ == a_records_of(reply.answers@),
{
    let answers = &reply.answers;
    let n = answers.len();
    let mut out: Vec<[u8; 4]> = Vec::new();
    let mut i: usize = 0;
    while i < n
        invariant
            n == answers@.len(),
            0 <= i <= n,
            out@ == a_records_of(answers@.take(i as int)),
        decreases n - i,
    {
        assert(answers@.take(i + 1).drop_last() =~= answers@.take(i as int));
        assert(answers@.take(i + 1).last() == answers@[i as int]);
        match &answers[i] {
            DnsRecordData::A(ip) => {
                out.push(*ip);
            },
            _ => {},
        }
        assert(out@ =~= a_records_of(answers@.take(i + 1)));
        i = i + 1;
    }
    assert(answers@.take(n as int) =~= answers@);
    out
}

/// Collect the IPv6 addresses a reply carries.
pub fn aaaa_records(reply: &DnsReply) -> (r: Vec<[u8; 16]>)
    ensures
        r@ == aaaa_records_of(reply.answers@),
{
    let answers = &reply.answers;
    let n = answers.len();
    let mut out: Vec<[u8; 16]> = Vec::new();
    let mut i: usize = 0;
    while i < n
        invariant
            n == answers@.len(),
            0 <= i <= n,
            out@ == aaaa_records_of(answers@.take(i as int)),
        decreases n - i,
    {
        assert(answers@.take(i + 1).drop_last() =~= answers@.take(i as int));
        assert(answers@.take(i + 1).last() == answers@[i as int]);
        match &answers[i] {
            DnsRecordData::Aaaa(ip) => {
                out.push(*ip);
            },
            _ => {},
        }
        assert(out@ =~= aaaa_records_of(answers@.take(i + 1)));
        i = i + 1;
    }
    assert(answers@.take(n as int) =~= answers@);
    out
}

/// Collect the text chunks a reply carries, each as its own byte
/// string, in record order.
pub fn txt_records(reply: &DnsReply) -> (r: Vec<Vec<u8>>)
    ensures
        r.deep_view() == txt_records_of(reply.answers@),
{
    let answers = &reply.answers;
    let n = answers.len();
    let mut out: Vec<Vec<u8>> = Vec::new();
    let mut i: usize = 0;
    while i < n
        invariant
            n == answers@.len(),
            0 <= i <= n,
            out.deep_view() == txt_records_of(answers@.take(i as int)),
        decreases n - i,
    {
        assert(answers@.take(i + 1).drop_last() =~= answers@.take(i as int));
        assert(answers@.take(i + 1).last() == answers@[i as int]);
        match &answers[i] {
            DnsRecordData::Txt(chunks) => {
                let m = chunks.len();
                let mut j: usize = 0;
                while j < m
                    invariant
                        m == chunks@.len(),
                        0 <= j <= m,
                        out.deep_view() =~= txt_records_of(answers@.take(i as int))
                            + chunks.deep_view().take(j as int),
                    decreases m - j,
                {
                    let chunk = &chunks[j];
                    let mut copy: Vec<u8> = Vec::new();
                    copy.extend_from_slice(chunk.as_slice());
                    assert(copy.deep_view() =~= chunks.deep_view()[j as int]);
                    let ghost out_pre = out.deep_view();
                    let ghost copy_view = copy.deep_view();
                    out.push(copy);
                    assert(out.deep_view() =~~= out_pre.push(copy_view));
                    assert(chunks.deep_view().take(j + 1) =~~= chunks.deep_view().take(
                        j as int,
                    ).push(chunks.deep_view()[j as int]));
                    assert(out.deep_view() =~~= txt_records_of(answers@.take(i as int))
                        + chunks.deep_view().take(j + 1));
                    j = j + 1;
                }
                assert(chunks.deep_view().take(m as int) =~~= chunks.deep_view());
            },
            _ => {},
        }
        assert(out.deep_view() =~= txt_records_of(answers@.take(i + 1)));
        i = i + 1;
    }
    assert(answers@.take(n as int) =~= answers@);
    out
}

/// Whether every byte is an ASCII decimal digit.
pub open spec fn dec_digits(s: Seq<u8>) -> bool {
    forall|i: int| 0 <= i < s.len() ==> DIGIT_LO <= #[trigger] s[i] <= DIGIT_HI
}

/// The number written by a string of decimal digits.
pub open spec fn dec_value(s: Seq<u8>) -> int
    decreases s.len(),
{
    if s.len() == 0 {
        0
    } else {
        dec_value(s.drop_last()) * 10 + (s.last() - DIGIT_LO)
    }
}

/// The digits of a port string: an optional leading `+` is skipped.
pub open spec fn port_digits(s: Seq<u8>) -> Seq<u8> {
    if s.len() > 0 && s[0] == PLUS {
        s.drop_first()
    } else {
        s
    }
}

/// Whether a byte string is a port number: at least one digit after
/// an optional `+`, digits only, value at most 65535.
pub open spec fn is_port_text(s: Seq<u8>) -> bool {
    let d = port_digits(s);
    d.len() > 0 && dec_digits(d) && dec_value(d) <= 65535
}

/// The port a port string denotes.
pub open spec fn port_value(s: Seq<u8>) -> int {
    dec_value(port_digits(s))
}

/// A digit string denotes a non-negative number.
proof fn lemma_dec_value_nonneg(s: Seq<u8>)
    requires
        dec_digits(s),
    ensures
        dec_value(s) >= 0,
    decreases s.len(),
{
    if s.len() > 0 {
        assert forall|i: int| 0 <= i < s.drop_last().len() implies DIGIT_LO <= #[trigger] s.drop_last()[i]
            <= DIGIT_HI by {
            assert(s.drop_last()[i] == s[i]);
        }
        lemma_dec_value_nonneg(s.drop_last());
    }
}

/// A prefix of a digit string never denotes more than the whole.
proof fn lemma_dec_value_prefix(s: Seq<u8>, k: int)
    requires
        dec_digits(s),
        0 <= k <= s.len(),
    ensures
        dec_value(s.take(k)) <= dec_value(s),
    decreases s.len() - k,
{
    if k == s.len() {
        assert(s.take(k) =~= s);
    } else {
        lemma_dec_value_prefix(s, k + 1);
        assert(s.take(k + 1).drop_last() =~= s.take(k));
        assert forall|i: int| 0 <= i < s.take(k).len() implies DIGIT_LO <= #[trigger] s.take(k)[i]
            <= DIGIT_HI by {
            assert(s.take(k)[i] == s[i]);
        }
        lemma_dec_value_nonneg(s.take(k));
        assert(s.take(k + 1).last() == s[k]);
        assert(dec_value(s.take(k + 1)) == dec_value(s.take(k)) * 10 + (s[k] - DIGIT_LO));
    }
}

/// Read a port number, as the bootstrap address text writes it:
/// digits after an optional `+`, valued at most 65535.
pub fn parse_port(s: &[u8]) -> (r: Option<u16>)
    ensures
        is_port_text(s@) ==> (r matches Some(p) && p == port_value(s@)),
        !is_port_text(s@) ==> r is None,
{
    let n = s.len();
    let start: usize = if n > 0 && s[0] == PLUS {
        1
    } else {
        0
    };
    let ghost d = port_digits(s@);
    assert(d =~= s@.subrange(start as int, n as int));
    if start >= n {
        return None;
    }
    let mut acc: u32 = 0;
    let mut i: usize = start;
    assert(d.take(0) =~= Seq::<u8>::empty());
    while i < n
        invariant
            n == s@.len(),
            start <= i <= n,
            start < n,
            d == port_digits(s@),
            d =~= s@.subrange(start as int, n as int),
            dec_digits(d.take(i - start)),
            acc == dec_value(d.take(i - start)),
            acc <= 65535,
        decreases n - i,
    {
        let c = s[i];
        let ghost k = i - start;
        assert(d[k] == c);
        if c < DIGIT_LO || DIGIT_HI < c {
            assert(!dec_digits(d));
            return None;
        }
        assert(d.take(k + 1).drop_last() =~= d.take(k));
        assert(d.take(k + 1).last() == c);
        assert forall|j: int| 0 <= j < d.take(k + 1).len() implies DIGIT_LO <= #[trigger] d.take(
            k + 1,
        )[j] <= DIGIT_HI by {
            assert(d.take(k + 1)[j] == d[j]);
        }
        acc = acc * 10 + ((c - DIGIT_LO) as u32);
        if acc > 65535 {
            proof {
                if dec_digits(d) {
                    lemma_dec_value_prefix(d, k + 1);
                }
            }
            return None;
        }
        i = i + 1;
    }
    assert(d.take(n - start) =~= d);
    Some(acc as u16)
}

/// The position of the last `:` of a byte string, if any.
pub open spec fn rfind_colon(s: Seq<u8>) -> Option<int>
    decreases s.len(),
{
    if s.len() == 0 {
        None
    } else if s.last() == COLON {
        Some(s.len() - 1)
    } else {
        rfind_colon(s.drop_last())
    }
}

/// Split bootstrap address text of the shape `host:port` at its last
/// `:`. The split succeeds exactly when a `:` is present and what
/// follows it is a port number.
pub fn split_host_port(s: &[u8]) -> (r: Option<(Vec<u8>, u16)>)
    ensures
        rfind_colon(s@) is None ==> r is None,
        rfind_colon(s@) matches Some(ci) ==> {
            let port_text = s@.subrange(ci + 1, s@.len() as int);
            &&& !is_port_text(port_text) ==> r is None
            &&& is_port_text(port_text) ==> (r matches Some(hp) && hp.0@ == s@.subrange(0, ci)
                && hp.1 == port_value(port_text))
        },
{
    let n = s.len();
    let mut i: usize = n;
    assert(s@.take(n as int) =~= s@);
    while i > 0
        invariant
            n == s@.len(),
            0 <= i <= n,
            rfind_colon(s@) == rfind_colon(s@.take(i as int)),
        decreases i,
    {
        if s[i - 1] == COLON {
            assert(s@.take(i as int).last() == s@[i - 1]);
            assert(rfind_colon(s@) == Some(i - 1));
            let port_part = vstd::slice::slice_subrange(s, i, n);
            match parse_port(port_part) {
                Some(p) => {
                    let host_part = vstd::slice::slice_subrange(s, 0, i - 1);
                    let mut host: Vec<u8> = Vec::new();
                    host.extend_from_slice(host_part);
                    return Some((host, p));
                },
                None => {
                    return None;
                },
            }
        }
        assert(s@.take(i as int).drop_last() =~= s@.take(i - 1));
        i = i - 1;
    }
    assert(s@.take(0) =~= Seq::<u8>::empty());
    None
}

/// Fill in the default name servers where none were configured; a
/// configured list is used as it stands.
pub fn effective_name_servers(servers: &mut Vec<String>)
    ensures
        old(servers)@.len() > 0 ==> final(servers)@ == old(servers)@,
        old(servers)@.len() == 0 ==> {
            &&& final(servers)@.len() == 2
            &&& final(servers)@[0]@ == "223.5.5.5:53"@
            &&& final(servers)@[1]@ == "114.114.114.114:53"@
        },
{
    if servers.len() == 0 {
        servers.push("223.5.5.5:53".to_owned());
        servers.push("114.114.114.114:53".to_owned());
    }
}

/// IPv4 lookup results as socket addresses on one port.
pub open spec fn v4_addrs(ips: Seq<[u8; 4]>, port: u16) -> Seq<SockAddr> {
    ips.map_values(|ip: [u8; 4]| (SockAddr::V4 { ip, port }))
}

/// IPv6 lookup results as socket addresses on one port.
pub open spec fn v6_addrs(ips: Seq<[u8; 16]>, port: u16) -> Seq<SockAddr> {
    ips.map_values(|ip: [u8; 16]| (SockAddr::V6 { ip, port }))
}

/// Pair every address a lookup returned with the port of the queried
/// name: all IPv4 results first, then all IPv6 results, each in
/// lookup order.
pub fn combine_addrs(v4: &Vec<[u8; 4]>, v6: &Vec<[u8; 16]>, port: u16) -> (r: Vec<SockAddr>)
    ensures
        r@ == v4_addrs(v4@, port) + v6_addrs(v6@, port),
{
    let mut out: Vec<SockAddr> = Vec::new();
    let n4 = v4.len();
    let mut i: usize = 0;
    assert(out@ =~= v4_addrs(v4@.take(0), port));
    while i < n4
        invariant
            n4 == v4@.len(),
            0 <= i <= n4,
            out@ == v4_addrs(v4@.take(i as int), port),
        decreases n4 - i,
    {
        out.push(SockAddr::V4 { ip: v4[i], port });
        assert(out@ =~= v4_addrs(v4@.take(i + 1), port));
        i = i + 1;
    }
    assert(v4@.take(n4 as int) =~= v4@);
    let n6 = v6.len();
    let mut j: usize = 0;
    assert(v6_addrs(v6@.take(0), port) =~= Seq::<SockAddr>::empty());
    while j < n6
        invariant
            n6 == v6@.len(),
            0 <= j <= n6,
            out@ == v4_addrs(v4@, port) + v6_addrs(v6@.take(j as int), port),
        decreases n6 - j,
    {
        out.push(SockAddr::V6 { ip: v6[j], port });
        assert(out@ =~= v4_addrs(v4@, port) + v6_addrs(v6@.take(j + 1), port));
        j = j + 1;
    }
    assert(v6@.take(n6 as int) =~= v6@);
    out
}

} // verus!
