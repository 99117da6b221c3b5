//! The project's configuration and manifest, and the settings derived from
//! them: the address a pusher listens on and the port mapping it asks for.
use vstd::prelude::*;

use vstd::utf8::encode_utf8;

use crate::address::{encode_addr_text, spec_base64_encode, spec_decode_addr};
use crate::hashing::{decimal_bytes, spec_decimal};
use crate::text::{all_ascii, append_bytes, ascii_chars, ascii_string, lemma_ascii_utf8};

verus! {

/// The port a new configuration listens on.
pub const DEFAULT_PORT: u16 = 5432;

/// Where a pusher listens: an IPv4 address, if one is fixed, and a port.
#[derive(Debug, Clone, Copy)]
pub struct ServerConfig {
    pub ip: Option<[u8; 4]>,
    pub port: u16,
}

/// The project's name.
#[derive(Debug)]
pub struct ProjectConfig {
    pub name: String,
}

/// The contents of `.webcrane/config.toml`.
#[derive(Debug)]
pub struct Config {
    pub server: ServerConfig,
    pub project: ProjectConfig,
}

/// The project of a manifest: its name and the patterns of the files it
/// leaves out.
#[derive(Debug)]
pub struct Project {
    pub name: String,
    pub ignore: Vec<String>,
}

/// A project manifest.
#[derive(Debug)]
pub struct Manifest {
    pub project: Project,
}

/// Saving a manifest writes nothing.
pub fn save_manifest(manifest: &Manifest, path: String) {
}

/// The characters that Unicode's `White_Space` property holds, which is
/// what `char::is_whitespace` tests.
pub open spec fn is_whitespace(c: char) -> bool {
    ||| '\u{9}' <= c <= '\u{d}'
    ||| c == ' '
    ||| c == '\u{85}'
    ||| c == '\u{a0}'
    ||| c == '\u{1680}'
    ||| '\u{2000}' <= c <= '\u{200a}'
    ||| c == '\u{2028}'
    ||| c == '\u{2029}'
    ||| c == '\u{202f}'
    ||| c == '\u{205f}'
    ||| c == '\u{3000}'
}

/// A text without its leading whitespace.
pub open spec fn trim_start(s: Seq<char>) -> Seq<char>
    decreases s.len(),
{
    if s.len() > 0 && is_whitespace(s[0]) {
        trim_start(s.drop_first())
    } else {
        s
    }
}

/// A text without its trailing whitespace.
pub open spec fn trim_end(s: Seq<char>) -> Seq<char>
    decreases s.len(),
{
    if s.len() > 0 && is_whitespace(s.last()) {
        trim_end(s.drop_last())
    } else {
        s
    }
}

/// A text without its leading and trailing whitespace.
pub open spec fn spec_trim(s: Seq<char>) -> Seq<char> {
    trim_end(trim_start(s))
}

/// Whether `c` is whitespace.
fn char_is_whitespace(c: char) -> (r: bool)
    ensures
        r == is_whitespace(c),
{
    ('\u{9}' <= c && c <= '\u{d}') || c == ' ' || c == '\u{85}' || c == '\u{a0}' || c
        == '\u{1680}' || ('\u{2000}' <= c && c <= '\u{200a}') || c == '\u{2028}' || c
        == '\u{2029}' || c == '\u{202f}' || c == '\u{205f}' || c == '\u{3000}'
}

/// Dropping `k` leading whitespace characters, where the next one (if any)
/// is not whitespace, is `trim_start`.
proof fn lemma_trim_start(s: Seq<char>, k: int)
    requires
        0 <= k <= s.len(),
        forall|i: int| 0 <= i < k ==> is_whitespace(#[trigger] s[i]),
        k < s.len() ==> !is_whitespace(s[k]),
    ensures
        trim_start(s) == s.skip(k),
    decreases k,
{
    if k > 0 {
        assert(is_whitespace(s[0]));
        assert forall|i: int| 0 <= i < k - 1 implies is_whitespace(#[trigger] s.drop_first()[i]) by {
            assert(s.drop_first()[i] == s[i + 1]);
        }
        if k - 1 < s.drop_first().len() {
            assert(s.drop_first()[k - 1] == s[k]);
        }
        lemma_trim_start(s.drop_first(), k - 1);
        assert(s.drop_first().skip(k - 1) =~= s.skip(k));
    } else {
        assert(s.skip(0) =~= s);
    }
}

/// Keeping the first `k` characters, where the rest are whitespace and the
/// last kept one (if any) is not, is `trim_end`.
proof fn lemma_trim_end(s: Seq<char>, k: int)
    requires
        0 <= k <= s.len(),
        forall|i: int| k <= i < s.len() ==> is_whitespace(#[trigger] s[i]),
        k > 0 ==> !is_whitespace(s[k - 1]),
    ensures
        trim_end(s) == s.take(k),
    decreases s.len() - k,
{
    if k < s.len() {
        assert(is_whitespace(s.last()));
        assert forall|i: int| k <= i < s.drop_last().len() implies is_whitespace(
            #[trigger] s.drop_last()[i],
        ) by {
            assert(s.drop_last()[i] == s[i]);
        }
        if k > 0 {
            assert(s.drop_last()[k - 1] == s[k - 1]);
        }
        lemma_trim_end(s.drop_last(), k);
        assert(s.drop_last().take(k) =~= s.take(k));
    } else {
        assert(s.take(k) =~= s);
    }
}

/// The text without its leading and trailing whitespace, as
/// `char::is_whitespace` defines it.
fn trim_text<'a>(s: &'a str) -> (r: &'a str)
    ensures
        r@ == spec_trim(s@),
{
    let n = s.unicode_len();
    let mut start: usize = 0;
    while start < n && char_is_whitespace(s.get_char(start))
        invariant
            n == s@.len(),
            0 <= start <= n,
            forall|i: int| 0 <= i < start ==> is_whitespace(#[trigger] s@[i]),
        decreases n - start,
    {
        start += 1;
    }
    let mut end: usize = n;
    while end > start && char_is_whitespace(s.get_char(end - 1))
        invariant
            n == s@.len(),
            0 <= start <= end <= n,
            forall|i: int| end <= i < n ==> is_whitespace(#[trigger] s@[i]),
        decreases end,
    {
        end -= 1;
    }
    proof {
        lemma_trim_start(s@, start as int);
        let t = s@.skip(start as int);
        assert forall|i: int| end - start <= i < t.len() implies is_whitespace(#[trigger] t[i]) by {
            assert(t[i] == s@[start + i]);
        }
        if end > start {
            assert(t[end - start - 1] == s@[end - 1]);
        }
        lemma_trim_end(t, end - start);
        assert(t.take(end - start) =~= s@.subrange(start as int, end as int));
    }
    s.substring_char(start, end)
}

/// Leading whitespace of a text with one more character at the end.
proof fn lemma_trim_start_push(s: Seq<char>, c: char)
    ensures
        trim_start(s.push(c)) == if trim_start(s).len() == 0 {
            if is_whitespace(c) {
                Seq::<char>::empty()
            } else {
                seq![c]
            }
        } else {
            trim_start(s).push(c)
        },
    decreases s.len(),
{
    if s.len() == 0 {
        assert(seq![c].drop_first() =~= Seq::<char>::empty());
        assert(s.push(c) =~= seq![c]);
        assert(trim_start(Seq::<char>::empty()) == Seq::<char>::empty());
        assert(trim_start(s) == s);
    } else if is_whitespace(s[0]) {
        assert(s.push(c)[0] == s[0]);
        assert(s.push(c).drop_first() =~= s.drop_first().push(c));
        lemma_trim_start_push(s.drop_first(), c);
    } else {
        assert(s.push(c)[0] == s[0]);
    }
}

/// `trim_end` keeps a prefix, and keeps at least the first character where
/// that is not whitespace.
proof fn lemma_trim_end_prefix(x: Seq<char>)
    ensures
        trim_end(x).len() <= x.len(),
        trim_end(x) == x.take(trim_end(x).len() as int),
        x.len() > 0 && !is_whitespace(x[0]) ==> trim_end(x).len() > 0,
    decreases x.len(),
{
    if x.len() > 0 && is_whitespace(x.last()) {
        lemma_trim_end_prefix(x.drop_last());
        assert(x.drop_last().take(trim_end(x).len() as int) =~= x.take(trim_end(x).len() as int));
        if x.len() > 1 {
            assert(x.drop_last()[0] == x[0]);
        }
    } else {
        assert(x.take(x.len() as int) =~= x);
    }
}

/// Trimming drops exactly the characters of Unicode's `White_Space`
/// property at either end, which are those listed here (tab, line feed,
/// vertical tab, form feed, carriage return, space, and the others): adding
/// one of them before or after a text leaves the trimmed text as it was,
/// and any other character added after a text ends the trimmed text, or
/// added before it, begins it.
pub proof fn lemma_trim_edges(s: Seq<char>, c: char)
    ensures
        ({
            let white = (('\u{9}' <= c && c <= '\u{d}') || c == ' ' || c == '\u{85}' || c == '\u{a0}'
                || c == '\u{1680}' || ('\u{2000}' <= c && c <= '\u{200a}') || c == '\u{2028}'
                || c == '\u{2029}' || c == '\u{202f}' || c == '\u{205f}' || c == '\u{3000}');
            &&& white ==> spec_trim(s.push(c)) == spec_trim(s)
            &&& white ==> spec_trim(seq![c] + s) == spec_trim(s)
            &&& !white ==> spec_trim(s.push(c)).len() > 0 && spec_trim(s.push(c)).last() == c
            &&& !white ==> spec_trim(seq![c] + s).len() > 0 && spec_trim(seq![c] + s)[0] == c
        }),
{
    lemma_trim_start_push(s, c);
    let t = trim_start(s);
    let x = seq![c] + s;
    assert(x.drop_first() =~= s);
    if is_whitespace(c) {
        assert(trim_start(x) == trim_start(s));
        if t.len() > 0 {
            assert(t.push(c).drop_last() =~= t);
        } else {
            assert(trim_end(Seq::<char>::empty()) == Seq::<char>::empty());
        }
    } else {
        assert(trim_start(x) == x);
        lemma_trim_end_prefix(x);
        assert(spec_trim(x)[0] == x[0]);
        let u = trim_start(s.push(c));
        assert(u.last() == c);
        assert(trim_end(u) == u);
    }
}

/// The configuration of a new project: no fixed address, the default port,
/// and the project name as entered, without surrounding whitespace.
pub fn new_config(entered_name: &str) -> (r: Config)
    ensures
        r.server.ip is None,
        r.server.port == DEFAULT_PORT,
        r.project.name@ == spec_trim(entered_name@),
{
    let server = ServerConfig { ip: None, port: DEFAULT_PORT };
    let project = ProjectConfig { name: trim_text(entered_name).to_owned() };
    Config { server, project }
}

/// The transport protocol of a port mapping.
#[derive(Debug, Clone, Copy, PartialEq, Eq, Structural)]
pub enum PortProtocol {
    Tcp,
    Udp,
}

/// A port mapping that a pusher asks the router for.
#[derive(Debug)]
pub struct PortMapping {
    /// The network, as the text of an IPv4 CIDR.
    pub address: String,
    pub port: u16,
    pub protocol: PortProtocol,
    /// Seconds the mapping lasts.
    pub duration: u32,
    pub comment: String,
}

/// The mapping of `port` over TCP for `duration` seconds, on the network
/// `192.168.0`.
pub fn get_port_config(port: u16, duration: u32) -> (r: PortMapping)
    ensures
        r.address@ == "192.168.0"@,
        r.port == port,
        r.protocol == PortProtocol::Tcp,
        r.duration == duration,
        r.comment@ == "Webcrane server"@,
{
    PortMapping {
        address: "192.168.0".to_owned(),
        port,
        protocol: PortProtocol::Tcp,
        duration,
        comment: "Webcrane server".to_owned(),
    }
}

/// The dotted decimal text of an IPv4 address, as ASCII codes.
pub open spec fn spec_ipv4_text(ip: [u8; 4]) -> Seq<u8> {
    spec_decimal(ip[0] as nat) + seq![46u8] + spec_decimal(ip[1] as nat) + seq![46u8]
        + spec_decimal(ip[2] as nat) + seq![46u8] + spec_decimal(ip[3] as nat)
}

/// The text `ip:port` that a pusher listens on, as ASCII codes.
pub open spec fn spec_listen_address(ip: [u8; 4], port: u16) -> Seq<u8> {
    spec_ipv4_text(ip) + seq![58u8] + spec_decimal(port as nat)
}

/// Decimal digits are ASCII codes.
proof fn lemma_decimal_ascii(n: nat)
    ensures
        all_ascii(spec_decimal(n)),
    decreases n,
{
    if n >= 10 {
        lemma_decimal_ascii(n / 10);
        assert forall|i: int| 0 <= i < spec_decimal(n).len() implies #[trigger] spec_decimal(n)[i]
            < 128 by {
            if i < spec_decimal(n / 10).len() {
                assert(spec_decimal(n)[i] == spec_decimal(n / 10)[i]);
            }
        }
    }
}

/// The address `ip:port` a pusher listens on, in the text that `Ipv4Addr`
/// and `u16` display.
pub fn listen_address(ip: [u8; 4], port: u16) -> (r: String)
    ensures
        r@ == ascii_chars(spec_listen_address(ip, port)),
{
    let mut bytes: Vec<u8> = Vec::new();
    let d0 = decimal_bytes(ip[0] as u64);
    let d1 = decimal_bytes(ip[1] as u64);
    let d2 = decimal_bytes(ip[2] as u64);
    let d3 = decimal_bytes(ip[3] as u64);
    let dp = decimal_bytes(port as u64);
    append_bytes(&mut bytes, d0.as_slice());
    bytes.push(46u8);
    append_bytes(&mut bytes, d1.as_slice());
    bytes.push(46u8);
    append_bytes(&mut bytes, d2.as_slice());
    bytes.push(46u8);
    append_bytes(&mut bytes, d3.as_slice());
    bytes.push(58u8);
    append_bytes(&mut bytes, dp.as_slice());
    proof {
        lemma_decimal_ascii(ip[0] as nat);
        lemma_decimal_ascii(ip[1] as nat);
        lemma_decimal_ascii(ip[2] as nat);
        lemma_decimal_ascii(ip[3] as nat);
        lemma_decimal_ascii(port as nat);
        assert(bytes@ =~= spec_listen_address(ip, port));
    }
    ascii_string(bytes)
}

/// The decimal text of `n` has at most `n + 1` digits.
proof fn lemma_decimal_len(n: nat)
    ensures
        spec_decimal(n).len() <= n + 1,
    decreases n,
{
    if n >= 10 {
        lemma_decimal_len(n / 10);
    }
}

/// The address a pusher listens on and the credentials it shows for it:
/// `ip:port`, and that text in standard Base64. Decoding the credentials
/// gives the address back.
pub fn push_endpoint(ip: [u8; 4], port: u16) -> (r: (String, String))
    ensures
        r.0@ == ascii_chars(spec_listen_address(ip, port)),
        r.1@ == spec_base64_encode(spec_listen_address(ip, port)),
        spec_decode_addr(r.1@) == Some(r.0@),
{
    let addr = listen_address(ip, port);
    proof {
        let bytes = spec_listen_address(ip, port);
        lemma_decimal_ascii(ip[0] as nat);
        lemma_decimal_ascii(ip[1] as nat);
        lemma_decimal_ascii(ip[2] as nat);
        lemma_decimal_ascii(ip[3] as nat);
        lemma_decimal_ascii(port as nat);
        lemma_decimal_len(ip[0] as nat);
        lemma_decimal_len(ip[1] as nat);
        lemma_decimal_len(ip[2] as nat);
        lemma_decimal_len(ip[3] as nat);
        lemma_decimal_len(port as nat);
        assert(all_ascii(bytes)) by {
            assert forall|i: int| 0 <= i < bytes.len() implies #[trigger] bytes[i] < 128 by {
                let d0 = spec_decimal(ip[0] as nat);
                let d1 = spec_decimal(ip[1] as nat);
                let d2 = spec_decimal(ip[2] as nat);
                let d3 = spec_decimal(ip[3] as nat);
                let dp = spec_decimal(port as nat);
                let s1 = d0 + seq![46u8];
                let s2 = s1 + d1;
                let s3 = s2 + seq![46u8];
                let s4 = s3 + d2;
                let s5 = s4 + seq![46u8];
                let s6 = s5 + d3;
                let s7 = s6 + seq![58u8];
                assert(bytes == s7 + dp);
                if i >= s7.len() {
                    assert(bytes[i] == dp[i - s7.len()]);
                } else if i >= s6.len() {
                } else if i >= s5.len() {
                    assert(bytes[i] == d3[i - s5.len()]);
                } else if i >= s4.len() {
                } else if i >= s3.len() {
                    assert(bytes[i] == d2[i - s3.len()]);
                } else if i >= s2.len() {
                } else if i >= s1.len() {
                    assert(bytes[i] == d1[i - s1.len()]);
                } else if i >= d0.len() {
                } else {
                    assert(bytes[i] == d0[i]);
                }
            }
        }
        lemma_ascii_utf8(bytes);
        assert(encode_utf8(addr@) == bytes);
    }
    let credentials = encode_addr_text(addr.as_str());
    (addr, credentials)
}

/// Every element is the ASCII code of a decimal digit.
pub open spec fn all_digits(d: Seq<u8>) -> bool {
    forall|i: int| 0 <= i < d.len() ==> 48 <= #[trigger] d[i] <= 57
}

/// The number that a text of decimal digits (ASCII codes) spells, most
/// significant digit first.
pub open spec fn decimal_value(digits: Seq<u8>) -> int
    decreases digits.len(),
{
    if digits.len() == 0 {
        0
    } else {
        decimal_value(digits.drop_last()) * 10 + (digits.last() - 48)
    }
}

/// The decimal text of `n` is a non-empty text of digits that spells `n`.
pub proof fn lemma_decimal_reads_back(n: nat)
    ensures
        spec_decimal(n).len() > 0,
        all_digits(spec_decimal(n)),
        decimal_value(spec_decimal(n)) == n,
    decreases n,
{
    if n >= 10 {
        lemma_decimal_reads_back(n / 10);
        let d = spec_decimal(n);
        assert(d.drop_last() =~= spec_decimal(n / 10));
        assert(d.last() as int == 48 + n % 10);
        assert((n / 10) * 10 + n % 10 == n);
        assert(decimal_value(d) == decimal_value(d.drop_last()) * 10 + (d.last() - 48));
        assert forall|i: int| 0 <= i < d.len() implies 48 <= #[trigger] d[i] <= 57 by {
            if i < d.len() - 1 {
                assert(d[i] == spec_decimal(n / 10)[i]);
            }
        }
    } else {
        let d = spec_decimal(n);
        assert(d.drop_last() =~= Seq::<u8>::empty());
        assert(decimal_value(d.drop_last()) == 0);
        assert(d.last() as int == 48 + n);
        assert(decimal_value(d) == decimal_value(d.drop_last()) * 10 + (d.last() - 48));
    }
}

/// The listen address reads back: it is four decimal numbers separated by
/// dots, which spell the octets of `ip`, then a colon and a decimal number,
/// which spells the whole `port`.
pub proof fn lemma_listen_address_reads_back(ip: [u8; 4], port: u16)
    ensures
        exists|d0: Seq<u8>, d1: Seq<u8>, d2: Seq<u8>, d3: Seq<u8>, dp: Seq<u8>|
            #![trigger decimal_value(d0), decimal_value(d1), decimal_value(d2), decimal_value(d3), decimal_value(dp)]
            {
                &&& all_digits(d0) && all_digits(d1) && all_digits(d2) && all_digits(d3)
                    && all_digits(dp)
                &&& d0.len() > 0 && d1.len() > 0 && d2.len() > 0 && d3.len() > 0 && dp.len() > 0
                &&& decimal_value(d0) == ip[0] as int
                &&& decimal_value(d1) == ip[1] as int
                &&& decimal_value(d2) == ip[2] as int
                &&& decimal_value(d3) == ip[3] as int
                &&& decimal_value(dp) == port as int
                &&& spec_listen_address(ip, port) == d0 + seq![46u8] + d1 + seq![46u8] + d2
                    + seq![46u8] + d3 + seq![58u8] + dp
            },
{
    let d0 = spec_decimal(ip[0] as nat);
    let d1 = spec_decimal(ip[1] as nat);
    let d2 = spec_decimal(ip[2] as nat);
    let d3 = spec_decimal(ip[3] as nat);
    let dp = spec_decimal(port as nat);
    lemma_decimal_reads_back(ip[0] as nat);
    lemma_decimal_reads_back(ip[1] as nat);
    lemma_decimal_reads_back(ip[2] as nat);
    lemma_decimal_reads_back(ip[3] as nat);
    lemma_decimal_reads_back(port as nat);
    assert(spec_listen_address(ip, port) == d0 + seq![46u8] + d1 + seq![46u8] + d2 + seq![46u8]
        + d3 + seq![58u8] + dp);
    assert(decimal_value(d0) == ip[0] as int && decimal_value(d1) == ip[1] as int
        && decimal_value(d2) == ip[2] as int && decimal_value(d3) == ip[3] as int
        && decimal_value(dp) == port as int);
}

/// Whether a pusher at `local_ip` looks up its external address: every
/// address but `127.0.0.1` does.
pub fn needs_external_ip(local_ip: [u8; 4]) -> (r: bool)
    ensures
        r == !(local_ip[0] == 127 && local_ip[1] == 0 && local_ip[2] == 0 && local_ip[3] == 1),
{
    !(local_ip[0] == 127 && local_ip[1] == 0 && local_ip[2] == 0 && local_ip[3] == 1)
}

} // verus!
