//! The SNMP probe's own logic: OID texts, target addresses, the v3 security
//! options, and the coercion of response values into metrics. The session
//! itself is network work and lives with the embedding layer; everything it
//! is handed is resolved and checked here.

use crate::config::SnmpConfig;
use crate::json::{dec_value, split_dots};
use crate::numfmt::{dec_seq, int_seq, is_number_seq, is_number_str, trim_seq, trim_str,
    u64_to_string, is_dec_digit};
use crate::strings::{lower_seq, ascii_lower, str_eq};
use vstd::prelude::*;

verus! {

/// A malformed piece of SNMP configuration.
#[derive(PartialEq, Eq, Structural, Clone, Copy, Debug)]
pub enum SnmpParseError {
    /// An OID part is empty, not a number, or out of range.
    BadOid,
    /// An unsupported authentication protocol name.
    BadAuthProtocol,
    /// An unsupported privacy cipher name.
    BadPrivCipher,
    /// An unsupported security level name.
    BadSecurityLevel,
    /// An unsupported protocol version name.
    BadVersion,
}

/// `s` without leading and trailing dots.
pub open spec fn trim_dots(s: Seq<char>) -> Seq<char>
    decreases s.len(),
{
    if s.len() > 0 && s[0] == '.' {
        trim_dots(s.skip(1))
    } else if s.len() > 0 && s[s.len() - 1] == '.' {
        trim_dots(s.take(s.len() - 1))
    } else {
        s
    }
}

proof fn lemma_trim_dots_slice(s: Seq<char>, a: int, b: int)
    requires
        0 <= a <= b <= s.len(),
        forall|k: int| 0 <= k < a ==> s[k] == '.',
        forall|k: int| b <= k < s.len() ==> s[k] == '.',
        a < b ==> s[a] != '.' && s[b - 1] != '.',
        a == b ==> forall|k: int| 0 <= k < s.len() ==> s[k] == '.',
    ensures
        trim_dots(s) == s.subrange(a, b),
    decreases s.len(),
{
    if s.len() == 0 {
        assert(trim_dots(s) =~= s.subrange(a, b));
    } else if s[0] == '.' {
        let t = s.skip(1);
        if a == b {
            lemma_trim_dots_slice(t, 0, 0);
            assert(trim_dots(s) =~= s.subrange(a, b));
        } else {
            assert(a >= 1);
            lemma_trim_dots_slice(t, a - 1, b - 1);
            assert(t.subrange(a - 1, b - 1) =~= s.subrange(a, b));
        }
    } else if s[s.len() - 1] == '.' {
        assert(a == 0);
        assert(a < b);
        let t = s.take(s.len() - 1);
        assert(b <= s.len() - 1);
        lemma_trim_dots_slice(t, a, b);
        assert(t.subrange(a, b) =~= s.subrange(a, b));
    } else {
        assert(a == 0);
        assert(b == s.len());
        assert(trim_dots(s) =~= s.subrange(a, b));
    }
}

/// A valid OID part: a nonempty run of digits whose value fits a 64-bit
/// component.
pub open spec fn oid_part_ok(part: Seq<char>) -> bool {
    part.len() > 0 && (forall|i: int| 0 <= i < part.len() ==> is_dec_digit(#[trigger] part[i]))
        && dec_value(part) <= u64::MAX
}

/// A whole OID text is valid when every dot-separated part of its trimmed
/// form is.
pub open spec fn oid_ok(s: Seq<char>) -> bool {
    forall|j: int|
        0 <= j < split_dots(trim_dots(s)).len() ==> oid_part_ok(
            #[trigger] split_dots(trim_dots(s))[j],
        )
}

fn parse_oid_part(part: &str) -> (r: Option<u64>)
    ensures
        match r {
            Option::Some(v) => oid_part_ok(part@) && v == dec_value(part@),
            Option::None => !oid_part_ok(part@),
        },
{
    let n = part.unicode_len();
    if n == 0 {
        return Option::None;
    }
    let mut v: u64 = 0;
    let mut i: usize = 0;
    proof {
        assert(part@.take(0) =~= Seq::<char>::empty());
    }
    while i < n
        invariant
            i <= n == part@.len(),
            forall|k: int| 0 <= k < i ==> is_dec_digit(#[trigger] part@[k]),
            v == dec_value(part@.take(i as int)),
        decreases n - i,
    {
        proof {
            assert(part@.take(i + 1).drop_last() =~= part@.take(i as int));
            assert(part@.take(i + 1).last() == part@[i as int]);
        }
        let c = part.get_char(i);
        if !('0' <= c && c <= '9') {
            return Option::None;
        }
        let d = (c as u64) - ('0' as u64);
        if v > (u64::MAX - d) / 10 {
            proof {
                assert(v * 10 + d > u64::MAX);
                if oid_part_ok(part@) {
                    lemma_oid_value_monotone(part@, i + 1, n as int);
                    assert(part@.take(n as int) =~= part@);
                }
            }
            return Option::None;
        }
        v = v * 10 + d;
        i = i + 1;
    }
    proof {
        assert(part@.take(n as int) =~= part@);
    }
    Option::Some(v)
}

/// A digit run's value is nonnegative and only grows as it extends.
proof fn lemma_oid_value_monotone(part: Seq<char>, a: int, b: int)
    requires
        0 <= a <= b <= part.len(),
        forall|k: int| 0 <= k < b ==> is_dec_digit(#[trigger] part[k]),
    ensures
        dec_value(part.take(b)) >= dec_value(part.take(a)) >= 0,
    decreases b,
{
    if a == b {
        if a > 0 {
            lemma_oid_value_monotone(part, a - 1, a - 1);
            assert(part.take(a).drop_last() =~= part.take(a - 1));
            assert(part.take(a).last() == part[a - 1]);
        } else {
            assert(part.take(0) =~= Seq::<char>::empty());
        }
    } else {
        lemma_oid_value_monotone(part, a, b - 1);
        assert(part.take(b).drop_last() =~= part.take(b - 1));
        assert(part.take(b).last() == part[b - 1]);
    }
}

/// The parsed components mirror the trimmed text's parts exactly.
pub open spec fn oid_components_match(s: Seq<char>, v: Seq<u64>) -> bool {
    v.len() == split_dots(trim_dots(s)).len() && forall|j: int|
        0 <= j < v.len() ==> oid_part_ok(split_dots(trim_dots(s))[j]) && #[trigger] v[j]
            == dec_value(split_dots(trim_dots(s))[j])
}

/// Parse a dot-notation OID text into its numeric components. Leading and
/// trailing dots are ignored; any empty or non-numeric part rejects the
/// whole text.
pub fn parse_oid(oid_str: &str) -> (r: Result<Vec<u64>, SnmpParseError>)
    ensures
        match r {
            Result::Ok(v) => oid_ok(oid_str@) && oid_components_match(oid_str@, v@),
            Result::Err(e) => e == SnmpParseError::BadOid && !oid_ok(oid_str@),
        },
{
    let n = oid_str.unicode_len();
    let mut a: usize = 0;
    while a < n && oid_str.get_char(a) == '.'
        invariant
            a <= n == oid_str@.len(),
            forall|k: int| 0 <= k < a ==> oid_str@[k] == '.',
        decreases n - a,
    {
        a = a + 1;
    }
    let mut b: usize = n;
    while b > a && oid_str.get_char(b - 1) == '.'
        invariant
            a <= b <= n == oid_str@.len(),
            forall|k: int| b <= k < n ==> oid_str@[k] == '.',
        decreases b,
    {
        b = b - 1;
    }
    let trimmed = oid_str.substring_char(a, b);
    proof {
        lemma_trim_dots_slice(oid_str@, a as int, b as int);
        assert(trimmed@ == trim_dots(oid_str@));
    }
    let parts = split_parts(trimmed);
    let ghost spec_parts = split_dots(trim_dots(oid_str@));
    let mut out: Vec<u64> = Vec::new();
    let mut j: usize = 0;
    while j < parts.len()
        invariant
            j <= parts@.len(),
            parts@.len() == spec_parts.len(),
            spec_parts == split_dots(trim_dots(oid_str@)),
            forall|q: int| 0 <= q < parts@.len() ==> (#[trigger] parts@[q])@ == spec_parts[q],
            out@.len() == j,
            forall|q: int|
                0 <= q < j ==> oid_part_ok(#[trigger] spec_parts[q]) && out@[q] == dec_value(
                    spec_parts[q],
                ),
        decreases parts@.len() - j,
    {
        match parse_oid_part(parts[j].as_str()) {
            Option::Some(v) => {
                let ghost prev = out@;
                out.push(v);
                proof {
                    assert forall|q: int|
                        0 <= q < j + 1 implies oid_part_ok(#[trigger] spec_parts[q]) && out@[q]
                        == dec_value(spec_parts[q]) by {
                        if q < j {
                            assert(out@[q] == prev[q]);
                        } else {
                            assert(out@[q] == v);
                            assert((parts@[q])@ == spec_parts[q]);
                        }
                    }
                }
            },
            Option::None => {
                proof {
                    assert((parts@[j as int])@ == spec_parts[j as int]);
                    assert(!oid_part_ok(split_dots(trim_dots(oid_str@))[j as int]));
                }
                return Result::Err(SnmpParseError::BadOid);
            },
        }
        j = j + 1;
    }
    proof {
        assert forall|q: int|
            0 <= q < split_dots(trim_dots(oid_str@)).len() implies oid_part_ok(
            #[trigger] split_dots(trim_dots(oid_str@))[q],
        ) by {
            assert(oid_part_ok(spec_parts[q]));
        }
    }
    Result::Ok(out)
}

/// Split a text at every dot, as `split_dots` describes.
pub fn split_parts(s: &str) -> (parts: Vec<String>)
    ensures
        parts@.len() == split_dots(s@).len(),
        forall|q: int| 0 <= q < parts@.len() ==> (#[trigger] parts@[q])@ == split_dots(s@)[q],
{
    let n = s.unicode_len();
    let mut parts: Vec<String> = Vec::new();
    let mut cur = String::new();
    let mut i: usize = 0;
    proof {
        assert(s@.skip(0) =~= s@);
        crate::json::lemma_split_nonempty(s@);
        assert(cur@ + split_dots(s@)[0] =~= split_dots(s@)[0]);
    }
    while i < n
        invariant
            i <= n == s@.len(),
            parts@.len() + 1 + split_dots(s@.skip(i as int)).len() - 1 == split_dots(s@).len(),
            forall|q: int| 0 <= q < parts@.len() ==> (#[trigger] parts@[q])@ == split_dots(s@)[q],
            split_dots(s@)[parts@.len() as int] == cur@ + split_dots(s@.skip(i as int))[0],
            forall|q: int|
                parts@.len() < q < split_dots(s@).len() ==> split_dots(s@)[q] == split_dots(
                    s@.skip(i as int),
                )[q - parts@.len()],
        decreases n - i,
    {
        proof {
            crate::json::lemma_split_nonempty(s@.skip(i + 1));
            assert(s@.skip(i as int)[0] == s@[i as int]);
            assert(s@.skip(i as int).skip(1) =~= s@.skip(i + 1));
        }
        let c = s.get_char(i);
        if c == '.' {
            parts.push(cur);
            cur = String::new();
        } else {
            cur.push(c);
        }
        i = i + 1;
    }
    proof {
        crate::json::lemma_split_nonempty(s@.skip(n as int));
        assert(s@.skip(n as int) =~= Seq::<char>::empty());
    }
    parts.push(cur);
    parts
}

/// Format the probe's target address: a bare IPv6 host is bracketed, as
/// socket-address syntax demands.
pub fn format_addr(host: &str, port: u16) -> (r: String)
    ensures
        r@ == (if crate::strings::occurs_in(host@, (":")@) && !(host@.len() > 0 && host@[0]
            == '[') {
            ("[")@ + host@ + ("]:")@ + dec_seq(port as nat)
        } else {
            host@ + (":")@ + dec_seq(port as nat)
        }),
{
    proof {
        reveal_strlit(":");
    }
    let has_colon = crate::strings::contains_lit(host, ":");
    let n = host.unicode_len();
    let bracketed = n > 0 && host.get_char(0) == '[';
    let port_s = u64_to_string(port as u64);
    if has_colon && !bracketed {
        let mut r = String::from_str("[");
        r.append(host);
        r.append("]:");
        r.append(port_s.as_str());
        r
    } else {
        let mut r = String::from_str(host);
        r.append(":");
        r.append(port_s.as_str());
        r
    }
}

/// The authentication protocols of the user security model.
#[derive(PartialEq, Eq, Structural, Clone, Copy, Debug)]
pub enum SnmpAuthProtocol {
    Md5,
    Sha1,
    Sha224,
    Sha256,
    Sha384,
    Sha512,
}

/// The privacy ciphers of the user security model.
#[derive(PartialEq, Eq, Structural, Clone, Copy, Debug)]
pub enum SnmpPrivCipher {
    Des,
    Aes128,
    Aes192,
    Aes256,
}

/// The three security levels.
#[derive(PartialEq, Eq, Structural, Clone, Copy, Debug)]
pub enum SnmpSecurityLevel {
    NoAuthNoPriv,
    AuthNoPriv,
    AuthPriv,
}

/// The supported protocol versions.
#[derive(PartialEq, Eq, Structural, Clone, Copy, Debug)]
pub enum SnmpVersion {
    V1,
    V2c,
    V3,
}

/// Which protocol an authentication name selects, case-insensitively.
pub open spec fn spec_auth_protocol(s: Seq<char>) -> Option<SnmpAuthProtocol> {
    let l = lower_seq(s);
    if l == ("md5")@ {
        Option::Some(SnmpAuthProtocol::Md5)
    } else if l == ("sha")@ || l == ("sha1")@ || l == ("sha-1")@ {
        Option::Some(SnmpAuthProtocol::Sha1)
    } else if l == ("sha224")@ || l == ("sha-224")@ {
        Option::Some(SnmpAuthProtocol::Sha224)
    } else if l == ("sha256")@ || l == ("sha-256")@ {
        Option::Some(SnmpAuthProtocol::Sha256)
    } else if l == ("sha384")@ || l == ("sha-384")@ {
        Option::Some(SnmpAuthProtocol::Sha384)
    } else if l == ("sha512")@ || l == ("sha-512")@ {
        Option::Some(SnmpAuthProtocol::Sha512)
    } else {
        Option::None
    }
}

/// Parse an authentication protocol name.
pub fn parse_auth_protocol(proto: &str) -> (r: Result<SnmpAuthProtocol, SnmpParseError>)
    ensures
        match r {
            Result::Ok(p) => spec_auth_protocol(proto@) == Option::Some(p),
            Result::Err(e) => e == SnmpParseError::BadAuthProtocol && spec_auth_protocol(proto@)
                is None,
        },
{
    let l = ascii_lower(proto);
    if str_eq(l.as_str(), "md5") {
        Result::Ok(SnmpAuthProtocol::Md5)
    } else if str_eq(l.as_str(), "sha") || str_eq(l.as_str(), "sha1") || str_eq(
        l.as_str(),
        "sha-1",
    ) {
        Result::Ok(SnmpAuthProtocol::Sha1)
    } else if str_eq(l.as_str(), "sha224") || str_eq(l.as_str(), "sha-224") {
        Result::Ok(SnmpAuthProtocol::Sha224)
    } else if str_eq(l.as_str(), "sha256") || str_eq(l.as_str(), "sha-256") {
        Result::Ok(SnmpAuthProtocol::Sha256)
    } else if str_eq(l.as_str(), "sha384") || str_eq(l.as_str(), "sha-384") {
        Result::Ok(SnmpAuthProtocol::Sha384)
    } else if str_eq(l.as_str(), "sha512") || str_eq(l.as_str(), "sha-512") {
        Result::Ok(SnmpAuthProtocol::Sha512)
    } else {
        Result::Err(SnmpParseError::BadAuthProtocol)
    }
}

/// Which cipher a privacy name selects, case-insensitively.
pub open spec fn spec_priv_cipher(s: Seq<char>) -> Option<SnmpPrivCipher> {
    let l = lower_seq(s);
    if l == ("des")@ {
        Option::Some(SnmpPrivCipher::Des)
    } else if l == ("aes")@ || l == ("aes128")@ || l == ("aes-128")@ {
        Option::Some(SnmpPrivCipher::Aes128)
    } else if l == ("aes192")@ || l == ("aes-192")@ {
        Option::Some(SnmpPrivCipher::Aes192)
    } else if l == ("aes256")@ || l == ("aes-256")@ {
        Option::Some(SnmpPrivCipher::Aes256)
    } else {
        Option::None
    }
}

/// Parse a privacy cipher name.
pub fn parse_priv_cipher(cipher: &str) -> (r: Result<SnmpPrivCipher, SnmpParseError>)
    ensures
        match r {
            Result::Ok(p) => spec_priv_cipher(cipher@) == Option::Some(p),
            Result::Err(e) => e == SnmpParseError::BadPrivCipher && spec_priv_cipher(cipher@)
                is None,
        },
{
    let l = ascii_lower(cipher);
    if str_eq(l.as_str(), "des") {
        Result::Ok(SnmpPrivCipher::Des)
    } else if str_eq(l.as_str(), "aes") || str_eq(l.as_str(), "aes128") || str_eq(
        l.as_str(),
        "aes-128",
    ) {
        Result::Ok(SnmpPrivCipher::Aes128)
    } else if str_eq(l.as_str(), "aes192") || str_eq(l.as_str(), "aes-192") {
        Result::Ok(SnmpPrivCipher::Aes192)
    } else if str_eq(l.as_str(), "aes256") || str_eq(l.as_str(), "aes-256") {
        Result::Ok(SnmpPrivCipher::Aes256)
    } else {
        Result::Err(SnmpParseError::BadPrivCipher)
    }
}

/// Which level a security-level name selects, case-insensitively.
pub open spec fn spec_security_level(s: Seq<char>) -> Option<SnmpSecurityLevel> {
    let l = lower_seq(s);
    if l == ("noauthnopriv")@ {
        Option::Some(SnmpSecurityLevel::NoAuthNoPriv)
    } else if l == ("authnopriv")@ {
        Option::Some(SnmpSecurityLevel::AuthNoPriv)
    } else if l == ("authpriv")@ {
        Option::Some(SnmpSecurityLevel::AuthPriv)
    } else {
        Option::None
    }
}

/// Parse a security-level name.
pub fn parse_security_level(level: &str) -> (r: Result<SnmpSecurityLevel, SnmpParseError>)
    ensures
        match r {
            Result::Ok(p) => spec_security_level(level@) == Option::Some(p),
            Result::Err(e) => e == SnmpParseError::BadSecurityLevel && spec_security_level(level@)
                is None,
        },
{
    let l = ascii_lower(level);
    if str_eq(l.as_str(), "noauthnopriv") {
        Result::Ok(SnmpSecurityLevel::NoAuthNoPriv)
    } else if str_eq(l.as_str(), "authnopriv") {
        Result::Ok(SnmpSecurityLevel::AuthNoPriv)
    } else if str_eq(l.as_str(), "authpriv") {
        Result::Ok(SnmpSecurityLevel::AuthPriv)
    } else {
        Result::Err(SnmpParseError::BadSecurityLevel)
    }
}

/// Which version a version name selects.
pub open spec fn spec_snmp_version(s: Seq<char>) -> Option<SnmpVersion> {
    if s == ("1")@ || s == ("v1")@ {
        Option::Some(SnmpVersion::V1)
    } else if s == ("2")@ || s == ("2c")@ || s == ("v2")@ || s == ("v2c")@ {
        Option::Some(SnmpVersion::V2c)
    } else if s == ("3")@ || s == ("v3")@ {
        Option::Some(SnmpVersion::V3)
    } else {
        Option::None
    }
}

/// Parse a protocol version name.
pub fn parse_snmp_version(version: &str) -> (r: Result<SnmpVersion, SnmpParseError>)
    ensures
        match r {
            Result::Ok(p) => spec_snmp_version(version@) == Option::Some(p),
            Result::Err(e) => e == SnmpParseError::BadVersion && spec_snmp_version(version@)
                is None,
        },
{
    if str_eq(version, "1") || str_eq(version, "v1") {
        Result::Ok(SnmpVersion::V1)
    } else if str_eq(version, "2") || str_eq(version, "2c") || str_eq(version, "v2") || str_eq(
        version,
        "v2c",
    ) {
        Result::Ok(SnmpVersion::V2c)
    } else if str_eq(version, "3") || str_eq(version, "v3") {
        Result::Ok(SnmpVersion::V3)
    } else {
        Result::Err(SnmpParseError::BadVersion)
    }
}

/// How many times a transient auth-context update is retried before the
/// error is given up.
pub fn auth_retry_budget() -> (r: u32)
    ensures
        r == 3,
{
    3
}

/// One step of the transient-auth retry loop: spend one retry while any
/// remain, else give the error up.
pub fn auth_retry_step(retries_left: u32) -> (r: Option<u32>)
    ensures
        match r {
            Option::Some(left) => retries_left >= 1 && left == retries_left - 1,
            Option::None => retries_left == 0,
        },
{
    if retries_left >= 1 {
        Option::Some(retries_left - 1)
    } else {
        Option::None
    }
}

/// A response value, as plain data: the numeric variants carry their value,
/// text carries its characters, anything else carries nothing usable.
pub enum SnmpValue {
    IntVal(i64),
    Counter32(u32),
    Unsigned32(u32),
    Timeticks(u32),
    Counter64(u64),
    OctetString(String),
    Other,
}

/// How a response value coerces to a metric: integers by their decimal
/// rendering, text by trimming when it is a plain number, anything else not
/// at all.
pub open spec fn spec_value_metric(v: SnmpValue) -> Option<Seq<char>> {
    match v {
        SnmpValue::IntVal(x) => Option::Some(int_seq(x as int)),
        SnmpValue::Counter32(x) => Option::Some(dec_seq(x as nat)),
        SnmpValue::Unsigned32(x) => Option::Some(dec_seq(x as nat)),
        SnmpValue::Timeticks(x) => Option::Some(dec_seq(x as nat)),
        SnmpValue::Counter64(x) => Option::Some(dec_seq(x as nat)),
        SnmpValue::OctetString(s) => if is_number_seq(trim_seq(s@)) {
            Option::Some(trim_seq(s@))
        } else {
            Option::None
        },
        SnmpValue::Other => Option::None,
    }
}

/// Coerce one response value to a metric value.
pub fn value_to_metric(v: &SnmpValue) -> (r: Option<String>)
    ensures
        match r {
            Option::Some(m) => spec_value_metric(*v) == Option::Some(m@),
            Option::None => spec_value_metric(*v) is None,
        },
{
    match v {
        SnmpValue::IntVal(x) => Option::Some(crate::numfmt::i64_to_string(*x)),
        SnmpValue::Counter32(x) => Option::Some(u64_to_string(*x as u64)),
        SnmpValue::Unsigned32(x) => Option::Some(u64_to_string(*x as u64)),
        SnmpValue::Timeticks(x) => Option::Some(u64_to_string(*x as u64)),
        SnmpValue::Counter64(x) => Option::Some(u64_to_string(*x)),
        SnmpValue::OctetString(s) => {
            let t = trim_str(s.as_str());
            if is_number_str(t.as_str()) {
                Option::Some(t)
            } else {
                Option::None
            }
        },
        SnmpValue::Other => Option::None,
    }
}

/// Every planned entry names a configured metric whose OID text is valid.
/// An SNMP section with every default applied: the plain values the session
/// is built from. Port 161, a three-second timeout handled by the probe
/// registry, version 3, community `public`, SHA-256 authentication, AES-128
/// privacy, the `authPriv` level, and the uptime OID as the availability
/// check.
pub struct SnmpSettings {
    pub host: String,
    pub port: u16,
    pub version: String,
    pub community: String,
    pub username: String,
    pub auth_password: String,
    pub auth_protocol: String,
    pub priv_password: Option<String>,
    pub priv_cipher: String,
    pub security_level: String,
    pub oid: String,
    pub oids: Vec<(String, String)>,
}

/// The configured text when present, else the default.
pub open spec fn text_or(v: Option<String>, dflt: Seq<char>, r: String) -> bool {
    match v {
        Option::Some(s) => r == s,
        Option::None => r@ == dflt,
    }
}

fn clone_text_or(v: &Option<String>, dflt: &str) -> (r: String)
    ensures
        text_or(*v, dflt@, r),
{
    match v {
        Option::Some(s) => s.clone(),
        Option::None => String::from_str(dflt),
    }
}

/// Apply the documented defaults to an SNMP section.
pub fn resolve_snmp_settings(cfg: &SnmpConfig) -> (r: SnmpSettings)
    ensures
        r.host == cfg.host,
        r.port == cfg.port.unwrap_or(161),
        text_or(cfg.version, ("3")@, r.version),
        text_or(cfg.community, ("public")@, r.community),
        text_or(cfg.username, Seq::<char>::empty(), r.username),
        text_or(cfg.auth_password, Seq::<char>::empty(), r.auth_password),
        text_or(cfg.auth_protocol, ("sha256")@, r.auth_protocol),
        r.priv_password == cfg.priv_password,
        text_or(cfg.priv_cipher, ("aes128")@, r.priv_cipher),
        text_or(cfg.security_level, ("authPriv")@, r.security_level),
        text_or(cfg.oid, ("1.3.6.1.2.1.1.3.0")@, r.oid),
        match cfg.oids {
            Option::Some(v) => r.oids@ == v@,
            Option::None => r.oids@.len() == 0,
        },
{
    proof {
        reveal_strlit("");
        assert(("")@ =~= Seq::<char>::empty());
    }
    SnmpSettings {
        host: cfg.host.clone(),
        port: match cfg.port {
            Option::Some(p) => p,
            Option::None => 161,
        },
        version: clone_text_or(&cfg.version, "3"),
        community: clone_text_or(&cfg.community, "public"),
        username: clone_text_or(&cfg.username, ""),
        auth_password: clone_text_or(&cfg.auth_password, ""),
        auth_protocol: clone_text_or(&cfg.auth_protocol, "sha256"),
        priv_password: clone_opt_text(&cfg.priv_password),
        priv_cipher: clone_text_or(&cfg.priv_cipher, "aes128"),
        security_level: clone_text_or(&cfg.security_level, "authPriv"),
        oid: clone_text_or(&cfg.oid, "1.3.6.1.2.1.1.3.0"),
        oids: match &cfg.oids {
            Option::Some(v) => clone_pairs(v),
            Option::None => Vec::new(),
        },
    }
}

fn clone_opt_text(v: &Option<String>) -> (r: Option<String>)
    ensures
        r == *v,
{
    match v {
        Option::Some(s) => Option::Some(s.clone()),
        Option::None => Option::None,
    }
}

fn clone_pairs(v: &Vec<(String, String)>) -> (r: Vec<(String, String)>)
    ensures
        r@ == v@,
{
    let mut out: Vec<(String, String)> = Vec::new();
    let mut i: usize = 0;
    while i < v.len()
        invariant
            i <= v@.len(),
            out@ == v@.take(i as int),
        decreases v@.len() - i,
    {
        out.push((v[i].0.clone(), v[i].1.clone()));
        proof {
            assert(out@ =~= v@.take(i + 1));
        }
        i = i + 1;
    }
    proof {
        assert(v@.take(v@.len() as int) =~= v@);
        assert(out@ =~= v@);
    }
    out
}

/// The numeric components a valid OID text denotes.
pub open spec fn oid_values(s: Seq<char>) -> Seq<u64> {
    Seq::new(split_dots(trim_dots(s)).len(), |j: int| dec_value(split_dots(trim_dots(s))[j]) as u64)
}

/// The plan a named-OID map yields: one entry per pair whose OID text is
/// valid, carrying the name and the parsed components, in the map's order.
pub open spec fn spec_oid_plan(oids: Seq<(String, String)>) -> Seq<(Seq<char>, Seq<u64>)>
    decreases oids.len(),
{
    if oids.len() == 0 {
        Seq::empty()
    } else {
        spec_oid_plan(oids.drop_last()) + (if oid_ok(oids.last().1@) {
            seq![(oids.last().0@, oid_values(oids.last().1@))]
        } else {
            Seq::empty()
        })
    }
}

/// The named OIDs of a monitor's metric map, parsed: exactly the pairs with
/// a valid OID text, in order; malformed entries are passed over, as a
/// missing value is a warning and never an error.
pub fn plan_custom_oids(oids: &Vec<(String, String)>) -> (out: Vec<(String, Vec<u64>)>)
    ensures
        out@.len() <= oids@.len(),
        out@.map_values(|e: (String, Vec<u64>)| (e.0@, e.1@)) == spec_oid_plan(oids@),
{
    let mut out: Vec<(String, Vec<u64>)> = Vec::new();
    let mut i: usize = 0;
    proof {
        assert(oids@.take(0) =~= Seq::<(String, String)>::empty());
        assert(out@.map_values(|e: (String, Vec<u64>)| (e.0@, e.1@)) =~= spec_oid_plan(
            oids@.take(0),
        ));
    }
    while i < oids.len()
        invariant
            i <= oids@.len(),
            out@.len() <= i,
            out@.map_values(|e: (String, Vec<u64>)| (e.0@, e.1@)) == spec_oid_plan(
                oids@.take(i as int),
            ),
        decreases oids@.len() - i,
    {
        proof {
            assert(oids@.take(i + 1).drop_last() =~= oids@.take(i as int));
            assert(oids@.take(i + 1).last() == oids@[i as int]);
        }
        match parse_oid(oids[i].1.as_str()) {
            Result::Ok(v) => {
                let ghost prev = out@;
                out.push((oids[i].0.clone(), v));
                proof {
                    assert(v@ =~= oid_values(oids@[i as int].1@));
                    assert(out@.map_values(|e: (String, Vec<u64>)| (e.0@, e.1@)) =~= prev.map_values(
                        |e: (String, Vec<u64>)| (e.0@, e.1@),
                    ).push((oids@[i as int].0@, oid_values(oids@[i as int].1@))));
                    assert(out@.map_values(|e: (String, Vec<u64>)| (e.0@, e.1@)) =~= spec_oid_plan(
                        oids@.take(i + 1),
                    ));
                }
            },
            Result::Err(_) => {
                proof {
                    assert(spec_oid_plan(oids@.take(i + 1)) =~= spec_oid_plan(oids@.take(i as int)));
                }
            },
        }
        i = i + 1;
    }
    proof {
        assert(oids@.take(oids@.len() as int) =~= oids@);
    }
    out
}

} // verus!
