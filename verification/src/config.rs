//! The declarative monitor model and the probe registry: a monitor names one
//! service section, and the registry picks the probe for it in a fixed
//! priority order. A monitor with no section is a no-op probe.

use vstd::prelude::*;

verus! {

/// A templated heartbeat target: present on a monitor, it selects the
/// custom-HTTP delivery path regardless of mode.
pub struct HeartbeatConfig {
    pub method: String,
    pub url: String,
    pub headers: Option<Vec<(String, String)>>,
    pub timeout: Option<u64>,
}

pub struct HttpConfig {
    pub method: String,
    pub url: String,
    pub headers: Option<Vec<(String, String)>>,
    pub timeout: Option<u64>,
    pub json_paths: Option<Vec<(String, String)>>,
}

pub struct WsConfig {
    pub url: String,
    pub timeout: Option<u64>,
}

pub struct TcpConfig {
    pub host: String,
    pub port: u16,
    pub timeout: Option<u64>,
}

pub struct UdpConfig {
    pub host: String,
    pub port: u16,
    pub timeout: Option<u64>,
    pub payload: Option<String>,
    pub expect_response: Option<bool>,
}

pub struct IcmpConfig {
    pub host: String,
    pub timeout: Option<u64>,
}

pub struct SmtpConfig {
    pub url: String,
}

pub struct ImapConfig {
    pub server: String,
    pub port: u16,
    pub username: String,
    pub password: String,
}

pub struct MysqlConfig {
    pub url: String,
    pub timeout: Option<u64>,
}

pub struct MssqlConfig {
    pub url: String,
    pub timeout: Option<u64>,
}

pub struct PostgreSqlConfig {
    pub url: String,
    pub timeout: Option<u64>,
    pub use_tls: Option<bool>,
}

pub struct RedisConfig {
    pub url: String,
    pub timeout: Option<u64>,
}

pub struct MinecraftConfig {
    pub host: String,
    pub port: Option<u16>,
    pub timeout: Option<u64>,
}

pub struct SnmpConfig {
    pub host: String,
    pub port: Option<u16>,
    pub timeout: Option<u64>,
    pub version: Option<String>,
    pub community: Option<String>,
    pub username: Option<String>,
    pub auth_password: Option<String>,
    pub auth_protocol: Option<String>,
    pub priv_password: Option<String>,
    pub priv_cipher: Option<String>,
    pub security_level: Option<String>,
    pub oid: Option<String>,
    pub oids: Option<Vec<(String, String)>>,
}

/// One monitor: a declarative description of a periodic probe.
pub struct Monitor {
    pub enabled: bool,
    pub interval: u64,
    pub name: String,
    pub token: Option<String>,
    pub heartbeat: Option<HeartbeatConfig>,
    pub debug: Option<bool>,
    pub http: Option<HttpConfig>,
    pub ws: Option<WsConfig>,
    pub tcp: Option<TcpConfig>,
    pub udp: Option<UdpConfig>,
    pub icmp: Option<IcmpConfig>,
    pub smtp: Option<SmtpConfig>,
    pub imap: Option<ImapConfig>,
    pub mysql: Option<MysqlConfig>,
    pub mssql: Option<MssqlConfig>,
    pub postgresql: Option<PostgreSqlConfig>,
    pub redis: Option<RedisConfig>,
    pub minecraft_java: Option<MinecraftConfig>,
    pub minecraft_bedrock: Option<MinecraftConfig>,
    pub snmp: Option<SnmpConfig>,
}

/// The whole monitor set, with an optional concurrency-cap override.
pub struct Config {
    pub monitors: Vec<Monitor>,
    pub max_concurrent_checks: Option<usize>,
}

/// The service types a monitor can declare, in registry priority order.
#[derive(PartialEq, Eq, Structural, Clone, Copy, Debug)]
pub enum ServiceKind {
    Http,
    Ws,
    Tcp,
    Udp,
    Icmp,
    Smtp,
    Imap,
    Mysql,
    Mssql,
    Postgresql,
    Redis,
    MinecraftJava,
    MinecraftBedrock,
    Snmp,
}

/// The probe a monitor's sections imply: the first non-empty section wins,
/// in the fixed priority order of the registry.
pub open spec fn spec_service_kind(m: Monitor) -> Option<ServiceKind> {
    if m.http is Some {
        Option::Some(ServiceKind::Http)
    } else if m.ws is Some {
        Option::Some(ServiceKind::Ws)
    } else if m.tcp is Some {
        Option::Some(ServiceKind::Tcp)
    } else if m.udp is Some {
        Option::Some(ServiceKind::Udp)
    } else if m.icmp is Some {
        Option::Some(ServiceKind::Icmp)
    } else if m.smtp is Some {
        Option::Some(ServiceKind::Smtp)
    } else if m.imap is Some {
        Option::Some(ServiceKind::Imap)
    } else if m.mysql is Some {
        Option::Some(ServiceKind::Mysql)
    } else if m.mssql is Some {
        Option::Some(ServiceKind::Mssql)
    } else if m.postgresql is Some {
        Option::Some(ServiceKind::Postgresql)
    } else if m.redis is Some {
        Option::Some(ServiceKind::Redis)
    } else if m.minecraft_java is Some {
        Option::Some(ServiceKind::MinecraftJava)
    } else if m.minecraft_bedrock is Some {
        Option::Some(ServiceKind::MinecraftBedrock)
    } else if m.snmp is Some {
        Option::Some(ServiceKind::Snmp)
    } else {
        Option::None
    }
}

/// Select the probe for a monitor. `None` means the probe is a no-op that
/// yields an empty result.
pub fn service_kind(m: &Monitor) -> (r: Option<ServiceKind>)
    ensures
        r == spec_service_kind(*m),
{
    if m.http.is_some() {
        Option::Some(ServiceKind::Http)
    } else if m.ws.is_some() {
        Option::Some(ServiceKind::Ws)
    } else if m.tcp.is_some() {
        Option::Some(ServiceKind::Tcp)
    } else if m.udp.is_some() {
        Option::Some(ServiceKind::Udp)
    } else if m.icmp.is_some() {
        Option::Some(ServiceKind::Icmp)
    } else if m.smtp.is_some() {
        Option::Some(ServiceKind::Smtp)
    } else if m.imap.is_some() {
        Option::Some(ServiceKind::Imap)
    } else if m.mysql.is_some() {
        Option::Some(ServiceKind::Mysql)
    } else if m.mssql.is_some() {
        Option::Some(ServiceKind::Mssql)
    } else if m.postgresql.is_some() {
        Option::Some(ServiceKind::Postgresql)
    } else if m.redis.is_some() {
        Option::Some(ServiceKind::Redis)
    } else if m.minecraft_java.is_some() {
        Option::Some(ServiceKind::MinecraftJava)
    } else if m.minecraft_bedrock.is_some() {
        Option::Some(ServiceKind::MinecraftBedrock)
    } else if m.snmp.is_some() {
        Option::Some(ServiceKind::Snmp)
    } else {
        Option::None
    }
}

/// The scheduling key: the token when present, else the name.
pub open spec fn spec_scheduling_key(m: Monitor) -> Seq<char> {
    match m.token {
        Option::Some(t) => t@,
        Option::None => m.name@,
    }
}

/// The key a monitor is scheduled under, unique within a configuration.
pub fn scheduling_key(m: &Monitor) -> (r: String)
    ensures
        r@ == spec_scheduling_key(*m),
{
    match &m.token {
        Option::Some(t) => t.clone(),
        Option::None => m.name.clone(),
    }
}

/// The probe timeout in seconds: the section's own when set, else 10 for
/// HTTP and 3 for every other type.
pub open spec fn spec_probe_timeout(m: Monitor) -> u64 {
    match spec_service_kind(m) {
        Option::Some(ServiceKind::Http) => match m.http {
            Option::Some(c) => c.timeout.unwrap_or(10),
            Option::None => 10,
        },
        Option::Some(ServiceKind::Ws) => timeout_or_3(m.ws->Some_0.timeout),
        Option::Some(ServiceKind::Tcp) => timeout_or_3(m.tcp->Some_0.timeout),
        Option::Some(ServiceKind::Udp) => timeout_or_3(m.udp->Some_0.timeout),
        Option::Some(ServiceKind::Icmp) => timeout_or_3(m.icmp->Some_0.timeout),
        Option::Some(ServiceKind::Smtp) => 3,
        Option::Some(ServiceKind::Imap) => 3,
        Option::Some(ServiceKind::Mysql) => timeout_or_3(m.mysql->Some_0.timeout),
        Option::Some(ServiceKind::Mssql) => timeout_or_3(m.mssql->Some_0.timeout),
        Option::Some(ServiceKind::Postgresql) => timeout_or_3(m.postgresql->Some_0.timeout),
        Option::Some(ServiceKind::Redis) => timeout_or_3(m.redis->Some_0.timeout),
        Option::Some(ServiceKind::MinecraftJava) => timeout_or_3(m.minecraft_java->Some_0.timeout),
        Option::Some(ServiceKind::MinecraftBedrock) => timeout_or_3(
            m.minecraft_bedrock->Some_0.timeout,
        ),
        Option::Some(ServiceKind::Snmp) => timeout_or_3(m.snmp->Some_0.timeout),
        Option::None => 3,
    }
}

pub open spec fn timeout_or_3(t: Option<u64>) -> u64 {
    t.unwrap_or(3)
}

fn opt_timeout_or(t: &Option<u64>, dflt: u64) -> (r: u64)
    ensures
        r == t.unwrap_or(dflt),
{
    match t {
        Option::Some(v) => *v,
        Option::None => dflt,
    }
}

/// The timeout the selected probe runs under.
pub fn probe_timeout(m: &Monitor) -> (r: u64)
    ensures
        r == spec_probe_timeout(*m),
{
    match service_kind(m) {
        Option::Some(ServiceKind::Http) => match &m.http {
            Option::Some(c) => opt_timeout_or(&c.timeout, 10),
            Option::None => 10,
        },
        Option::Some(ServiceKind::Ws) => opt_timeout_or(&m.ws.as_ref().unwrap().timeout, 3),
        Option::Some(ServiceKind::Tcp) => opt_timeout_or(&m.tcp.as_ref().unwrap().timeout, 3),
        Option::Some(ServiceKind::Udp) => opt_timeout_or(&m.udp.as_ref().unwrap().timeout, 3),
        Option::Some(ServiceKind::Icmp) => opt_timeout_or(&m.icmp.as_ref().unwrap().timeout, 3),
        Option::Some(ServiceKind::Smtp) => 3,
        Option::Some(ServiceKind::Imap) => 3,
        Option::Some(ServiceKind::Mysql) => opt_timeout_or(&m.mysql.as_ref().unwrap().timeout, 3),
        Option::Some(ServiceKind::Mssql) => opt_timeout_or(&m.mssql.as_ref().unwrap().timeout, 3),
        Option::Some(ServiceKind::Postgresql) => opt_timeout_or(
            &m.postgresql.as_ref().unwrap().timeout,
            3,
        ),
        Option::Some(ServiceKind::Redis) => opt_timeout_or(&m.redis.as_ref().unwrap().timeout, 3),
        Option::Some(ServiceKind::MinecraftJava) => opt_timeout_or(
            &m.minecraft_java.as_ref().unwrap().timeout,
            3,
        ),
        Option::Some(ServiceKind::MinecraftBedrock) => opt_timeout_or(
            &m.minecraft_bedrock.as_ref().unwrap().timeout,
            3,
        ),
        Option::Some(ServiceKind::Snmp) => opt_timeout_or(&m.snmp.as_ref().unwrap().timeout, 3),
        Option::None => 3,
    }
}

/// The scheduler's concurrency cap: the configured value when present, else
/// an override handed in (from the environment), else 5000.
pub fn resolve_max_concurrent(configured: Option<usize>, env_override: Option<usize>) -> (r: usize)
    ensures
        r == match configured {
            Option::Some(v) => v,
            Option::None => match env_override {
                Option::Some(v) => v,
                Option::None => 5000usize,
            },
        },
{
    match configured {
        Option::Some(v) => v,
        Option::None => match env_override {
            Option::Some(v) => v,
            Option::None => 5000,
        },
    }
}

} // verus!
