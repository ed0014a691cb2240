//! Configuration of the broker, layered from defaults, a JSON file, environment
//! variables and command-line flags, each overriding the ones before.

use vstd::prelude::*;
use vstd::string::StringExecFns;
use crate::bridge::{
    bridges_fault, bridges_member, parse_bridges, BridgeConfig, BridgeConfigView,
};
use crate::error::{MqttError, Result};
use crate::json;
use crate::json::{Json, JsonView};
use crate::text;
use crate::text::{chars_are, chars_of, concat, string_of};
use crate::types::QoS;

verus! {

broadcast use text::group_views;

/// Version of the broker.
pub const VERSION: &'static str = "0.9.2";

/// A value that is not to be shown in logs and messages. It is read with
/// [`Secret::expose`].
pub struct Secret {
    value: String,
}

impl View for Secret {
    type V = Seq<char>;

    closed spec fn view(&self) -> Seq<char> {
        self.value@
    }
}

impl Secret {
    pub fn new(value: String) -> (r: Self)
        ensures
            r@ == value@,
    {
        Secret { value }
    }

    /// The value itself.
    pub fn expose(&self) -> (r: &str)
        ensures
            r@ == self@,
    {
        self.value.as_str()
    }

    /// What is shown in place of the value.
    pub fn shown(&self) -> (r: String)
        ensures
            r@ == "<redacted>"@,
    {
        "<redacted>".to_owned()
    }
}

impl Clone for Secret {
    fn clone(&self) -> (r: Self)
        ensures
            r@ == self@,
    {
        Secret { value: self.value.clone() }
    }
}

/// HTTP headers sent with every export request, in the order in which they
/// were written. Their values are credentials.
pub struct OtlpHeaders {
    pairs: Vec<(String, Secret)>,
}

spec fn header_views(s: Seq<(String, Secret)>) -> Seq<(Seq<char>, Seq<char>)> {
    Seq::new(s.len(), |i: int| (s[i].0@, s[i].1@))
}

impl View for OtlpHeaders {
    type V = Seq<(Seq<char>, Seq<char>)>;

    closed spec fn view(&self) -> Seq<(Seq<char>, Seq<char>)> {
        header_views(self.pairs@)
    }
}

impl OtlpHeaders {
    /// No headers.
    pub fn new() -> (r: Self)
        ensures
            r@ == Seq::<(Seq<char>, Seq<char>)>::empty(),
    {
        let r: OtlpHeaders = OtlpHeaders { pairs: Vec::new() };
        assert(r@ =~= Seq::empty());
        r
    }

    pub fn is_empty(&self) -> (r: bool)
        ensures
            r == (self@.len() == 0),
    {
        self.pairs.len() == 0
    }

    /// Headers of names and values.
    pub fn from_pairs(pairs: Vec<(String, String)>) -> (r: Self)
        ensures
            r@ == text::pair_views(pairs@),
    {
        let mut out: Vec<(String, Secret)> = Vec::new();
        let ghost all = text::pair_views(pairs@);
        let mut i: usize = 0;
        assert(header_views(out@) =~= all.take(0));
        while i < pairs.len()
            invariant
                i <= pairs.len(),
                all == text::pair_views(pairs@),
                header_views(out@) == all.take(i as int),
            decreases pairs.len() - i,
        {
            let ghost before = out@;
            out.push((pairs[i].0.clone(), Secret::new(pairs[i].1.clone())));
            assert(header_views(out@) =~= header_views(before).push(all[i as int]));
            assert(all.take(i + 1) =~= all.take(i as int).push(all[i as int]));
            i = i + 1;
        }
        assert(all.take(all.len() as int) =~= all);
        OtlpHeaders { pairs: out }
    }

    /// The names and values.
    pub fn iter(&self) -> (r: Vec<(String, String)>)
        ensures
            text::pair_views(r@) == self@,
    {
        let mut out: Vec<(String, String)> = Vec::new();
        let ghost all = self@;
        let mut i: usize = 0;
        assert(text::pair_views(out@) =~= all.take(0));
        while i < self.pairs.len()
            invariant
                i <= self.pairs.len(),
                all == header_views(self.pairs@),
                text::pair_views(out@) == all.take(i as int),
            decreases self.pairs.len() - i,
        {
            let ghost before = out@;
            out.push((self.pairs[i].0.clone(), self.pairs[i].1.expose().to_owned()));
            assert(text::pair_views(out@) =~= text::pair_views(before).push(all[i as int]));
            assert(all.take(i + 1) =~= all.take(i as int).push(all[i as int]));
            i = i + 1;
        }
        assert(all.take(all.len() as int) =~= all);
        out
    }

    /// What is shown of the headers: their names, without the values.
    pub fn shown(&self) -> (r: String)
        ensures
            r@ == shown_headers(self@),
    {
        let ghost all = self@;
        let mut s: String = String::new();
        let mut i: usize = 0;
        assert(all.take(0) =~= Seq::empty());
        assert(s@ =~= shown_headers(all.take(0)));
        while i < self.pairs.len()
            invariant
                i <= self.pairs.len(),
                all == header_views(self.pairs@),
                s@ == shown_headers(all.take(i as int)),
            decreases self.pairs.len() - i,
        {
            assert(all.take(i + 1).drop_last() =~= all.take(i as int));
            assert(all.take(i + 1).last() == (self.pairs@[i as int].0@, self.pairs@[i as int].1@));
            let ghost before = s@;
            s.append(self.pairs[i].0.as_str());
            s.append(": <redacted>\n");
            assert(s@ =~= before + (self.pairs@[i as int].0@ + ": <redacted>\n"@));
            i = i + 1;
        }
        assert(all.take(all.len() as int) =~= all);
        s
    }

    /// Parses texts `NAME=VALUE`. Blank ones are passed over; one without a
    /// name is an error, because a header that is silently left out looks like
    /// a refused credential at the receiver.
    pub fn parse_pairs(pairs: &[&str]) -> (r: Result<Self>)
        ensures
            match r {
                Ok(h) => headers_of(text::views(pairs@)) == Some(h@) && headers_fault(
                    text::views(pairs@),
                ) is None,
                Err(e) => headers_of(text::views(pairs@)) is None && (e matches MqttError::Config(m)
                    && headers_fault(text::views(pairs@)) == Some(m@)),
            },
    {
        let ghost all = text::views(pairs@);
        let mut out: Vec<(String, Secret)> = Vec::new();
        let mut i: usize = 0;
        assert(all.take(0) =~= Seq::empty());
        assert(header_views(out@) =~= Seq::empty());
        while i < pairs.len()
            invariant
                i <= pairs@.len(),
                all == text::views(pairs@),
                headers_of(all.take(i as int)) == Some(header_views(out@)),
                headers_fault(all.take(i as int)) is None,
            decreases pairs@.len() - i,
        {
            proof {
                text::lemma_first_fault(all, header_faults(), i as int);
            }
            assert(all.take(i + 1).drop_last() =~= all.take(i as int));
            assert(all.take(i + 1).last() == pairs@[i as int]@);
            let ghost before = out@;
            match parse_header(pairs[i]) {
                Ok(Some((name, value))) => {
                    out.push((name, Secret::new(value)));
                    assert(header_views(out@) =~= header_views(before).push((name@, value@)));
                },
                Ok(None) => {},
                Err(e) => {
                    proof {
                        lemma_headers_prefix(all, i + 1);
                    }
                    return Err(e);
                },
            }
            i = i + 1;
        }
        assert(all.take(all.len() as int) =~= all);
        Ok(OtlpHeaders { pairs: out })
    }
}

/// What is shown of headers.
pub open spec fn shown_headers(s: Seq<(Seq<char>, Seq<char>)>) -> Seq<char>
    decreases s.len(),
{
    if s.len() == 0 {
        Seq::empty()
    } else {
        shown_headers(s.drop_last()) + (s.last().0 + ": <redacted>\n"@)
    }
}

/// What is shown of headers depends on their names alone.
pub proof fn shown_headers_hide_values(a: Seq<(Seq<char>, Seq<char>)>, b: Seq<(Seq<char>, Seq<char>)>)
    requires
        a.len() == b.len(),
        forall|i: int| 0 <= i < a.len() ==> (#[trigger] a[i]).0 == (#[trigger] b[i]).0,
    ensures
        shown_headers(a) == shown_headers(b),
    decreases a.len(),
{
    if a.len() > 0 {
        let x = a.drop_last();
        let y = b.drop_last();
        assert forall|i: int| 0 <= i < x.len() implies (#[trigger] x[i]).0 == (#[trigger] y[i]).0 by {
            assert(a[i].0 == b[i].0);
        }
        shown_headers_hide_values(x, y);
        assert(a[a.len() - 1].0 == b[a.len() - 1].0);
    }
}

/// The header of a text `NAME=VALUE`: none where it is blank, an error where it
/// has no name.
pub open spec fn header_of(pair: Seq<char>) -> Option<Option<(Seq<char>, Seq<char>)>> {
    let p = text::trim(pair);
    if p.len() == 0 {
        Some(None)
    } else {
        match text::split_once(p, '=') {
            None => None,
            Some((name, value)) => if text::trim(name).len() == 0 {
                None
            } else {
                Some(Some((text::trim(name), text::trim(value))))
            },
        }
    }
}

/// What is wrong with a text `NAME=VALUE`.
pub open spec fn header_fault(pair: Seq<char>) -> Option<Seq<char>> {
    let p = text::trim(pair);
    if p.len() == 0 {
        None
    } else {
        match text::split_once(p, '=') {
            None => Some("otlp header: expected NAME=VALUE"@),
            Some((name, _)) => if text::trim(name).len() == 0 {
                Some("otlp header: the header name is empty"@)
            } else {
                None
            },
        }
    }
}

/// What is wrong with texts `NAME=VALUE`.
pub open spec fn header_faults() -> spec_fn(int, Seq<char>) -> Option<Seq<char>> {
    |i: int, pair: Seq<char>| header_fault(pair)
}

/// What is wrong with the first wrong one of texts `NAME=VALUE`.
pub open spec fn headers_fault(pairs: Seq<Seq<char>>) -> Option<Seq<char>> {
    text::first_fault(pairs, header_faults())
}

/// The headers of texts `NAME=VALUE`, or `None` where one is wrong.
pub open spec fn headers_of(pairs: Seq<Seq<char>>) -> Option<Seq<(Seq<char>, Seq<char>)>>
    decreases pairs.len(),
{
    if pairs.len() == 0 {
        Some(Seq::empty())
    } else {
        match (headers_of(pairs.drop_last()), header_of(pairs.last())) {
            (Some(before), Some(Some(h))) => Some(before.push(h)),
            (Some(before), Some(None)) => Some(before),
            _ => None,
        }
    }
}

proof fn lemma_headers_prefix(pairs: Seq<Seq<char>>, n: int)
    requires
        0 <= n <= pairs.len(),
        headers_of(pairs.take(n)) is None,
    ensures
        headers_of(pairs) is None,
    decreases pairs.len() - n,
{
    if n == pairs.len() {
        assert(pairs.take(n) =~= pairs);
    } else {
        assert(pairs.take(n + 1).drop_last() =~= pairs.take(n));
        lemma_headers_prefix(pairs, n + 1);
    }
}

/// Parses a text `NAME=VALUE`.
fn parse_header(pair: &str) -> (r: Result<Option<(String, String)>>)
    ensures
        match r {
            Ok(Some(h)) => header_of(pair@) == Some(Some((h.0@, h.1@))),
            Ok(None) => header_of(pair@) == Some(None::<(Seq<char>, Seq<char>)>),
            Err(e) => header_of(pair@) is None && (e matches MqttError::Config(m) && header_fault(
                pair@,
            ) == Some(m@)),
        },
{
    let c: Vec<char> = chars_of(pair);
    let p: Vec<char> = text::trim_chars(c.as_slice());
    if p.len() == 0 {
        return Ok(None);
    }
    match text::split_once_chars(p.as_slice(), '=') {
        None => Err(MqttError::Config("otlp header: expected NAME=VALUE".to_owned())),
        Some((name, value)) => {
            let name: Vec<char> = text::trim_chars(name.as_slice());
            let value: Vec<char> = text::trim_chars(value.as_slice());
            if name.len() == 0 {
                return Err(
                    MqttError::Config("otlp header: the header name is empty".to_owned()),
                );
            }
            Ok(Some((string_of(name.as_slice()), string_of(value.as_slice()))))
        },
    }
}

/// The header of a command-line flag `NAME=VALUE`.
pub fn header_flag(v: &str) -> (r: core::result::Result<(String, String), String>)
    ensures
        match r {
            Ok(h) => text::split_once(v@, '=') matches Some((name, value)) && text::trim(name).len()
                > 0 && h.0@ == text::trim(name) && h.1@ == text::trim(value),
            Err(m) => match text::split_once(v@, '=') {
                Some((name, _)) => text::trim(name).len() == 0 && m@ == "the header name is empty"@,
                None => m@ == "expected NAME=VALUE"@,
            },
        },
{
    let c: Vec<char> = chars_of(v);
    match text::split_once_chars(c.as_slice(), '=') {
        None => Err("expected NAME=VALUE".to_owned()),
        Some((name, value)) => {
            let name: Vec<char> = text::trim_chars(name.as_slice());
            let value: Vec<char> = text::trim_chars(value.as_slice());
            if name.len() == 0 {
                return Err("the header name is empty".to_owned());
            }
            Ok((string_of(name.as_slice()), string_of(value.as_slice())))
        },
    }
}

/// The QoS level of a text.
pub open spec fn qos_of_text(v: Seq<char>) -> Option<QoS> {
    match text::parsed_number(text::trim(v), 255) {
        Some(n) => QoS::of_code(n as u8),
        None => None,
    }
}

/// The QoS level of a text: 0, 1 or 2.
pub fn parse_qos_value(v: &str) -> (r: Option<QoS>)
    ensures
        r == qos_of_text(v@),
{
    let c: Vec<char> = chars_of(v);
    let t: Vec<char> = text::trim_chars(c.as_slice());
    match text::parse_number(t.as_slice(), 255) {
        Some(n) => match QoS::from_u8(n as u8) {
            Ok(q) => Some(q),
            Err(_) => None,
        },
        None => None,
    }
}

/// The truth value of a text.
pub open spec fn flag_of_text(v: Seq<char>) -> Option<bool> {
    let t = text::lower(text::trim(v));
    if t == "true"@ || t == "1"@ || t == "yes"@ || t == "on"@ {
        Some(true)
    } else if t == "false"@ || t == "0"@ || t == "no"@ || t == "off"@ {
        Some(false)
    } else {
        None
    }
}

/// The truth value of a text, in its usual spellings.
pub fn parse_bool_value(v: &str) -> (r: Option<bool>)
    ensures
        r == flag_of_text(v@),
{
    let c: Vec<char> = chars_of(v);
    let t: Vec<char> = text::trim_chars(c.as_slice());
    let t: Vec<char> = text::lower_chars(t.as_slice());
    let t: &[char] = t.as_slice();
    if chars_are(t, "true") || chars_are(t, "1") || chars_are(t, "yes") || chars_are(t, "on") {
        Some(true)
    } else if chars_are(t, "false") || chars_are(t, "0") || chars_are(t, "no") || chars_are(
        t,
        "off",
    ) {
        Some(false)
    } else {
        None
    }
}

/// Whether a text names a transport that telemetry can be exported with.
pub open spec fn is_otlp_protocol(v: Seq<char>) -> bool {
    let t = text::lower(text::trim(v));
    t == "http"@ || t == "http/protobuf"@ || t == "http-proto"@
}

/// What is said where the transport is the one that is not built in.
pub open spec fn grpc_message() -> Seq<char> {
    "otlp_protocol: this build speaks OTLP over HTTP/protobuf only; point otlp_endpoint at the collector's HTTP port (4318) and set otlp_protocol to \"http\""@
}

/// What is said of a transport that telemetry cannot be exported with.
pub open spec fn otlp_protocol_fault(v: Seq<char>) -> Seq<char> {
    let t = text::lower(text::trim(v));
    if t == "grpc"@ {
        grpc_message()
    } else {
        "otlp_protocol: unknown protocol "@ + text::quoted(t) + " (expected \"http\")"@
    }
}

/// Checks the transport that telemetry is exported with.
pub fn check_otlp_protocol(v: &str) -> (r: Result<()>)
    ensures
        match r {
            Ok(_) => is_otlp_protocol(v@),
            Err(e) => !is_otlp_protocol(v@) && e.says_config(otlp_protocol_fault(v@)),
        },
{
    let c: Vec<char> = chars_of(v);
    let t: Vec<char> = text::trim_chars(c.as_slice());
    let t: Vec<char> = text::lower_chars(t.as_slice());
    if chars_are(t.as_slice(), "http") || chars_are(t.as_slice(), "http/protobuf") || chars_are(
        t.as_slice(),
        "http-proto",
    ) {
        return Ok(());
    }
    if chars_are(t.as_slice(), "grpc") {
        return Err(
            MqttError::Config(
                "otlp_protocol: this build speaks OTLP over HTTP/protobuf only; point otlp_endpoint at the collector's HTTP port (4318) and set otlp_protocol to \"http\"".to_owned(),
            ),
        );
    }
    let other: String = text::quote(string_of(t.as_slice()).as_str());
    Err(
        MqttError::Config(
            text::concat3(
                "otlp_protocol: unknown protocol ",
                other.as_str(),
                " (expected \"http\")",
            ),
        ),
    )
}

/// The configuration of the broker. Socket addresses are kept as they were written.
pub struct Config {
    /// Address that the MQTT listener binds to.
    pub listen_addr: String,
    /// Address of a second MQTT listener that speaks TLS, beside the plain one.
    pub tls_listen_addr: Option<String>,
    /// Address that the admin server (health, metrics, MCP) binds to.
    pub admin_addr: String,
    /// Bearer token that the protected admin endpoints ask for. Without one they
    /// ask for nothing.
    pub admin_token: Option<Secret>,
    /// PEM certificate chain for TLS on the MQTT port.
    pub tls_cert: Option<String>,
    /// PEM private key for TLS on the MQTT port.
    pub tls_key: Option<String>,
    /// PEM CA bundle that client certificates on the MQTT port are verified with;
    /// with it clients must present one.
    pub tls_client_ca: Option<String>,
    /// Address of the WebSocket listener; without one there is none.
    pub ws_listen_addr: Option<String>,
    /// Address of a second WebSocket listener that speaks TLS.
    pub ws_tls_listen_addr: Option<String>,
    /// PEM certificate chain for TLS on the WebSocket port.
    pub ws_tls_cert: Option<String>,
    /// PEM private key for TLS on the WebSocket port.
    pub ws_tls_key: Option<String>,
    /// PEM CA bundle for client certificates on the WebSocket port.
    pub ws_tls_client_ca: Option<String>,
    /// PEM certificate chain for TLS on the admin port.
    pub admin_tls_cert: Option<String>,
    /// PEM private key for TLS on the admin port.
    pub admin_tls_key: Option<String>,
    /// PEM CA bundle for client certificates on the admin port.
    pub admin_tls_client_ca: Option<String>,
    /// Path of the policy file; without one everything is permitted.
    pub acl_path: Option<String>,
    /// Path of the password file; with one clients must authenticate, unless
    /// `allow_anonymous`.
    pub password_file: Option<String>,
    /// Whether a client that presents no credentials may connect all the same.
    pub allow_anonymous: bool,
    /// Path of the database file.
    pub db_path: String,
    /// Largest packet that the server accepts.
    pub max_packet_size: u32,
    /// How many QoS 1 and 2 publications the server accepts from a client at a
    /// time.
    pub receive_maximum: u16,
    /// Highest QoS that the server supports.
    pub maximum_qos: QoS,
    /// Whether retained messages are supported.
    pub retain_available: bool,
    /// Highest topic alias that clients may use.
    pub topic_alias_maximum: u16,
    /// Keep alive in seconds that replaces the client's, if set.
    pub server_keep_alive: Option<u16>,
    /// Longest time in seconds that a session is kept.
    pub max_session_expiry: u32,
    /// How many messages are held for an offline session (0: no bound).
    pub max_queued_messages: u32,
    /// How many connections one source may open within a window (0: no bound).
    pub max_connections_per_ip: u32,
    /// Length of that window in seconds.
    pub connection_rate_window_secs: u32,
    /// How often in seconds the status topics are published (0: never).
    pub sys_interval: u32,
    /// Bridges to remote brokers.
    pub bridges: Vec<BridgeConfig>,
    /// Whether Home Assistant discovery topics are published.
    pub ha_discovery: bool,
    /// Prefix of the Home Assistant discovery topics.
    pub ha_discovery_prefix: String,
    /// Base URL of the OTLP collector; without one nothing is exported.
    pub otlp_endpoint: Option<String>,
    /// OTLP transport.
    pub otlp_protocol: String,
    /// Headers sent with every export request.
    pub otlp_headers: OtlpHeaders,
    /// How often in seconds metrics are exported.
    pub otlp_interval: u32,
    /// Whether metrics are exported.
    pub otlp_metrics: bool,
    /// Whether logs are exported.
    pub otlp_logs: bool,
    /// Name of the service in exported telemetry.
    pub service_name: String,
    /// Path of the configuration file that was read, if there was one.
    pub config_file: Option<String>,
}

/// What a configuration says.
pub struct ConfigView {
    pub listen_addr: Seq<char>,
    pub tls_listen_addr: Option<Seq<char>>,
    pub admin_addr: Seq<char>,
    pub admin_token: Option<Seq<char>>,
    pub tls_cert: Option<Seq<char>>,
    pub tls_key: Option<Seq<char>>,
    pub tls_client_ca: Option<Seq<char>>,
    pub ws_listen_addr: Option<Seq<char>>,
    pub ws_tls_listen_addr: Option<Seq<char>>,
    pub ws_tls_cert: Option<Seq<char>>,
    pub ws_tls_key: Option<Seq<char>>,
    pub ws_tls_client_ca: Option<Seq<char>>,
    pub admin_tls_cert: Option<Seq<char>>,
    pub admin_tls_key: Option<Seq<char>>,
    pub admin_tls_client_ca: Option<Seq<char>>,
    pub acl_path: Option<Seq<char>>,
    pub password_file: Option<Seq<char>>,
    pub allow_anonymous: bool,
    pub db_path: Seq<char>,
    pub max_packet_size: u32,
    pub receive_maximum: u16,
    pub maximum_qos: QoS,
    pub retain_available: bool,
    pub topic_alias_maximum: u16,
    pub server_keep_alive: Option<u16>,
    pub max_session_expiry: u32,
    pub max_queued_messages: u32,
    pub max_connections_per_ip: u32,
    pub connection_rate_window_secs: u32,
    pub sys_interval: u32,
    pub bridges: Seq<BridgeConfigView>,
    pub ha_discovery: bool,
    pub ha_discovery_prefix: Seq<char>,
    pub otlp_endpoint: Option<Seq<char>>,
    pub otlp_protocol: Seq<char>,
    pub otlp_headers: Seq<(Seq<char>, Seq<char>)>,
    pub otlp_interval: u32,
    pub otlp_metrics: bool,
    pub otlp_logs: bool,
    pub service_name: Seq<char>,
    pub config_file: Option<Seq<char>>,
}

impl View for Config {
    type V = ConfigView;

    open spec fn view(&self) -> ConfigView {
        ConfigView {
            listen_addr: self.listen_addr@,
            tls_listen_addr: text::opt_view(self.tls_listen_addr),
            admin_addr: self.admin_addr@,
            admin_token: text::opt_view(self.admin_token),
            tls_cert: text::opt_view(self.tls_cert),
            tls_key: text::opt_view(self.tls_key),
            tls_client_ca: text::opt_view(self.tls_client_ca),
            ws_listen_addr: text::opt_view(self.ws_listen_addr),
            ws_tls_listen_addr: text::opt_view(self.ws_tls_listen_addr),
            ws_tls_cert: text::opt_view(self.ws_tls_cert),
            ws_tls_key: text::opt_view(self.ws_tls_key),
            ws_tls_client_ca: text::opt_view(self.ws_tls_client_ca),
            admin_tls_cert: text::opt_view(self.admin_tls_cert),
            admin_tls_key: text::opt_view(self.admin_tls_key),
            admin_tls_client_ca: text::opt_view(self.admin_tls_client_ca),
            acl_path: text::opt_view(self.acl_path),
            password_file: text::opt_view(self.password_file),
            allow_anonymous: self.allow_anonymous,
            db_path: self.db_path@,
            max_packet_size: self.max_packet_size,
            receive_maximum: self.receive_maximum,
            maximum_qos: self.maximum_qos,
            retain_available: self.retain_available,
            topic_alias_maximum: self.topic_alias_maximum,
            server_keep_alive: self.server_keep_alive,
            max_session_expiry: self.max_session_expiry,
            max_queued_messages: self.max_queued_messages,
            max_connections_per_ip: self.max_connections_per_ip,
            connection_rate_window_secs: self.connection_rate_window_secs,
            sys_interval: self.sys_interval,
            bridges: text::views(self.bridges@),
            ha_discovery: self.ha_discovery,
            ha_discovery_prefix: self.ha_discovery_prefix@,
            otlp_endpoint: text::opt_view(self.otlp_endpoint),
            otlp_protocol: self.otlp_protocol@,
            otlp_headers: self.otlp_headers@,
            otlp_interval: self.otlp_interval,
            otlp_metrics: self.otlp_metrics,
            otlp_logs: self.otlp_logs,
            service_name: self.service_name@,
            config_file: text::opt_view(self.config_file),
        }
    }
}

impl ConfigView {
    /// The configuration when nothing is configured.
    pub open spec fn defaults() -> ConfigView {
        ConfigView {
            listen_addr: "0.0.0.0:1883"@,
            tls_listen_addr: None,
            admin_addr: "127.0.0.1:9001"@,
            admin_token: None,
            tls_cert: None,
            tls_key: None,
            tls_client_ca: None,
            ws_listen_addr: None,
            ws_tls_listen_addr: None,
            ws_tls_cert: None,
            ws_tls_key: None,
            ws_tls_client_ca: None,
            admin_tls_cert: None,
            admin_tls_key: None,
            admin_tls_client_ca: None,
            acl_path: None,
            password_file: None,
            allow_anonymous: false,
            db_path: "mqtt_broker.db"@,
            max_packet_size: 1_048_576,
            receive_maximum: 64,
            maximum_qos: QoS::ExactlyOnce,
            retain_available: true,
            topic_alias_maximum: 16,
            server_keep_alive: None,
            max_session_expiry: 3600,
            max_queued_messages: 1000,
            max_connections_per_ip: 0,
            connection_rate_window_secs: 10,
            sys_interval: 10,
            bridges: Seq::empty(),
            ha_discovery: false,
            ha_discovery_prefix: "homeassistant"@,
            otlp_endpoint: None,
            otlp_protocol: "http"@,
            otlp_headers: Seq::empty(),
            otlp_interval: 60,
            otlp_metrics: true,
            otlp_logs: true,
            service_name: "pulsemq"@,
            config_file: None,
        }
    }
}

impl Default for Config {
    fn default() -> (r: Self)
        ensures
            r@ == ConfigView::defaults(),
    {
        let r: Config = Config {
            listen_addr: "0.0.0.0:1883".to_owned(),
            tls_listen_addr: None,
            admin_addr: "127.0.0.1:9001".to_owned(),
            admin_token: None,
            tls_cert: None,
            tls_key: None,
            tls_client_ca: None,
            ws_listen_addr: None,
            ws_tls_listen_addr: None,
            ws_tls_cert: None,
            ws_tls_key: None,
            ws_tls_client_ca: None,
            admin_tls_cert: None,
            admin_tls_key: None,
            admin_tls_client_ca: None,
            acl_path: None,
            password_file: None,
            allow_anonymous: false,
            db_path: "mqtt_broker.db".to_owned(),
            max_packet_size: 1_048_576,
            receive_maximum: 64,
            maximum_qos: QoS::ExactlyOnce,
            retain_available: true,
            topic_alias_maximum: 16,
            server_keep_alive: None,
            max_session_expiry: 3600,
            max_queued_messages: 1000,
            max_connections_per_ip: 0,
            connection_rate_window_secs: 10,
            sys_interval: 10,
            bridges: Vec::new(),
            ha_discovery: false,
            ha_discovery_prefix: "homeassistant".to_owned(),
            otlp_endpoint: None,
            otlp_protocol: "http".to_owned(),
            otlp_headers: OtlpHeaders::new(),
            otlp_interval: 60,
            otlp_metrics: true,
            otlp_logs: true,
            service_name: "pulsemq".to_owned(),
            config_file: None,
        };
        assert(r@.bridges =~= Seq::empty());
        r
    }
}

/// The options that are set one by one.
#[derive(Debug, Clone, Copy, PartialEq, Eq, Structural)]
pub enum Setting {
    ListenAddr,
    AdminAddr,
    WsListenAddr,
    AdminToken,
    TlsCert,
    TlsKey,
    TlsClientCa,
    WsTlsCert,
    WsTlsKey,
    WsTlsClientCa,
    AdminTlsCert,
    AdminTlsKey,
    AdminTlsClientCa,
    AclPath,
    PasswordFile,
    AllowAnonymous,
    DbPath,
    MaxPacketSize,
    MaxSessionExpiry,
    MaxQueuedMessages,
    MaxConnectionsPerIp,
    ConnectionRateWindowSecs,
    SysInterval,
    ReceiveMaximum,
    TopicAliasMaximum,
    ServerKeepAlive,
    MaximumQos,
    RetainAvailable,
    OtlpEndpoint,
    OtlpProtocol,
    ServiceName,
    OtlpInterval,
    OtlpMetrics,
    OtlpLogs,
    HaDiscovery,
    HaDiscoveryPrefix,
}

/// What the value of an option is.
#[derive(Debug, Clone, Copy, PartialEq, Eq, Structural)]
pub enum SettingKind {
    /// A socket address, as it is written.
    Address,
    Text,
    Flag,
    Num32,
    Num16,
    Level,
}

/// How many options are set one by one.
pub const SETTINGS: usize = 36;

/// The options in the order in which they are set.
pub open spec fn setting(k: int) -> Setting {
    if k == 0 {
        Setting::ListenAddr
    } else if k == 1 {
        Setting::AdminAddr
    } else if k == 2 {
        Setting::WsListenAddr
    } else if k == 3 {
        Setting::AdminToken
    } else if k == 4 {
        Setting::TlsCert
    } else if k == 5 {
        Setting::TlsKey
    } else if k == 6 {
        Setting::TlsClientCa
    } else if k == 7 {
        Setting::WsTlsCert
    } else if k == 8 {
        Setting::WsTlsKey
    } else if k == 9 {
        Setting::WsTlsClientCa
    } else if k == 10 {
        Setting::AdminTlsCert
    } else if k == 11 {
        Setting::AdminTlsKey
    } else if k == 12 {
        Setting::AdminTlsClientCa
    } else if k == 13 {
        Setting::AclPath
    } else if k == 14 {
        Setting::PasswordFile
    } else if k == 15 {
        Setting::AllowAnonymous
    } else if k == 16 {
        Setting::DbPath
    } else if k == 17 {
        Setting::MaxPacketSize
    } else if k == 18 {
        Setting::MaxSessionExpiry
    } else if k == 19 {
        Setting::MaxQueuedMessages
    } else if k == 20 {
        Setting::MaxConnectionsPerIp
    } else if k == 21 {
        Setting::ConnectionRateWindowSecs
    } else if k == 22 {
        Setting::SysInterval
    } else if k == 23 {
        Setting::ReceiveMaximum
    } else if k == 24 {
        Setting::TopicAliasMaximum
    } else if k == 25 {
        Setting::ServerKeepAlive
    } else if k == 26 {
        Setting::MaximumQos
    } else if k == 27 {
        Setting::RetainAvailable
    } else if k == 28 {
        Setting::OtlpEndpoint
    } else if k == 29 {
        Setting::OtlpProtocol
    } else if k == 30 {
        Setting::ServiceName
    } else if k == 31 {
        Setting::OtlpInterval
    } else if k == 32 {
        Setting::OtlpMetrics
    } else if k == 33 {
        Setting::OtlpLogs
    } else if k == 34 {
        Setting::HaDiscovery
    } else {
        Setting::HaDiscoveryPrefix
    }
}

fn setting_at(k: usize) -> (r: Setting)
    ensures
        r == setting(k as int),
{
    match k {
        0 => Setting::ListenAddr,
        1 => Setting::AdminAddr,
        2 => Setting::WsListenAddr,
        3 => Setting::AdminToken,
        4 => Setting::TlsCert,
        5 => Setting::TlsKey,
        6 => Setting::TlsClientCa,
        7 => Setting::WsTlsCert,
        8 => Setting::WsTlsKey,
        9 => Setting::WsTlsClientCa,
        10 => Setting::AdminTlsCert,
        11 => Setting::AdminTlsKey,
        12 => Setting::AdminTlsClientCa,
        13 => Setting::AclPath,
        14 => Setting::PasswordFile,
        15 => Setting::AllowAnonymous,
        16 => Setting::DbPath,
        17 => Setting::MaxPacketSize,
        18 => Setting::MaxSessionExpiry,
        19 => Setting::MaxQueuedMessages,
        20 => Setting::MaxConnectionsPerIp,
        21 => Setting::ConnectionRateWindowSecs,
        22 => Setting::SysInterval,
        23 => Setting::ReceiveMaximum,
        24 => Setting::TopicAliasMaximum,
        25 => Setting::ServerKeepAlive,
        26 => Setting::MaximumQos,
        27 => Setting::RetainAvailable,
        28 => Setting::OtlpEndpoint,
        29 => Setting::OtlpProtocol,
        30 => Setting::ServiceName,
        31 => Setting::OtlpInterval,
        32 => Setting::OtlpMetrics,
        33 => Setting::OtlpLogs,
        34 => Setting::HaDiscovery,
        _ => Setting::HaDiscoveryPrefix,
    }
}

impl Setting {
    /// The key of the option in a configuration file.
    pub open spec fn key(self) -> Seq<char> {
        match self {
            Setting::ListenAddr => "listen_addr"@,
            Setting::AdminAddr => "admin_addr"@,
            Setting::WsListenAddr => "ws_listen_addr"@,
            Setting::AdminToken => "admin_token"@,
            Setting::TlsCert => "tls_cert"@,
            Setting::TlsKey => "tls_key"@,
            Setting::TlsClientCa => "tls_client_ca"@,
            Setting::WsTlsCert => "ws_tls_cert"@,
            Setting::WsTlsKey => "ws_tls_key"@,
            Setting::WsTlsClientCa => "ws_tls_client_ca"@,
            Setting::AdminTlsCert => "admin_tls_cert"@,
            Setting::AdminTlsKey => "admin_tls_key"@,
            Setting::AdminTlsClientCa => "admin_tls_client_ca"@,
            Setting::AclPath => "acl_path"@,
            Setting::PasswordFile => "password_file"@,
            Setting::AllowAnonymous => "allow_anonymous"@,
            Setting::DbPath => "db_path"@,
            Setting::MaxPacketSize => "max_packet_size"@,
            Setting::MaxSessionExpiry => "max_session_expiry"@,
            Setting::MaxQueuedMessages => "max_queued_messages"@,
            Setting::MaxConnectionsPerIp => "max_connections_per_ip"@,
            Setting::ConnectionRateWindowSecs => "connection_rate_window_secs"@,
            Setting::SysInterval => "sys_interval"@,
            Setting::ReceiveMaximum => "receive_maximum"@,
            Setting::TopicAliasMaximum => "topic_alias_maximum"@,
            Setting::ServerKeepAlive => "server_keep_alive"@,
            Setting::MaximumQos => "maximum_qos"@,
            Setting::RetainAvailable => "retain_available"@,
            Setting::OtlpEndpoint => "otlp_endpoint"@,
            Setting::OtlpProtocol => "otlp_protocol"@,
            Setting::ServiceName => "service_name"@,
            Setting::OtlpInterval => "otlp_interval"@,
            Setting::OtlpMetrics => "otlp_metrics"@,
            Setting::OtlpLogs => "otlp_logs"@,
            Setting::HaDiscovery => "ha_discovery"@,
            Setting::HaDiscoveryPrefix => "ha_discovery_prefix"@,
        }
    }

    /// The key of the option in a configuration file.
    pub fn key_text(self) -> (r: &'static str)
        ensures
            r@ == self.key(),
    {
        match self {
            Setting::ListenAddr => "listen_addr",
            Setting::AdminAddr => "admin_addr",
            Setting::WsListenAddr => "ws_listen_addr",
            Setting::AdminToken => "admin_token",
            Setting::TlsCert => "tls_cert",
            Setting::TlsKey => "tls_key",
            Setting::TlsClientCa => "tls_client_ca",
            Setting::WsTlsCert => "ws_tls_cert",
            Setting::WsTlsKey => "ws_tls_key",
            Setting::WsTlsClientCa => "ws_tls_client_ca",
            Setting::AdminTlsCert => "admin_tls_cert",
            Setting::AdminTlsKey => "admin_tls_key",
            Setting::AdminTlsClientCa => "admin_tls_client_ca",
            Setting::AclPath => "acl_path",
            Setting::PasswordFile => "password_file",
            Setting::AllowAnonymous => "allow_anonymous",
            Setting::DbPath => "db_path",
            Setting::MaxPacketSize => "max_packet_size",
            Setting::MaxSessionExpiry => "max_session_expiry",
            Setting::MaxQueuedMessages => "max_queued_messages",
            Setting::MaxConnectionsPerIp => "max_connections_per_ip",
            Setting::ConnectionRateWindowSecs => "connection_rate_window_secs",
            Setting::SysInterval => "sys_interval",
            Setting::ReceiveMaximum => "receive_maximum",
            Setting::TopicAliasMaximum => "topic_alias_maximum",
            Setting::ServerKeepAlive => "server_keep_alive",
            Setting::MaximumQos => "maximum_qos",
            Setting::RetainAvailable => "retain_available",
            Setting::OtlpEndpoint => "otlp_endpoint",
            Setting::OtlpProtocol => "otlp_protocol",
            Setting::ServiceName => "service_name",
            Setting::OtlpInterval => "otlp_interval",
            Setting::OtlpMetrics => "otlp_metrics",
            Setting::OtlpLogs => "otlp_logs",
            Setting::HaDiscovery => "ha_discovery",
            Setting::HaDiscoveryPrefix => "ha_discovery_prefix",
        }
    }

    /// The environment variable of the option.
    pub open spec fn variable(self) -> Seq<char> {
        match self {
            Setting::ListenAddr => "MQTT_LISTEN_ADDR"@,
            Setting::AdminAddr => "MQTT_ADMIN_ADDR"@,
            Setting::WsListenAddr => "MQTT_WS_LISTEN_ADDR"@,
            Setting::AdminToken => "MQTT_ADMIN_TOKEN"@,
            Setting::TlsCert => "MQTT_TLS_CERT"@,
            Setting::TlsKey => "MQTT_TLS_KEY"@,
            Setting::TlsClientCa => "MQTT_TLS_CLIENT_CA"@,
            Setting::WsTlsCert => "MQTT_WS_TLS_CERT"@,
            Setting::WsTlsKey => "MQTT_WS_TLS_KEY"@,
            Setting::WsTlsClientCa => "MQTT_WS_TLS_CLIENT_CA"@,
            Setting::AdminTlsCert => "MQTT_ADMIN_TLS_CERT"@,
            Setting::AdminTlsKey => "MQTT_ADMIN_TLS_KEY"@,
            Setting::AdminTlsClientCa => "MQTT_ADMIN_TLS_CLIENT_CA"@,
            Setting::AclPath => "MQTT_ACL_FILE"@,
            Setting::PasswordFile => "MQTT_PASSWORD_FILE"@,
            Setting::AllowAnonymous => "MQTT_ALLOW_ANONYMOUS"@,
            Setting::DbPath => "MQTT_DB_PATH"@,
            Setting::MaxPacketSize => "MQTT_MAX_PACKET_SIZE"@,
            Setting::MaxSessionExpiry => "MQTT_MAX_SESSION_EXPIRY"@,
            Setting::MaxQueuedMessages => "MQTT_MAX_QUEUED_MESSAGES"@,
            Setting::MaxConnectionsPerIp => "MQTT_MAX_CONNECTIONS_PER_IP"@,
            Setting::ConnectionRateWindowSecs => "MQTT_CONNECTION_RATE_WINDOW_SECS"@,
            Setting::SysInterval => "MQTT_SYS_INTERVAL"@,
            Setting::ReceiveMaximum => "MQTT_RECEIVE_MAXIMUM"@,
            Setting::TopicAliasMaximum => "MQTT_TOPIC_ALIAS_MAXIMUM"@,
            Setting::ServerKeepAlive => "MQTT_SERVER_KEEP_ALIVE"@,
            Setting::MaximumQos => "MQTT_MAXIMUM_QOS"@,
            Setting::RetainAvailable => "MQTT_RETAIN_AVAILABLE"@,
            Setting::OtlpEndpoint => "MQTT_OTLP_ENDPOINT"@,
            Setting::OtlpProtocol => "MQTT_OTLP_PROTOCOL"@,
            Setting::ServiceName => "MQTT_SERVICE_NAME"@,
            Setting::OtlpInterval => "MQTT_OTLP_INTERVAL"@,
            Setting::OtlpMetrics => "MQTT_OTLP_METRICS"@,
            Setting::OtlpLogs => "MQTT_OTLP_LOGS"@,
            Setting::HaDiscovery => "MQTT_HA_DISCOVERY"@,
            Setting::HaDiscoveryPrefix => "MQTT_HA_DISCOVERY_PREFIX"@,
        }
    }

    /// The environment variable of the option.
    pub fn variable_text(self) -> (r: &'static str)
        ensures
            r@ == self.variable(),
    {
        match self {
            Setting::ListenAddr => "MQTT_LISTEN_ADDR",
            Setting::AdminAddr => "MQTT_ADMIN_ADDR",
            Setting::WsListenAddr => "MQTT_WS_LISTEN_ADDR",
            Setting::AdminToken => "MQTT_ADMIN_TOKEN",
            Setting::TlsCert => "MQTT_TLS_CERT",
            Setting::TlsKey => "MQTT_TLS_KEY",
            Setting::TlsClientCa => "MQTT_TLS_CLIENT_CA",
            Setting::WsTlsCert => "MQTT_WS_TLS_CERT",
            Setting::WsTlsKey => "MQTT_WS_TLS_KEY",
            Setting::WsTlsClientCa => "MQTT_WS_TLS_CLIENT_CA",
            Setting::AdminTlsCert => "MQTT_ADMIN_TLS_CERT",
            Setting::AdminTlsKey => "MQTT_ADMIN_TLS_KEY",
            Setting::AdminTlsClientCa => "MQTT_ADMIN_TLS_CLIENT_CA",
            Setting::AclPath => "MQTT_ACL_FILE",
            Setting::PasswordFile => "MQTT_PASSWORD_FILE",
            Setting::AllowAnonymous => "MQTT_ALLOW_ANONYMOUS",
            Setting::DbPath => "MQTT_DB_PATH",
            Setting::MaxPacketSize => "MQTT_MAX_PACKET_SIZE",
            Setting::MaxSessionExpiry => "MQTT_MAX_SESSION_EXPIRY",
            Setting::MaxQueuedMessages => "MQTT_MAX_QUEUED_MESSAGES",
            Setting::MaxConnectionsPerIp => "MQTT_MAX_CONNECTIONS_PER_IP",
            Setting::ConnectionRateWindowSecs => "MQTT_CONNECTION_RATE_WINDOW_SECS",
            Setting::SysInterval => "MQTT_SYS_INTERVAL",
            Setting::ReceiveMaximum => "MQTT_RECEIVE_MAXIMUM",
            Setting::TopicAliasMaximum => "MQTT_TOPIC_ALIAS_MAXIMUM",
            Setting::ServerKeepAlive => "MQTT_SERVER_KEEP_ALIVE",
            Setting::MaximumQos => "MQTT_MAXIMUM_QOS",
            Setting::RetainAvailable => "MQTT_RETAIN_AVAILABLE",
            Setting::OtlpEndpoint => "MQTT_OTLP_ENDPOINT",
            Setting::OtlpProtocol => "MQTT_OTLP_PROTOCOL",
            Setting::ServiceName => "MQTT_SERVICE_NAME",
            Setting::OtlpInterval => "MQTT_OTLP_INTERVAL",
            Setting::OtlpMetrics => "MQTT_OTLP_METRICS",
            Setting::OtlpLogs => "MQTT_OTLP_LOGS",
            Setting::HaDiscovery => "MQTT_HA_DISCOVERY",
            Setting::HaDiscoveryPrefix => "MQTT_HA_DISCOVERY_PREFIX",
        }
    }

    /// What the value of the option is.
    pub open spec fn kind(self) -> SettingKind {
        match self {
            Setting::ListenAddr => SettingKind::Address,
            Setting::AdminAddr => SettingKind::Address,
            Setting::WsListenAddr => SettingKind::Address,
            Setting::AdminToken => SettingKind::Text,
            Setting::TlsCert => SettingKind::Text,
            Setting::TlsKey => SettingKind::Text,
            Setting::TlsClientCa => SettingKind::Text,
            Setting::WsTlsCert => SettingKind::Text,
            Setting::WsTlsKey => SettingKind::Text,
            Setting::WsTlsClientCa => SettingKind::Text,
            Setting::AdminTlsCert => SettingKind::Text,
            Setting::AdminTlsKey => SettingKind::Text,
            Setting::AdminTlsClientCa => SettingKind::Text,
            Setting::AclPath => SettingKind::Text,
            Setting::PasswordFile => SettingKind::Text,
            Setting::AllowAnonymous => SettingKind::Flag,
            Setting::DbPath => SettingKind::Text,
            Setting::MaxPacketSize => SettingKind::Num32,
            Setting::MaxSessionExpiry => SettingKind::Num32,
            Setting::MaxQueuedMessages => SettingKind::Num32,
            Setting::MaxConnectionsPerIp => SettingKind::Num32,
            Setting::ConnectionRateWindowSecs => SettingKind::Num32,
            Setting::SysInterval => SettingKind::Num32,
            Setting::ReceiveMaximum => SettingKind::Num16,
            Setting::TopicAliasMaximum => SettingKind::Num16,
            Setting::ServerKeepAlive => SettingKind::Num16,
            Setting::MaximumQos => SettingKind::Level,
            Setting::RetainAvailable => SettingKind::Flag,
            Setting::OtlpEndpoint => SettingKind::Text,
            Setting::OtlpProtocol => SettingKind::Text,
            Setting::ServiceName => SettingKind::Text,
            Setting::OtlpInterval => SettingKind::Num32,
            Setting::OtlpMetrics => SettingKind::Flag,
            Setting::OtlpLogs => SettingKind::Flag,
            Setting::HaDiscovery => SettingKind::Flag,
            Setting::HaDiscoveryPrefix => SettingKind::Text,
        }
    }

    fn kind_of(self) -> (r: SettingKind)
        ensures
            r == self.kind(),
    {
        match self {
            Setting::ListenAddr => SettingKind::Address,
            Setting::AdminAddr => SettingKind::Address,
            Setting::WsListenAddr => SettingKind::Address,
            Setting::AdminToken => SettingKind::Text,
            Setting::TlsCert => SettingKind::Text,
            Setting::TlsKey => SettingKind::Text,
            Setting::TlsClientCa => SettingKind::Text,
            Setting::WsTlsCert => SettingKind::Text,
            Setting::WsTlsKey => SettingKind::Text,
            Setting::WsTlsClientCa => SettingKind::Text,
            Setting::AdminTlsCert => SettingKind::Text,
            Setting::AdminTlsKey => SettingKind::Text,
            Setting::AdminTlsClientCa => SettingKind::Text,
            Setting::AclPath => SettingKind::Text,
            Setting::PasswordFile => SettingKind::Text,
            Setting::AllowAnonymous => SettingKind::Flag,
            Setting::DbPath => SettingKind::Text,
            Setting::MaxPacketSize => SettingKind::Num32,
            Setting::MaxSessionExpiry => SettingKind::Num32,
            Setting::MaxQueuedMessages => SettingKind::Num32,
            Setting::MaxConnectionsPerIp => SettingKind::Num32,
            Setting::ConnectionRateWindowSecs => SettingKind::Num32,
            Setting::SysInterval => SettingKind::Num32,
            Setting::ReceiveMaximum => SettingKind::Num16,
            Setting::TopicAliasMaximum => SettingKind::Num16,
            Setting::ServerKeepAlive => SettingKind::Num16,
            Setting::MaximumQos => SettingKind::Level,
            Setting::RetainAvailable => SettingKind::Flag,
            Setting::OtlpEndpoint => SettingKind::Text,
            Setting::OtlpProtocol => SettingKind::Text,
            Setting::ServiceName => SettingKind::Text,
            Setting::OtlpInterval => SettingKind::Num32,
            Setting::OtlpMetrics => SettingKind::Flag,
            Setting::OtlpLogs => SettingKind::Flag,
            Setting::HaDiscovery => SettingKind::Flag,
            Setting::HaDiscoveryPrefix => SettingKind::Text,
        }
    }
}

impl ConfigView {
    /// The configuration with a text option set.
    pub open spec fn with_text(self, s: Setting, v: Seq<char>) -> ConfigView {
        match s {
            Setting::ListenAddr => ConfigView { listen_addr: v, ..self },
            Setting::AdminAddr => ConfigView { admin_addr: v, ..self },
            Setting::WsListenAddr => ConfigView { ws_listen_addr: Some(v), ..self },
            Setting::AdminToken => ConfigView { admin_token: Some(v), ..self },
            Setting::TlsCert => ConfigView { tls_cert: Some(v), ..self },
            Setting::TlsKey => ConfigView { tls_key: Some(v), ..self },
            Setting::TlsClientCa => ConfigView { tls_client_ca: Some(v), ..self },
            Setting::WsTlsCert => ConfigView { ws_tls_cert: Some(v), ..self },
            Setting::WsTlsKey => ConfigView { ws_tls_key: Some(v), ..self },
            Setting::WsTlsClientCa => ConfigView { ws_tls_client_ca: Some(v), ..self },
            Setting::AdminTlsCert => ConfigView { admin_tls_cert: Some(v), ..self },
            Setting::AdminTlsKey => ConfigView { admin_tls_key: Some(v), ..self },
            Setting::AdminTlsClientCa => ConfigView { admin_tls_client_ca: Some(v), ..self },
            Setting::AclPath => ConfigView { acl_path: Some(v), ..self },
            Setting::PasswordFile => ConfigView { password_file: Some(v), ..self },
            Setting::DbPath => ConfigView { db_path: v, ..self },
            Setting::OtlpEndpoint => ConfigView { otlp_endpoint: Some(v), ..self },
            Setting::OtlpProtocol => ConfigView { otlp_protocol: v, ..self },
            Setting::ServiceName => ConfigView { service_name: v, ..self },
            Setting::HaDiscoveryPrefix => ConfigView { ha_discovery_prefix: v, ..self },
            _ => self,
        }
    }

    /// The configuration with a truth value set.
    pub open spec fn with_flag(self, s: Setting, v: bool) -> ConfigView {
        match s {
            Setting::AllowAnonymous => ConfigView { allow_anonymous: v, ..self },
            Setting::RetainAvailable => ConfigView { retain_available: v, ..self },
            Setting::OtlpMetrics => ConfigView { otlp_metrics: v, ..self },
            Setting::OtlpLogs => ConfigView { otlp_logs: v, ..self },
            Setting::HaDiscovery => ConfigView { ha_discovery: v, ..self },
            _ => self,
        }
    }

    /// The configuration with a 32-bit number set.
    pub open spec fn with_num32(self, s: Setting, v: u32) -> ConfigView {
        match s {
            Setting::MaxPacketSize => ConfigView { max_packet_size: v, ..self },
            Setting::MaxSessionExpiry => ConfigView { max_session_expiry: v, ..self },
            Setting::MaxQueuedMessages => ConfigView { max_queued_messages: v, ..self },
            Setting::MaxConnectionsPerIp => ConfigView { max_connections_per_ip: v, ..self },
            Setting::ConnectionRateWindowSecs => ConfigView { connection_rate_window_secs: v, ..self },
            Setting::SysInterval => ConfigView { sys_interval: v, ..self },
            Setting::OtlpInterval => ConfigView { otlp_interval: v, ..self },
            _ => self,
        }
    }

    /// The configuration with a 16-bit number set.
    pub open spec fn with_num16(self, s: Setting, v: u16) -> ConfigView {
        match s {
            Setting::ReceiveMaximum => ConfigView { receive_maximum: v, ..self },
            Setting::TopicAliasMaximum => ConfigView { topic_alias_maximum: v, ..self },
            Setting::ServerKeepAlive => ConfigView { server_keep_alive: Some(v), ..self },
            _ => self,
        }
    }
}

impl Config {
    fn set_text(&mut self, s: Setting, v: String)
        ensures
            final(self)@ == old(self)@.with_text(s, v@),
    {
        match s {
            Setting::ListenAddr => {
                self.listen_addr = v;
            },
            Setting::AdminAddr => {
                self.admin_addr = v;
            },
            Setting::WsListenAddr => {
                self.ws_listen_addr = Some(v);
            },
            Setting::AdminToken => {
                self.admin_token = Some(Secret::new(v));
            },
            Setting::TlsCert => {
                self.tls_cert = Some(v);
            },
            Setting::TlsKey => {
                self.tls_key = Some(v);
            },
            Setting::TlsClientCa => {
                self.tls_client_ca = Some(v);
            },
            Setting::WsTlsCert => {
                self.ws_tls_cert = Some(v);
            },
            Setting::WsTlsKey => {
                self.ws_tls_key = Some(v);
            },
            Setting::WsTlsClientCa => {
                self.ws_tls_client_ca = Some(v);
            },
            Setting::AdminTlsCert => {
                self.admin_tls_cert = Some(v);
            },
            Setting::AdminTlsKey => {
                self.admin_tls_key = Some(v);
            },
            Setting::AdminTlsClientCa => {
                self.admin_tls_client_ca = Some(v);
            },
            Setting::AclPath => {
                self.acl_path = Some(v);
            },
            Setting::PasswordFile => {
                self.password_file = Some(v);
            },
            Setting::DbPath => {
                self.db_path = v;
            },
            Setting::OtlpEndpoint => {
                self.otlp_endpoint = Some(v);
            },
            Setting::OtlpProtocol => {
                self.otlp_protocol = v;
            },
            Setting::ServiceName => {
                self.service_name = v;
            },
            Setting::HaDiscoveryPrefix => {
                self.ha_discovery_prefix = v;
            },
            _ => {},
        }
    }

    fn set_flag(&mut self, s: Setting, v: bool)
        ensures
            final(self)@ == old(self)@.with_flag(s, v),
    {
        match s {
            Setting::AllowAnonymous => {
                self.allow_anonymous = v;
            },
            Setting::RetainAvailable => {
                self.retain_available = v;
            },
            Setting::OtlpMetrics => {
                self.otlp_metrics = v;
            },
            Setting::OtlpLogs => {
                self.otlp_logs = v;
            },
            Setting::HaDiscovery => {
                self.ha_discovery = v;
            },
            _ => {},
        }
    }

    fn set_num32(&mut self, s: Setting, v: u32)
        ensures
            final(self)@ == old(self)@.with_num32(s, v),
    {
        match s {
            Setting::MaxPacketSize => {
                self.max_packet_size = v;
            },
            Setting::MaxSessionExpiry => {
                self.max_session_expiry = v;
            },
            Setting::MaxQueuedMessages => {
                self.max_queued_messages = v;
            },
            Setting::MaxConnectionsPerIp => {
                self.max_connections_per_ip = v;
            },
            Setting::ConnectionRateWindowSecs => {
                self.connection_rate_window_secs = v;
            },
            Setting::SysInterval => {
                self.sys_interval = v;
            },
            Setting::OtlpInterval => {
                self.otlp_interval = v;
            },
            _ => {},
        }
    }

    fn set_num16(&mut self, s: Setting, v: u16)
        ensures
            final(self)@ == old(self)@.with_num16(s, v),
    {
        match s {
            Setting::ReceiveMaximum => {
                self.receive_maximum = v;
            },
            Setting::TopicAliasMaximum => {
                self.topic_alias_maximum = v;
            },
            Setting::ServerKeepAlive => {
                self.server_keep_alive = Some(v);
            },
            _ => {},
        }
    }
}

/// A text option of a file: not set where it is missing, null or blank; an
/// error where it is something else than a text.
pub open spec fn json_text_value(v: JsonView) -> Option<Option<Seq<char>>> {
    match v {
        JsonView::Null => Some(None),
        JsonView::Str(s) => if text::trim(s).len() == 0 {
            Some(None)
        } else {
            Some(Some(text::trim(s)))
        },
        _ => None,
    }
}

/// A truth value of a file.
pub open spec fn json_flag_value(v: JsonView) -> Option<Option<bool>> {
    match v {
        JsonView::Null => Some(None),
        JsonView::Bool(b) => Some(Some(b)),
        _ => None,
    }
}

/// A number of a file, from 0 to `max`.
pub open spec fn json_number_value(v: JsonView, max: nat) -> Option<Option<nat>> {
    match v {
        JsonView::Null => Some(None),
        JsonView::Int(n) => if 0 <= n <= max {
            Some(Some(n as nat))
        } else {
            None
        },
        _ => None,
    }
}

/// Whether a text is a socket address: an IP address and a port. It is so where
/// `core::net::SocketAddr` can be parsed from it.
pub uninterp spec fn is_address(text: Seq<char>) -> bool;

/// Whether `str::parse` makes a `core::net::SocketAddr` of a text. Taken on
/// trust is only that the answer depends on the text alone; which texts are
/// addresses is not said here.
#[verifier::external_body]
fn parses_as_address(v: &str) -> (r: bool)
    ensures
        r == is_address(v@),
{
    v.parse::<core::net::SocketAddr>().is_ok()
}

impl ConfigView {
    /// The configuration after a text for an address, or `None` where the text
    /// is no valid one.
    pub open spec fn with_address(self, s: Setting, v: Seq<char>, valid: bool) -> Option<
        ConfigView,
    > {
        if valid {
            Some(self.with_text(s, v))
        } else {
            None
        }
    }
}

impl Config {
    /// Sets an address to a text that is a valid one; any other text sets
    /// nothing. Says whether it was set.
    pub fn set_address(&mut self, s: Setting, v: String, valid: bool) -> (r: bool)
        ensures
            match old(self)@.with_address(s, v@, valid) {
                Some(c) => r && final(self)@ == c,
                None => !r && final(self)@ == old(self)@,
            },
    {
        if valid {
            self.set_text(s, v);
        }
        valid
    }
}

impl ConfigView {
    /// The configuration after an option of a file, or `None` where its value
    /// is wrong.
    pub open spec fn with_json(self, s: Setting, v: JsonView) -> Option<ConfigView> {
        match s.kind() {
            SettingKind::Address => match json_text_value(v) {
                Some(Some(t)) => self.with_address(s, t, is_address(t)),
                Some(None) => Some(self),
                None => None,
            },
            SettingKind::Text => match json_text_value(v) {
                Some(Some(t)) => Some(self.with_text(s, t)),
                Some(None) => Some(self),
                None => None,
            },
            SettingKind::Flag => match json_flag_value(v) {
                Some(Some(b)) => Some(self.with_flag(s, b)),
                Some(None) => Some(self),
                None => None,
            },
            SettingKind::Num32 => match json_number_value(v, u32::MAX as nat) {
                Some(Some(n)) => Some(self.with_num32(s, n as u32)),
                Some(None) => Some(self),
                None => None,
            },
            SettingKind::Num16 => match json_number_value(v, u16::MAX as nat) {
                Some(Some(n)) => Some(self.with_num16(s, n as u16)),
                Some(None) => Some(self),
                None => None,
            },
            SettingKind::Level => match json_number_value(v, 2) {
                Some(Some(n)) => Some(
                    ConfigView { maximum_qos: QoS::of_code(n as u8)->0, ..self },
                ),
                Some(None) => Some(self),
                None => None,
            },
        }
    }

    /// The configuration after the first `n` options of a file, and whether
    /// their values are right. At a wrong one it stops.
    pub open spec fn with_json_settings(self, doc: JsonView, n: nat) -> (ConfigView, bool)
        decreases n,
    {
        if n == 0 {
            (self, true)
        } else {
            let (c, right) = self.with_json_settings(doc, (n - 1) as nat);
            if !right {
                (c, false)
            } else {
                let s = setting(n - 1);
                match c.with_json(s, doc.at(s.key())) {
                    Some(d) => (d, true),
                    None => (c, false),
                }
            }
        }
    }
}

/// Whether a key can stand in a configuration file.
pub open spec fn is_known_key(key: Seq<char>) -> bool {
    ||| key == "otlp_headers"@
    ||| key == "bridges"@
    ||| exists|k: int| 0 <= k < SETTINGS && #[trigger] setting(k).key() == key
}

/// Whether every key of an object can stand in a configuration file.
pub open spec fn keys_known(members: Map<Seq<char>, JsonView>) -> bool {
    forall|k: Seq<char>| #[trigger] members.contains_key(k) ==> is_known_key(k)
}

/// What is wrong with the keys of a configuration file, which `source` names.
pub open spec fn key_faults(source: Seq<char>) -> spec_fn(int, Seq<char>) -> Option<Seq<char>> {
    |i: int, k: Seq<char>|
        if is_known_key(k) {
            None
        } else {
            Some(source + ": unknown key '"@ + k + "'"@)
        }
}

/// What is said of a key of a configuration file.
pub open spec fn key_text(source: Seq<char>, key: Seq<char>, what: Seq<char>) -> Seq<char> {
    source + ": key '"@ + key + "' "@ + what
}

/// What is wrong with the value of an option in a configuration file.
pub open spec fn json_fault(s: Setting, v: JsonView, source: Seq<char>) -> Option<Seq<char>> {
    let key = s.key();
    match s.kind() {
        SettingKind::Address => match json_text_value(v) {
            None => Some(key_text(source, key, "must be a string"@)),
            Some(None) => None,
            Some(Some(t)) => if is_address(t) {
                None
            } else {
                Some(key + ": invalid socket address "@ + text::quoted(t))
            },
        },
        SettingKind::Text => if json_text_value(v) is None {
            Some(key_text(source, key, "must be a string"@))
        } else {
            None
        },
        SettingKind::Flag => if json_flag_value(v) is None {
            Some(key_text(source, key, "must be a boolean (true/false)"@))
        } else {
            None
        },
        SettingKind::Num32 => if json_number_value(v, u32::MAX as nat) is Some {
            None
        } else if v is Int {
            Some(key_text(source, key, "out of range (0-4294967295)"@))
        } else {
            Some(key_text(source, key, "must be an integer"@))
        },
        SettingKind::Num16 => if json_number_value(v, u16::MAX as nat) is Some {
            None
        } else if v is Int {
            Some(source + ": "@ + key + " out of range (0-65535)"@)
        } else {
            Some(key_text(source, key, "must be an integer"@))
        },
        SettingKind::Level => if json_number_value(v, 2) is Some {
            None
        } else if v is Int {
            Some(source + ": "@ + key + " must be 0, 1, or 2"@)
        } else {
            Some(key_text(source, key, "must be an integer"@))
        },
    }
}

/// What is wrong with the first `n` options of a configuration file: the first
/// wrong one.
pub open spec fn settings_fault(doc: JsonView, source: Seq<char>, n: nat) -> Option<Seq<char>>
    decreases n,
{
    if n == 0 {
        None
    } else {
        match settings_fault(doc, source, (n - 1) as nat) {
            Some(m) => Some(m),
            None => {
                let s = setting(n - 1);
                json_fault(s, doc.at(s.key()), source)
            },
        }
    }
}

/// The header that a member of an object makes.
pub open spec fn member_pair(name: Seq<char>, v: JsonView) -> Seq<char> {
    name + seq!['='] + v->Str_0
}

/// The texts `NAME=VALUE` of an object, for some of its names.
pub open spec fn member_pairs(
    members: Map<Seq<char>, JsonView>,
    names: Seq<Seq<char>>,
) -> Seq<Seq<char>> {
    Seq::new(names.len(), |i: int| member_pair(names[i], members[names[i]]))
}

/// What is wrong with the members of an object of headers.
pub open spec fn member_faults(
    members: Map<Seq<char>, JsonView>,
    source: Seq<char>,
) -> spec_fn(int, Seq<char>) -> Option<Seq<char>> {
    |i: int, name: Seq<char>|
        if members[name] is Str {
            None
        } else {
            Some(source + ": otlp_headers['"@ + name + "'] must be a string"@)
        }
}

/// The headers of a configuration file, in the order of their names, or what is
/// wrong with them; none where there are none. Every member must be a text
/// before any is looked into.
pub open spec fn file_headers(v: JsonView, source: Seq<char>) -> core::result::Result<
    Option<Seq<(Seq<char>, Seq<char>)>>,
    Seq<char>,
> {
    match v {
        JsonView::Null => Ok(None),
        JsonView::Object(members) => {
            let names = json::names_of(members);
            let pairs = member_pairs(members, names);
            match text::first_fault(names, member_faults(members, source)) {
                Some(m) => Err(m),
                None => match headers_fault(pairs) {
                    Some(m) => Err(source + ": config error: "@ + m),
                    None => Ok(Some(headers_of(pairs)->0)),
                },
            }
        },
        _ => Err(source + ": 'otlp_headers' must be an object of \"Name\": \"value\" pairs"@),
    }
}

impl ConfigView {
    /// The configuration after a document, which `source` names, and what is
    /// wrong with the document. What came before a wrong value is set.
    pub open spec fn after_doc(self, doc: JsonView, source: Seq<char>) -> (
        ConfigView,
        Option<Seq<char>>,
    ) {
        let c = self.with_json_settings(doc, SETTINGS as nat).0;
        match settings_fault(doc, source, SETTINGS as nat) {
            Some(m) => (c, Some(m)),
            None => match file_headers(doc.at("otlp_headers"@), source) {
                Err(m) => (c, Some(m)),
                Ok(h) => {
                    let d = match h {
                        Some(h) => ConfigView { otlp_headers: h, ..c },
                        None => c,
                    };
                    match bridges_fault(doc, source) {
                        Some(m) => (d, Some(m)),
                        None => {
                            let b = bridges_member(doc)->0;
                            (
                                if b.len() > 0 {
                                    ConfigView { bridges: b, ..d }
                                } else {
                                    d
                                },
                                None,
                            )
                        },
                    }
                },
            },
        }
    }

    /// The configuration after the text of a file, which `source` names, and what
    /// is wrong with the text. A blank text and `null` set nothing.
    pub open spec fn after_text(self, content: Seq<char>, source: Seq<char>) -> (
        ConfigView,
        Option<Seq<char>>,
    ) {
        if text::trim(content).len() == 0 {
            (self, None)
        } else {
            match json::json_of_text(content) {
                Err(why) => (self, Some(source + ": invalid JSON: "@ + why)),
                Ok(JsonView::Null) => (self, None),
                Ok(JsonView::Object(members)) => match text::first_fault(
                    json::names_of(members),
                    key_faults(source),
                ) {
                    Some(m) => (self, Some(m)),
                    None => self.after_doc(JsonView::Object(members), source),
                },
                Ok(_) => (
                    self,
                    Some(
                        source
                            + ": top level must be a JSON object of \"option\": value pairs"@,
                    ),
                ),
            }
        }
    }
}

fn text_option(v: &Json, key: &str, source: &str) -> (r: Result<Option<String>>)
    ensures
        match r {
            Ok(t) => json_text_value(v@) == Some(text::opt_view(t)),
            Err(e) => json_text_value(v@) is None && (e matches MqttError::Config(m) && m@
                == key_text(source@, key@, "must be a string"@)),
        },
{
    if v.is_null() {
        return Ok(None);
    }
    match v.as_str() {
        Some(s) => {
            let t: String = text::trim_str(s);
            if t.as_str().unicode_len() == 0 {
                Ok(None)
            } else {
                Ok(Some(t))
            }
        },
        None => Err(wrong_value(source, key, "must be a string")),
    }
}

fn wrong_value(source: &str, key: &str, what: &str) -> (r: MqttError)
    ensures
        r matches MqttError::Config(m) && m@ == key_text(source@, key@, what@),
{
    let mut m: String = text::concat3(source, ": key '", key);
    m.append("' ");
    m.append(what);
    MqttError::Config(m)
}

/// Reads an integer of a file.
fn int_option(v: &Json, key: &str, source: &str) -> (r: Result<Option<i64>>)
    ensures
        match r {
            Ok(Some(n)) => v@ == JsonView::Int(n),
            Ok(None) => v@ is Null,
            Err(e) => !(v@ is Null) && !(v@ is Int) && (e matches MqttError::Config(m) && m@
                == key_text(source@, key@, "must be an integer"@)),
        },
{
    if v.is_null() {
        return Ok(None);
    }
    match v.as_i64() {
        Some(n) => Ok(Some(n)),
        None => Err(wrong_value(source, key, "must be an integer")),
    }
}

/// The error of a number that the option cannot be.
fn wrong_range(source: &str, key: &str, what: &str) -> (r: MqttError)
    ensures
        r matches MqttError::Config(m) && m@ == source@ + ": "@ + key@ + what@,
{
    let m: String = text::concat3(source, ": ", key);
    MqttError::Config(concat(m.as_str(), what))
}

fn flag_option(v: &Json, key: &str, source: &str) -> (r: Result<Option<bool>>)
    ensures
        match r {
            Ok(b) => json_flag_value(v@) == Some(b),
            Err(e) => json_flag_value(v@) is None && (e matches MqttError::Config(m) && m@
                == key_text(source@, key@, "must be a boolean (true/false)"@)),
        },
{
    if v.is_null() {
        return Ok(None);
    }
    match v.as_bool() {
        Some(b) => Ok(Some(b)),
        None => Err(wrong_value(source, key, "must be a boolean (true/false)")),
    }
}

fn known_key(key: &str) -> (r: bool)
    ensures
        r == is_known_key(key@),
{
    if text::str_eq(key, "otlp_headers") || text::str_eq(key, "bridges") {
        return true;
    }
    let mut k: usize = 0;
    while k < SETTINGS
        invariant
            k <= SETTINGS,
            forall|j: int| 0 <= j < k ==> #[trigger] setting(j).key() != key@,
        decreases SETTINGS - k,
    {
        let s: Setting = setting_at(k);
        if text::str_eq(s.key_text(), key) {
            assert(setting(k as int).key() == key@);
            return true;
        }
        k = k + 1;
    }
    false
}

proof fn lemma_settings_stop(c: ConfigView, doc: JsonView, n: nat, m: nat)
    requires
        n <= m,
        !c.with_json_settings(doc, n).1,
    ensures
        c.with_json_settings(doc, m) == c.with_json_settings(doc, n),
    decreases m - n,
{
    if n < m {
        lemma_settings_stop(c, doc, n, (m - 1) as nat);
    }
}

proof fn lemma_fault_stops(doc: JsonView, source: Seq<char>, n: nat, m: nat)
    requires
        n <= m,
        settings_fault(doc, source, n) is Some,
    ensures
        settings_fault(doc, source, m) == settings_fault(doc, source, n),
    decreases m - n,
{
    if n < m {
        lemma_fault_stops(doc, source, n, (m - 1) as nat);
    }
}

/// Parses texts `NAME=VALUE`.
fn parse_header_texts(pairs: &Vec<String>) -> (r: Result<OtlpHeaders>)
    ensures
        match r {
            Ok(h) => headers_of(text::views(pairs@)) == Some(h@) && headers_fault(
                text::views(pairs@),
            ) is None,
            Err(e) => headers_of(text::views(pairs@)) is None && (e matches MqttError::Config(m)
                && headers_fault(text::views(pairs@)) == Some(m@)),
        },
{
    let ghost all = text::views(pairs@);
    let mut out: Vec<(String, String)> = Vec::new();
    let mut i: usize = 0;
    assert(all.take(0) =~= Seq::empty());
    assert(text::pair_views(out@) =~= Seq::empty());
    while i < pairs.len()
        invariant
            i <= pairs.len(),
            all == text::views(pairs@),
            headers_of(all.take(i as int)) == Some(text::pair_views(out@)),
            headers_fault(all.take(i as int)) is None,
        decreases pairs.len() - i,
    {
        proof {
            text::lemma_first_fault(all, header_faults(), i as int);
        }
        assert(all.take(i + 1).drop_last() =~= all.take(i as int));
        assert(all.take(i + 1).last() == pairs@[i as int]@);
        let ghost before = out@;
        match parse_header(pairs[i].as_str()) {
            Ok(Some((name, value))) => {
                out.push((name, value));
                assert(text::pair_views(out@) =~= text::pair_views(before).push(
                    (name@, value@),
                ));
            },
            Ok(None) => {},
            Err(e) => {
                proof {
                    lemma_headers_prefix(all, i + 1);
                }
                return Err(e);
            },
        }
        i = i + 1;
    }
    assert(all.take(all.len() as int) =~= all);
    Ok(OtlpHeaders::from_pairs(out))
}

/// Reads the headers of a file: an object of texts.
fn headers_option(v: &Json, source: &str) -> (r: Result<OtlpHeaders>)
    requires
        !(v@ is Null),
    ensures
        match r {
            Ok(h) => file_headers(v@, source@) == Ok::<
                Option<Seq<(Seq<char>, Seq<char>)>>,
                Seq<char>,
            >(Some(h@)),
            Err(e) => e matches MqttError::Config(m) && file_headers(v@, source@) == Err::<
                Option<Seq<(Seq<char>, Seq<char>)>>,
                Seq<char>,
            >(m@),
        },
{
    let members: &Vec<(String, Json)> = match v.as_object() {
        Some(m) => m,
        None => {
            return Err(
                MqttError::Config(
                    concat(
                        source,
                        ": 'otlp_headers' must be an object of \"Name\": \"value\" pairs",
                    ),
                ),
            );
        },
    };
    let ghost m = json::members_view(members@);
    let names: Vec<String> = json::sorted_names(members);
    let ghost all = text::views(names@);
    let ghost faults = member_faults(m, source@);
    let mut pairs: Vec<String> = Vec::new();
    let mut i: usize = 0;
    assert(all.take(0) =~= Seq::empty());
    assert(text::views(pairs@) =~= member_pairs(m, all.take(0)));
    while i < names.len()
        invariant
            i <= names.len(),
            m == json::members_view(members@),
            v@ == JsonView::Object(m),
            all == text::views(names@),
            all.len() == names@.len(),
            all == json::names_of(m),
            json::lists_names(m, all),
            faults == member_faults(m, source@),
            text::first_fault(all.take(i as int), faults) is None,
            text::views(pairs@) == member_pairs(m, all.take(i as int)),
        decreases names.len() - i,
    {
        let ghost name = all[i as int];
        proof {
            text::lemma_first_fault(all, faults, i as int);
            assert(name == names@[i as int]@);
            assert(all.contains(name));
            assert(m.contains_key(name));
        }
        let value: Option<&str> = match v.get(names[i].as_str()) {
            Some(x) => x.as_str(),
            None => None,
        };
        match value {
            Some(value) => {
                let ghost before = pairs@;
                let mut pair: String = names[i].clone();
                pair.push('=');
                pair.append(value);
                assert(pair@ =~= member_pair(name, m[name]));
                pairs.push(pair);
                assert(text::views(pairs@) =~= text::views(before).push(pair@));
                assert(member_pairs(m, all.take(i + 1)) =~= member_pairs(
                    m,
                    all.take(i as int),
                ).push(member_pair(name, m[name])));
            },
            None => {
                let e: String = text::concat3(source, ": otlp_headers['", names[i].as_str());
                return Err(MqttError::Config(concat(e.as_str(), "'] must be a string")));
            },
        }
        i = i + 1;
    }
    assert(all.take(all.len() as int) =~= all);
    match parse_header_texts(&pairs) {
        Ok(h) => Ok(h),
        Err(e) => {
            let shown: String = e.message();
            let m: String = text::concat3(source, ": ", shown.as_str());
            assert(m@ =~= source@ + ": config error: "@ + e->Config_0@) by {
                reveal_strlit(": ");
                reveal_strlit("config error: ");
                reveal_strlit(": config error: ");
                assert(": config error: "@ =~= ": "@ + "config error: "@);
            }
            Err(MqttError::Config(m))
        },
    }
}

impl Config {
    /// Sets an option from a file.
    fn apply_setting(&mut self, s: Setting, doc: &Json, source: &str) -> (r: Result<()>)
        ensures
            match r {
                Ok(_) => old(self)@.with_json(s, doc@.at(s.key())) == Some(final(self)@)
                    && json_fault(s, doc@.at(s.key()), source@) is None,
                Err(e) => old(self)@.with_json(s, doc@.at(s.key())) is None && final(self)@ == old(
                    self,
                )@ && (e matches MqttError::Config(m) && json_fault(
                    s,
                    doc@.at(s.key()),
                    source@,
                ) == Some(m@)),
            },
    {
        let key: &str = s.key_text();
        let v: &Json = match doc.get(key) {
            Some(v) => v,
            None => {
                return Ok(());
            },
        };
        match s.kind_of() {
            SettingKind::Address => match text_option(v, key, source) {
                Ok(Some(t)) => {
                    let valid: bool = parses_as_address(t.as_str());
                    let shown: String = text::quote(t.as_str());
                    let e: String = text::concat3(
                        key,
                        ": invalid socket address ",
                        shown.as_str(),
                    );
                    if !self.set_address(s, t, valid) {
                        return Err(MqttError::Config(e));
                    }
                },
                Ok(None) => {},
                Err(e) => {
                    return Err(e);
                },
            },
            SettingKind::Text => match text_option(v, key, source) {
                Ok(Some(t)) => self.set_text(s, t),
                Ok(None) => {},
                Err(e) => {
                    return Err(e);
                },
            },
            SettingKind::Flag => match flag_option(v, key, source) {
                Ok(Some(b)) => self.set_flag(s, b),
                Ok(None) => {},
                Err(e) => {
                    return Err(e);
                },
            },
            SettingKind::Num32 => match int_option(v, key, source) {
                Ok(Some(n)) => {
                    if n < 0 || n > u32::MAX as i64 {
                        return Err(wrong_value(source, key, "out of range (0-4294967295)"));
                    }
                    self.set_num32(s, n as u32);
                },
                Ok(None) => {},
                Err(e) => {
                    return Err(e);
                },
            },
            SettingKind::Num16 => match int_option(v, key, source) {
                Ok(Some(n)) => {
                    if n < 0 || n > 65535 {
                        return Err(wrong_range(source, key, " out of range (0-65535)"));
                    }
                    self.set_num16(s, n as u16);
                },
                Ok(None) => {},
                Err(e) => {
                    return Err(e);
                },
            },
            SettingKind::Level => match int_option(v, key, source) {
                Ok(Some(n)) => {
                    self.maximum_qos = if n == 0 {
                        QoS::AtMostOnce
                    } else if n == 1 {
                        QoS::AtLeastOnce
                    } else if n == 2 {
                        QoS::ExactlyOnce
                    } else {
                        return Err(wrong_range(source, key, " must be 0, 1, or 2"));
                    };
                },
                Ok(None) => {},
                Err(e) => {
                    return Err(e);
                },
            },
        }
        Ok(())
    }

    /// Sets what a document says.
    fn apply_doc(&mut self, doc: &Json, source: &str) -> (r: Result<()>)
        ensures
            final(self)@ == old(self)@.after_doc(doc@, source@).0,
            match r {
                Ok(_) => old(self)@.after_doc(doc@, source@).1 is None,
                Err(e) => e matches MqttError::Config(m) && old(self)@.after_doc(
                    doc@,
                    source@,
                ).1 == Some(m@),
            },
    {
        let ghost before = self@;
        let ghost d = doc@;
        let mut k: usize = 0;
        while k < SETTINGS
            invariant
                k <= SETTINGS,
                d == doc@,
                before == old(self)@,
                before.with_json_settings(d, k as nat) == (self@, true),
                settings_fault(d, source@, k as nat) is None,
            decreases SETTINGS - k,
        {
            let s: Setting = setting_at(k);
            if let Err(e) = self.apply_setting(s, doc, source) {
                proof {
                    assert(before.with_json_settings(d, (k + 1) as nat) == (self@, false));
                    lemma_settings_stop(before, d, (k + 1) as nat, SETTINGS as nat);
                    lemma_fault_stops(d, source@, (k + 1) as nat, SETTINGS as nat);
                }
                return Err(e);
            }
            k = k + 1;
        }
        if let Some(v) = doc.get("otlp_headers") {
            if !v.is_null() {
                match headers_option(v, source) {
                    Ok(h) => {
                        self.otlp_headers = h;
                    },
                    Err(e) => {
                        return Err(e);
                    },
                }
            }
        }
        match parse_bridges(doc, source) {
            Ok(b) => {
                if b.len() > 0 {
                    self.bridges = b;
                }
                Ok(())
            },
            Err(e) => Err(e),
        }
    }

    /// Sets what the text of a file says; `source` names it for messages. A
    /// blank text and `null` set nothing. Unknown keys and values of a wrong
    /// type are errors.
    pub fn apply_json_str(&mut self, content: &str, source: &str) -> (r: Result<()>)
        ensures
            final(self)@ == old(self)@.after_text(content@, source@).0,
            match r {
                Ok(_) => old(self)@.after_text(content@, source@).1 is None,
                Err(e) => e matches MqttError::Config(m) && old(self)@.after_text(
                    content@,
                    source@,
                ).1 == Some(m@),
            },
            r is Ok && text::trim(content@).len() > 0 ==> (json::json_of_text(content@) matches Ok(
                JsonView::Object(members),
            ) ==> keys_known(members)),
    {
        let blank: String = text::trim_str(content);
        if blank.as_str().unicode_len() == 0 {
            return Ok(());
        }
        let doc: Json = match json::parse_json(content) {
            Ok(j) => j,
            Err(e) => {
                return Err(
                    MqttError::Config(text::concat3(source, ": invalid JSON: ", e.as_str())),
                );
            },
        };
        if doc.is_null() {
            return Ok(());
        }
        let members: &Vec<(String, Json)> = match doc.as_object() {
            None => {
                return Err(
                    MqttError::Config(
                        concat(
                            source,
                            ": top level must be a JSON object of \"option\": value pairs",
                        ),
                    ),
                );
            },
            Some(members) => members,
        };
        if let Err(e) = check_keys(members, source) {
            return Err(e);
        }
        self.apply_doc(&doc, source)
    }

    /// Sets what a file says and remembers its path.
    pub fn apply_json_file(&mut self, path: &str, content: &str) -> (r: Result<()>)
        ensures
            match r {
                Ok(_) => old(self)@.after_text(content@, path@).1 is None && final(self)@ == (
                ConfigView {
                    config_file: Some(path@),
                    ..old(self)@.after_text(content@, path@).0
                }),
                Err(e) => final(self)@ == old(self)@.after_text(content@, path@).0 && (
                e matches MqttError::Config(m) && old(self)@.after_text(content@, path@).1
                    == Some(m@)),
            },
    {
        match self.apply_json_str(content, path) {
            Ok(_) => {
                self.config_file = Some(path.to_owned());
                Ok(())
            },
            Err(e) => Err(e),
        }
    }
}

/// Refuses a key that cannot stand in a configuration file.
fn check_keys(members: &Vec<(String, Json)>, source: &str) -> (r: Result<()>)
    ensures
        ({
            let m = json::members_view(members@);
            let fault = text::first_fault(json::names_of(m), key_faults(source@));
            match r {
                Ok(_) => fault is None && keys_known(m),
                Err(e) => e matches MqttError::Config(t) && fault == Some(t@),
            }
        }),
{
    let names: Vec<String> = json::sorted_names(members);
    let ghost m = json::members_view(members@);
    let ghost all = text::views(names@);
    let ghost faults = key_faults(source@);
    let mut i: usize = 0;
    assert(all.take(0) =~= Seq::empty());
    while i < names.len()
        invariant
            i <= names.len(),
            all == text::views(names@),
            all.len() == names@.len(),
            all == json::names_of(m),
            m == json::members_view(members@),
            json::lists_names(m, all),
            faults == key_faults(source@),
            text::first_fault(all.take(i as int), faults) is None,
            forall|x: int| 0 <= x < i ==> is_known_key(#[trigger] all[x]),
        decreases names.len() - i,
    {
        proof {
            text::lemma_first_fault(all, faults, i as int);
            assert(all[i as int] == names@[i as int]@);
        }
        if !known_key(names[i].as_str()) {
            let e: String = text::concat3(source, ": unknown key '", names[i].as_str());
            return Err(MqttError::Config(concat(e.as_str(), "'")));
        }
        i = i + 1;
    }
    assert(all.take(all.len() as int) =~= all);
    assert(keys_known(m)) by {
        assert forall|k: Seq<char>| #[trigger] m.contains_key(k) implies is_known_key(k) by {
            assert(all.contains(k));
        }
    }
    Ok(())
}

/// The value of an environment variable: the first with the name, without
/// white space at its ends; none where it is blank.
pub open spec fn variable_value(
    vars: Seq<(Seq<char>, Seq<char>)>,
    name: Seq<char>,
) -> Option<Seq<char>>
    decreases vars.len(),
{
    if vars.len() == 0 {
        None
    } else if vars[0].0 == name {
        if text::trim(vars[0].1).len() == 0 {
            None
        } else {
            Some(text::trim(vars[0].1))
        }
    } else {
        variable_value(vars.skip(1), name)
    }
}

impl ConfigView {
    /// The configuration after an environment variable. A value that cannot be
    /// used is passed over.
    pub open spec fn with_variable(self, s: Setting, v: Option<Seq<char>>) -> ConfigView {
        match v {
            None => self,
            Some(t) => match s.kind() {
                SettingKind::Address => match self.with_address(s, t, is_address(t)) {
                    Some(c) => c,
                    None => self,
                },
                SettingKind::Text => self.with_text(s, t),
                SettingKind::Flag => match flag_of_text(t) {
                    Some(b) => self.with_flag(s, b),
                    None => self,
                },
                SettingKind::Num32 => match text::parsed_number(t, u32::MAX as nat) {
                    Some(n) => self.with_num32(s, n as u32),
                    None => self,
                },
                SettingKind::Num16 => match text::parsed_number(t, u16::MAX as nat) {
                    Some(n) => self.with_num16(s, n as u16),
                    None => self,
                },
                SettingKind::Level => match qos_of_text(t) {
                    Some(q) => ConfigView { maximum_qos: q, ..self },
                    None => self,
                },
            },
        }
    }

    /// The configuration after the environment variables of the first `n`
    /// options.
    pub open spec fn with_variables(self, vars: Seq<(Seq<char>, Seq<char>)>, n: nat) -> ConfigView
        decreases n,
    {
        if n == 0 {
            self
        } else {
            let s = setting(n - 1);
            self.with_variables(vars, (n - 1) as nat).with_variable(
                s,
                variable_value(vars, s.variable()),
            )
        }
    }

    /// The configuration after the environment.
    pub open spec fn with_environment(self, vars: Seq<(Seq<char>, Seq<char>)>) -> ConfigView {
        let c = self.with_variables(vars, SETTINGS as nat);
        match header_variable(vars) {
            Some(Some(h)) => if h.len() > 0 {
                ConfigView { otlp_headers: h, ..c }
            } else {
                c
            },
            _ => c,
        }
    }
}

/// The headers of the environment: none where the variable is not set, an error
/// where one is wrong.
pub open spec fn header_variable(vars: Seq<(Seq<char>, Seq<char>)>) -> Option<
    Option<Seq<(Seq<char>, Seq<char>)>>,
> {
    match variable_value(vars, "MQTT_OTLP_HEADERS"@) {
        None => Some(None),
        Some(v) => match headers_of(text::split(v, ',')) {
            Some(h) => Some(Some(h)),
            None => None,
        },
    }
}

/// What is wrong with the headers of the environment.
pub open spec fn header_variable_fault(vars: Seq<(Seq<char>, Seq<char>)>) -> Option<Seq<char>> {
    match variable_value(vars, "MQTT_OTLP_HEADERS"@) {
        None => None,
        Some(v) => headers_fault(text::split(v, ',')),
    }
}

/// The value of an environment variable.
pub fn find_variable(vars: &Vec<(String, String)>, name: &str) -> (r: Option<String>)
    ensures
        text::opt_view(r) == variable_value(text::pair_views(vars@), name@),
{
    let ghost all = text::pair_views(vars@);
    let mut i: usize = 0;
    assert(all.skip(0) =~= all);
    while i < vars.len()
        invariant
            i <= vars.len(),
            all == text::pair_views(vars@),
            variable_value(all, name@) == variable_value(all.skip(i as int), name@),
        decreases vars.len() - i,
    {
        assert(all.skip(i as int)[0] == (vars@[i as int].0@, vars@[i as int].1@));
        assert(all.skip(i as int).skip(1) =~= all.skip(i + 1));
        if text::str_eq(vars[i].0.as_str(), name) {
            let t: String = text::trim_str(vars[i].1.as_str());
            return if t.as_str().unicode_len() == 0 {
                None
            } else {
                Some(t)
            };
        }
        i = i + 1;
    }
    None
}

impl Config {
    /// Sets an option from the environment.
    fn apply_variable(&mut self, s: Setting, v: Option<String>)
        ensures
            final(self)@ == old(self)@.with_variable(s, text::opt_view(v)),
    {
        if let Some(t) = v {
            match s.kind_of() {
                SettingKind::Address => {
                    let valid: bool = parses_as_address(t.as_str());
                    self.set_address(s, t, valid);
                },
                SettingKind::Text => self.set_text(s, t),
                SettingKind::Flag => if let Some(b) = parse_bool_value(t.as_str()) {
                    self.set_flag(s, b);
                },
                SettingKind::Num32 => {
                    let c: Vec<char> = chars_of(t.as_str());
                    if let Some(n) = text::parse_number(c.as_slice(), u32::MAX as u64) {
                        self.set_num32(s, n as u32);
                    }
                },
                SettingKind::Num16 => {
                    let c: Vec<char> = chars_of(t.as_str());
                    if let Some(n) = text::parse_number(c.as_slice(), 65535) {
                        self.set_num16(s, n as u16);
                    }
                },
                SettingKind::Level => if let Some(q) = parse_qos_value(t.as_str()) {
                    self.maximum_qos = q;
                },
            }
        }
    }

    /// Sets what the environment says. A value that cannot be used is passed
    /// over; headers that are wrong are also told of.
    pub fn apply_env(&mut self, vars: &Vec<(String, String)>) -> (warning: Option<MqttError>)
        ensures
            final(self)@ == old(self)@.with_environment(text::pair_views(vars@)),
            match warning {
                None => header_variable_fault(text::pair_views(vars@)) is None,
                Some(e) => e matches MqttError::Config(m) && header_variable_fault(
                    text::pair_views(vars@),
                ) == Some(m@),
            },
    {
        let ghost before = self@;
        let ghost all = text::pair_views(vars@);
        let mut k: usize = 0;
        while k < SETTINGS
            invariant
                k <= SETTINGS,
                all == text::pair_views(vars@),
                self@ == before.with_variables(all, k as nat),
            decreases SETTINGS - k,
        {
            let s: Setting = setting_at(k);
            let v: Option<String> = find_variable(vars, s.variable_text());
            self.apply_variable(s, v);
            k = k + 1;
        }
        match find_variable(vars, "MQTT_OTLP_HEADERS") {
            None => None,
            Some(v) => match parse_header_list(v.as_str()) {
                Ok(h) => {
                    if !h.is_empty() {
                        self.otlp_headers = h;
                    }
                    None
                },
                Err(e) => Some(e),
            },
        }
    }

    /// The configuration of defaults and the environment.
    pub fn from_env(vars: &Vec<(String, String)>) -> (r: Config)
        ensures
            r@ == ConfigView::defaults().with_environment(text::pair_views(vars@)),
    {
        let mut c: Config = Config::default();
        let warning: Option<MqttError> = c.apply_env(vars);
        c
    }
}

/// Parses headers that commas separate.
fn parse_header_list(v: &str) -> (r: Result<OtlpHeaders>)
    ensures
        match r {
            Ok(h) => headers_of(text::split(v@, ',')) == Some(h@) && headers_fault(
                text::split(v@, ','),
            ) is None,
            Err(e) => headers_of(text::split(v@, ',')) is None && (e matches MqttError::Config(m)
                && headers_fault(text::split(v@, ',')) == Some(m@)),
        },
{
    let c: Vec<char> = chars_of(v);
    let parts: Vec<Vec<char>> = text::split_chars(c.as_slice(), ',');
    let mut pairs: Vec<String> = Vec::new();
    let mut i: usize = 0;
    while i < parts.len()
        invariant
            i <= parts.len(),
            pairs@.len() == i,
            forall|j: int| 0 <= j < i ==> (#[trigger] pairs@[j])@ == parts@[j]@,
        decreases parts.len() - i,
    {
        pairs.push(string_of(parts[i].as_slice()));
        i = i + 1;
    }
    assert(text::views(pairs@) =~= text::views(parts@));
    parse_header_texts(&pairs)
}

} // verus!
