//! The command line: the highest layer of the configuration. Every option is
//! set only where its flag was passed, so that a flag that was not passed leaves
//! what the file and the environment said.
use vstd::prelude::*;
use crate::config::{
    find_variable, flag_of_text, header_variable_fault, is_address, parse_bool_value, parse_qos_value, qos_of_text,
    setting, variable_value, Config, ConfigView, OtlpHeaders, Secret, Setting, SettingKind,
    SETTINGS,
};
use crate::error::{MqttError, Result};
use crate::json::JsonView;
use crate::text;
use crate::types::QoS;

verus! {

/// The file that is read where none is named and it exists.
pub const DEFAULT_CONFIG_FILE: &'static str = "pulsemq.json";

/// The flags that were passed.
#[derive(Debug)]
pub struct Cli {
    /// The configuration file to read.
    pub config: Option<String>,
    /// Whether a password is to be hashed, and for whom.
    pub hash_password: Option<Option<String>>,
    pub listen_addr: Option<String>,
    pub admin_addr: Option<String>,
    pub ws_listen_addr: Option<String>,
    pub admin_token: Option<String>,
    pub tls_cert: Option<String>,
    pub tls_key: Option<String>,
    pub tls_client_ca: Option<String>,
    pub ws_tls_cert: Option<String>,
    pub ws_tls_key: Option<String>,
    pub ws_tls_client_ca: Option<String>,
    pub admin_tls_cert: Option<String>,
    pub admin_tls_key: Option<String>,
    pub admin_tls_client_ca: Option<String>,
    pub acl_file: Option<String>,
    pub password_file: Option<String>,
    pub allow_anonymous: Option<bool>,
    pub db_path: Option<String>,
    pub max_packet_size: Option<u32>,
    pub max_session_expiry: Option<u32>,
    pub max_queued_messages: Option<u32>,
    pub max_connections_per_ip: Option<u32>,
    pub connection_rate_window_secs: Option<u32>,
    pub sys_interval: Option<u32>,
    pub receive_maximum: Option<u16>,
    pub topic_alias_maximum: Option<u16>,
    pub server_keep_alive: Option<u16>,
    pub maximum_qos: Option<QoS>,
    pub retain_available: Option<bool>,
    pub otlp_endpoint: Option<String>,
    pub otlp_protocol: Option<String>,
    pub service_name: Option<String>,
    pub otlp_interval: Option<u32>,
    pub otlp_metrics: Option<bool>,
    pub otlp_logs: Option<bool>,
    pub ha_discovery: Option<bool>,
    pub ha_discovery_prefix: Option<String>,
    /// Headers of telemetry; several flags add up.
    pub otlp_header: Vec<(String, String)>,
}

/// What the command line asks for.
pub enum Startup {
    /// Run the broker with this configuration.
    Run(Box<Config>),
    /// Print a credential line for a user, or only the hash without one.
    HashPassword(Option<String>),
}

/// The value of an option.
pub enum OptionValue {
    Text(Option<Seq<char>>),
    Flag(bool),
    Number(Option<nat>),
    Level(QoS),
}

pub open spec fn over<T>(flag: Option<T>, low: T) -> T {
    match flag {
        Some(v) => v,
        None => low,
    }
}

pub open spec fn over_text(flag: Option<String>, low: Seq<char>) -> Seq<char> {
    match flag {
        Some(v) => v@,
        None => low,
    }
}

pub open spec fn over_opt(flag: Option<String>, low: Option<Seq<char>>) -> Option<Seq<char>> {
    match flag {
        Some(v) => Some(v@),
        None => low,
    }
}

impl ConfigView {
    /// The configuration after the flags that were passed.
    pub open spec fn with_flags(self, cli: Cli) -> ConfigView {
        ConfigView {
            listen_addr: over_text(cli.listen_addr, self.listen_addr),
            admin_addr: over_text(cli.admin_addr, self.admin_addr),
            ws_listen_addr: over_opt(cli.ws_listen_addr, self.ws_listen_addr),
            admin_token: over_opt(cli.admin_token, self.admin_token),
            tls_cert: over_opt(cli.tls_cert, self.tls_cert),
            tls_key: over_opt(cli.tls_key, self.tls_key),
            tls_client_ca: over_opt(cli.tls_client_ca, self.tls_client_ca),
            ws_tls_cert: over_opt(cli.ws_tls_cert, self.ws_tls_cert),
            ws_tls_key: over_opt(cli.ws_tls_key, self.ws_tls_key),
            ws_tls_client_ca: over_opt(cli.ws_tls_client_ca, self.ws_tls_client_ca),
            admin_tls_cert: over_opt(cli.admin_tls_cert, self.admin_tls_cert),
            admin_tls_key: over_opt(cli.admin_tls_key, self.admin_tls_key),
            admin_tls_client_ca: over_opt(cli.admin_tls_client_ca, self.admin_tls_client_ca),
            acl_path: over_opt(cli.acl_file, self.acl_path),
            password_file: over_opt(cli.password_file, self.password_file),
            allow_anonymous: over(cli.allow_anonymous, self.allow_anonymous),
            db_path: over_text(cli.db_path, self.db_path),
            max_packet_size: over(cli.max_packet_size, self.max_packet_size),
            max_session_expiry: over(cli.max_session_expiry, self.max_session_expiry),
            max_queued_messages: over(cli.max_queued_messages, self.max_queued_messages),
            max_connections_per_ip: over(cli.max_connections_per_ip, self.max_connections_per_ip),
            connection_rate_window_secs: over(cli.connection_rate_window_secs, self.connection_rate_window_secs),
            sys_interval: over(cli.sys_interval, self.sys_interval),
            receive_maximum: over(cli.receive_maximum, self.receive_maximum),
            topic_alias_maximum: over(cli.topic_alias_maximum, self.topic_alias_maximum),
            server_keep_alive: if cli.server_keep_alive is Some {
                cli.server_keep_alive
            } else {
                self.server_keep_alive
            },
            maximum_qos: over(cli.maximum_qos, self.maximum_qos),
            retain_available: over(cli.retain_available, self.retain_available),
            otlp_endpoint: over_opt(cli.otlp_endpoint, self.otlp_endpoint),
            otlp_protocol: over_text(cli.otlp_protocol, self.otlp_protocol),
            service_name: over_text(cli.service_name, self.service_name),
            otlp_interval: over(cli.otlp_interval, self.otlp_interval),
            otlp_metrics: over(cli.otlp_metrics, self.otlp_metrics),
            otlp_logs: over(cli.otlp_logs, self.otlp_logs),
            ha_discovery: over(cli.ha_discovery, self.ha_discovery),
            ha_discovery_prefix: over_text(cli.ha_discovery_prefix, self.ha_discovery_prefix),
            otlp_headers: if cli.otlp_header@.len() > 0 {
                text::pair_views(cli.otlp_header@)
            } else {
                self.otlp_headers
            },
            ..self
        }
    }

    /// The value of an option.
    pub open spec fn option(self, s: Setting) -> OptionValue {
        match s {
            Setting::ListenAddr => OptionValue::Text(Some(self.listen_addr)),
            Setting::AdminAddr => OptionValue::Text(Some(self.admin_addr)),
            Setting::WsListenAddr => OptionValue::Text(self.ws_listen_addr),
            Setting::AdminToken => OptionValue::Text(self.admin_token),
            Setting::TlsCert => OptionValue::Text(self.tls_cert),
            Setting::TlsKey => OptionValue::Text(self.tls_key),
            Setting::TlsClientCa => OptionValue::Text(self.tls_client_ca),
            Setting::WsTlsCert => OptionValue::Text(self.ws_tls_cert),
            Setting::WsTlsKey => OptionValue::Text(self.ws_tls_key),
            Setting::WsTlsClientCa => OptionValue::Text(self.ws_tls_client_ca),
            Setting::AdminTlsCert => OptionValue::Text(self.admin_tls_cert),
            Setting::AdminTlsKey => OptionValue::Text(self.admin_tls_key),
            Setting::AdminTlsClientCa => OptionValue::Text(self.admin_tls_client_ca),
            Setting::AclPath => OptionValue::Text(self.acl_path),
            Setting::PasswordFile => OptionValue::Text(self.password_file),
            Setting::AllowAnonymous => OptionValue::Flag(self.allow_anonymous),
            Setting::DbPath => OptionValue::Text(Some(self.db_path)),
            Setting::MaxPacketSize => OptionValue::Number(Some(self.max_packet_size as nat)),
            Setting::MaxSessionExpiry => OptionValue::Number(Some(self.max_session_expiry as nat)),
            Setting::MaxQueuedMessages => OptionValue::Number(Some(self.max_queued_messages as nat)),
            Setting::MaxConnectionsPerIp => OptionValue::Number(Some(self.max_connections_per_ip as nat)),
            Setting::ConnectionRateWindowSecs => OptionValue::Number(Some(self.connection_rate_window_secs as nat)),
            Setting::SysInterval => OptionValue::Number(Some(self.sys_interval as nat)),
            Setting::ReceiveMaximum => OptionValue::Number(Some(self.receive_maximum as nat)),
            Setting::TopicAliasMaximum => OptionValue::Number(Some(self.topic_alias_maximum as nat)),
            Setting::ServerKeepAlive => OptionValue::Number(
                match self.server_keep_alive {
                    Some(n) => Some(n as nat),
                    None => None,
                },
            ),
            Setting::MaximumQos => OptionValue::Level(self.maximum_qos),
            Setting::RetainAvailable => OptionValue::Flag(self.retain_available),
            Setting::OtlpEndpoint => OptionValue::Text(self.otlp_endpoint),
            Setting::OtlpProtocol => OptionValue::Text(Some(self.otlp_protocol)),
            Setting::ServiceName => OptionValue::Text(Some(self.service_name)),
            Setting::OtlpInterval => OptionValue::Number(Some(self.otlp_interval as nat)),
            Setting::OtlpMetrics => OptionValue::Flag(self.otlp_metrics),
            Setting::OtlpLogs => OptionValue::Flag(self.otlp_logs),
            Setting::HaDiscovery => OptionValue::Flag(self.ha_discovery),
            Setting::HaDiscoveryPrefix => OptionValue::Text(Some(self.ha_discovery_prefix)),
        }
    }
}

/// What a flag with a text sets.
pub open spec fn text_flag(v: Option<String>) -> Option<OptionValue> {
    match v {
        Some(t) => Some(OptionValue::Text(Some(t@))),
        None => None,
    }
}

/// What a flag with a truth value sets.
pub open spec fn bool_set(v: Option<bool>) -> Option<OptionValue> {
    match v {
        Some(b) => Some(OptionValue::Flag(b)),
        None => None,
    }
}

/// What a flag with a 32-bit number sets.
pub open spec fn num32_flag(v: Option<u32>) -> Option<OptionValue> {
    match v {
        Some(n) => Some(OptionValue::Number(Some(n as nat))),
        None => None,
    }
}

/// What a flag with a 16-bit number sets.
pub open spec fn num16_flag(v: Option<u16>) -> Option<OptionValue> {
    match v {
        Some(n) => Some(OptionValue::Number(Some(n as nat))),
        None => None,
    }
}

impl Cli {
    /// What the flag of an option sets, where it was passed.
    pub open spec fn flag(self, s: Setting) -> Option<OptionValue> {
        match s {
            Setting::ListenAddr => text_flag(self.listen_addr),
            Setting::AdminAddr => text_flag(self.admin_addr),
            Setting::WsListenAddr => text_flag(self.ws_listen_addr),
            Setting::AdminToken => text_flag(self.admin_token),
            Setting::TlsCert => text_flag(self.tls_cert),
            Setting::TlsKey => text_flag(self.tls_key),
            Setting::TlsClientCa => text_flag(self.tls_client_ca),
            Setting::WsTlsCert => text_flag(self.ws_tls_cert),
            Setting::WsTlsKey => text_flag(self.ws_tls_key),
            Setting::WsTlsClientCa => text_flag(self.ws_tls_client_ca),
            Setting::AdminTlsCert => text_flag(self.admin_tls_cert),
            Setting::AdminTlsKey => text_flag(self.admin_tls_key),
            Setting::AdminTlsClientCa => text_flag(self.admin_tls_client_ca),
            Setting::AclPath => text_flag(self.acl_file),
            Setting::PasswordFile => text_flag(self.password_file),
            Setting::AllowAnonymous => bool_set(self.allow_anonymous),
            Setting::DbPath => text_flag(self.db_path),
            Setting::MaxPacketSize => num32_flag(self.max_packet_size),
            Setting::MaxSessionExpiry => num32_flag(self.max_session_expiry),
            Setting::MaxQueuedMessages => num32_flag(self.max_queued_messages),
            Setting::MaxConnectionsPerIp => num32_flag(self.max_connections_per_ip),
            Setting::ConnectionRateWindowSecs => num32_flag(self.connection_rate_window_secs),
            Setting::SysInterval => num32_flag(self.sys_interval),
            Setting::ReceiveMaximum => num16_flag(self.receive_maximum),
            Setting::TopicAliasMaximum => num16_flag(self.topic_alias_maximum),
            Setting::ServerKeepAlive => num16_flag(self.server_keep_alive),
            Setting::MaximumQos => match self.maximum_qos {
                Some(q) => Some(OptionValue::Level(q)),
                None => None,
            },
            Setting::RetainAvailable => bool_set(self.retain_available),
            Setting::OtlpEndpoint => text_flag(self.otlp_endpoint),
            Setting::OtlpProtocol => text_flag(self.otlp_protocol),
            Setting::ServiceName => text_flag(self.service_name),
            Setting::OtlpInterval => num32_flag(self.otlp_interval),
            Setting::OtlpMetrics => bool_set(self.otlp_metrics),
            Setting::OtlpLogs => bool_set(self.otlp_logs),
            Setting::HaDiscovery => bool_set(self.ha_discovery),
            Setting::HaDiscoveryPrefix => text_flag(self.ha_discovery_prefix),
        }
    }

    /// No flag at all.
    pub fn new() -> (r: Cli)
        ensures
            r.config is None,
            r.hash_password is None,
            r.otlp_header@.len() == 0,
            forall|s: Setting| #[trigger] r.flag(s) is None,
    {
        Cli {
            config: None,
            hash_password: None,
            listen_addr: None,
            admin_addr: None,
            ws_listen_addr: None,
            admin_token: None,
            tls_cert: None,
            tls_key: None,
            tls_client_ca: None,
            ws_tls_cert: None,
            ws_tls_key: None,
            ws_tls_client_ca: None,
            admin_tls_cert: None,
            admin_tls_key: None,
            admin_tls_client_ca: None,
            acl_file: None,
            password_file: None,
            allow_anonymous: None,
            db_path: None,
            max_packet_size: None,
            max_session_expiry: None,
            max_queued_messages: None,
            max_connections_per_ip: None,
            connection_rate_window_secs: None,
            sys_interval: None,
            receive_maximum: None,
            topic_alias_maximum: None,
            server_keep_alive: None,
            maximum_qos: None,
            retain_available: None,
            otlp_endpoint: None,
            otlp_protocol: None,
            service_name: None,
            otlp_interval: None,
            otlp_metrics: None,
            otlp_logs: None,
            ha_discovery: None,
            ha_discovery_prefix: None,
            otlp_header: Vec::new(),
        }
    }

    /// Sets the addresses, the token and the certificates of the MQTT port.
    fn apply_addresses(&self, cfg: &mut Config)
        ensures
            final(cfg)@ == (ConfigView {
                listen_addr: over_text(self.listen_addr, old(cfg)@.listen_addr),
                admin_addr: over_text(self.admin_addr, old(cfg)@.admin_addr),
                ws_listen_addr: over_opt(self.ws_listen_addr, old(cfg)@.ws_listen_addr),
                admin_token: over_opt(self.admin_token, old(cfg)@.admin_token),
                tls_cert: over_opt(self.tls_cert, old(cfg)@.tls_cert),
                tls_key: over_opt(self.tls_key, old(cfg)@.tls_key),
                tls_client_ca: over_opt(self.tls_client_ca, old(cfg)@.tls_client_ca),
                ..old(cfg)@
            }),
    {
        if let Some(v) = &self.listen_addr {
            cfg.listen_addr = v.clone();
        }
        if let Some(v) = &self.admin_addr {
            cfg.admin_addr = v.clone();
        }
        overlay(&mut cfg.ws_listen_addr, &self.ws_listen_addr);
        if let Some(v) = &self.admin_token {
            cfg.admin_token = Some(Secret::new(v.clone()));
        }
        overlay(&mut cfg.tls_cert, &self.tls_cert);
        overlay(&mut cfg.tls_key, &self.tls_key);
        overlay(&mut cfg.tls_client_ca, &self.tls_client_ca);
    }

    /// Sets the certificates of the other ports and the access files.
    fn apply_certificates(&self, cfg: &mut Config)
        ensures
            final(cfg)@ == (ConfigView {
                ws_tls_cert: over_opt(self.ws_tls_cert, old(cfg)@.ws_tls_cert),
                ws_tls_key: over_opt(self.ws_tls_key, old(cfg)@.ws_tls_key),
                ws_tls_client_ca: over_opt(self.ws_tls_client_ca, old(cfg)@.ws_tls_client_ca),
                admin_tls_cert: over_opt(self.admin_tls_cert, old(cfg)@.admin_tls_cert),
                admin_tls_key: over_opt(self.admin_tls_key, old(cfg)@.admin_tls_key),
                admin_tls_client_ca: over_opt(self.admin_tls_client_ca, old(cfg)@.admin_tls_client_ca),
                acl_path: over_opt(self.acl_file, old(cfg)@.acl_path),
                password_file: over_opt(self.password_file, old(cfg)@.password_file),
                ..old(cfg)@
            }),
    {
        overlay(&mut cfg.ws_tls_cert, &self.ws_tls_cert);
        overlay(&mut cfg.ws_tls_key, &self.ws_tls_key);
        overlay(&mut cfg.ws_tls_client_ca, &self.ws_tls_client_ca);
        overlay(&mut cfg.admin_tls_cert, &self.admin_tls_cert);
        overlay(&mut cfg.admin_tls_key, &self.admin_tls_key);
        overlay(&mut cfg.admin_tls_client_ca, &self.admin_tls_client_ca);
        overlay(&mut cfg.acl_path, &self.acl_file);
        overlay(&mut cfg.password_file, &self.password_file);
    }

    /// Sets the store and the limits.
    fn apply_limits(&self, cfg: &mut Config)
        ensures
            final(cfg)@ == (ConfigView {
                allow_anonymous: over(self.allow_anonymous, old(cfg)@.allow_anonymous),
                db_path: over_text(self.db_path, old(cfg)@.db_path),
                max_packet_size: over(self.max_packet_size, old(cfg)@.max_packet_size),
                max_session_expiry: over(self.max_session_expiry, old(cfg)@.max_session_expiry),
                max_queued_messages: over(self.max_queued_messages, old(cfg)@.max_queued_messages),
                max_connections_per_ip: over(self.max_connections_per_ip, old(cfg)@.max_connections_per_ip),
                connection_rate_window_secs: over(self.connection_rate_window_secs, old(cfg)@.connection_rate_window_secs),
                ..old(cfg)@
            }),
    {
        if let Some(v) = self.allow_anonymous {
            cfg.allow_anonymous = v;
        }
        if let Some(v) = &self.db_path {
            cfg.db_path = v.clone();
        }
        if let Some(v) = self.max_packet_size {
            cfg.max_packet_size = v;
        }
        if let Some(v) = self.max_session_expiry {
            cfg.max_session_expiry = v;
        }
        if let Some(v) = self.max_queued_messages {
            cfg.max_queued_messages = v;
        }
        if let Some(v) = self.max_connections_per_ip {
            cfg.max_connections_per_ip = v;
        }
        if let Some(v) = self.connection_rate_window_secs {
            cfg.connection_rate_window_secs = v;
        }
    }

    /// Sets what the server offers its clients.
    fn apply_protocol(&self, cfg: &mut Config)
        ensures
            final(cfg)@ == (ConfigView {
                sys_interval: over(self.sys_interval, old(cfg)@.sys_interval),
                receive_maximum: over(self.receive_maximum, old(cfg)@.receive_maximum),
                topic_alias_maximum: over(self.topic_alias_maximum, old(cfg)@.topic_alias_maximum),
                server_keep_alive: if self.server_keep_alive is Some {
                    self.server_keep_alive
                } else {
                    old(cfg)@.server_keep_alive
                },
                maximum_qos: over(self.maximum_qos, old(cfg)@.maximum_qos),
                retain_available: over(self.retain_available, old(cfg)@.retain_available),
                ..old(cfg)@
            }),
    {
        if let Some(v) = self.sys_interval {
            cfg.sys_interval = v;
        }
        if let Some(v) = self.receive_maximum {
            cfg.receive_maximum = v;
        }
        if let Some(v) = self.topic_alias_maximum {
            cfg.topic_alias_maximum = v;
        }
        if let Some(v) = self.server_keep_alive {
            cfg.server_keep_alive = Some(v);
        }
        if let Some(v) = self.maximum_qos {
            cfg.maximum_qos = v;
        }
        if let Some(v) = self.retain_available {
            cfg.retain_available = v;
        }
    }

    /// Sets what the server exports.
    fn apply_telemetry(&self, cfg: &mut Config)
        ensures
            final(cfg)@ == (ConfigView {
                otlp_endpoint: over_opt(self.otlp_endpoint, old(cfg)@.otlp_endpoint),
                otlp_protocol: over_text(self.otlp_protocol, old(cfg)@.otlp_protocol),
                service_name: over_text(self.service_name, old(cfg)@.service_name),
                otlp_interval: over(self.otlp_interval, old(cfg)@.otlp_interval),
                ..old(cfg)@
            }),
    {
        overlay(&mut cfg.otlp_endpoint, &self.otlp_endpoint);
        if let Some(v) = &self.otlp_protocol {
            cfg.otlp_protocol = v.clone();
        }
        if let Some(v) = &self.service_name {
            cfg.service_name = v.clone();
        }
        if let Some(v) = self.otlp_interval {
            cfg.otlp_interval = v;
        }
    }

    /// Sets what the server tells of itself.
    fn apply_status(&self, cfg: &mut Config)
        ensures
            final(cfg)@ == (ConfigView {
                otlp_metrics: over(self.otlp_metrics, old(cfg)@.otlp_metrics),
                otlp_logs: over(self.otlp_logs, old(cfg)@.otlp_logs),
                ha_discovery: over(self.ha_discovery, old(cfg)@.ha_discovery),
                ha_discovery_prefix: over_text(self.ha_discovery_prefix, old(cfg)@.ha_discovery_prefix),
                ..old(cfg)@
            }),
    {
        if let Some(v) = self.otlp_metrics {
            cfg.otlp_metrics = v;
        }
        if let Some(v) = self.otlp_logs {
            cfg.otlp_logs = v;
        }
        if let Some(v) = self.ha_discovery {
            cfg.ha_discovery = v;
        }
        if let Some(v) = &self.ha_discovery_prefix {
            cfg.ha_discovery_prefix = v.clone();
        }
    }

    /// Sets the options whose flags were passed.
    pub fn apply(&self, cfg: &mut Config)
        ensures
            final(cfg)@ == old(cfg)@.with_flags(*self),
    {
        self.apply_addresses(cfg);
        self.apply_certificates(cfg);
        self.apply_limits(cfg);
        self.apply_protocol(cfg);
        self.apply_telemetry(cfg);
        self.apply_status(cfg);
        if self.otlp_header.len() > 0 {
            cfg.otlp_headers = OtlpHeaders::from_pairs(text::clone_pairs(&self.otlp_header));
        }
    }

    /// The configuration file that the command line or else the environment
    /// names.
    pub fn config_path(&self, vars: &Vec<(String, String)>) -> (r: Option<String>)
        ensures
            text::opt_view(r) == match self.config {
                Some(p) => Some(p@),
                None => variable_value(text::pair_views(vars@), "MQTT_CONFIG_FILE"@),
            },
    {
        match &self.config {
            Some(p) => Some(p.clone()),
            None => find_variable(vars, "MQTT_CONFIG_FILE"),
        }
    }
}

/// Sets a text where the flag was passed.
fn overlay(slot: &mut Option<String>, value: &Option<String>)
    ensures
        text::opt_view(*final(slot)) == over_opt(*value, text::opt_view(*old(slot))),
{
    if let Some(v) = value {
        *slot = Some(v.clone());
    }
}

/// Parses the highest QoS of a flag.
pub fn qos_flag(v: &str) -> (r: core::result::Result<QoS, String>)
    ensures
        match r {
            Ok(q) => qos_of_text(v@) == Some(q),
            Err(e) => qos_of_text(v@) is None && e@ == "expected 0, 1, or 2"@,
        },
{
    match parse_qos_value(v) {
        Some(q) => Ok(q),
        None => Err("expected 0, 1, or 2".to_owned()),
    }
}

/// Parses the truth value of a flag.
pub fn bool_flag(v: &str) -> (r: core::result::Result<bool, String>)
    ensures
        match r {
            Ok(b) => flag_of_text(v@) == Some(b),
            Err(e) => flag_of_text(v@) is None && e@ == "expected true or false"@,
        },
{
    match parse_bool_value(v) {
        Some(b) => Ok(b),
        None => Err("expected true or false".to_owned()),
    }
}

impl Config {
    /// The configuration from all layers: defaults, then the file (its path and
    /// its text), then the environment, then the command line. A password to
    /// hash is answered before anything is read. With the configuration comes a
    /// warning of headers in the environment that are wrong and were passed
    /// over.
    pub fn from_cli(
        cli: Cli,
        file: Option<(String, String)>,
        vars: &Vec<(String, String)>,
    ) -> (r: Result<(Startup, Option<MqttError>)>)
        ensures
            match r {
                Ok((Startup::HashPassword(user), warning)) => warning is None && (
                cli.hash_password matches Some(u) && text::opt_view(user) == text::opt_view(u)),
                Ok((Startup::Run(cfg), warning)) => cli.hash_password is None && ({
                    let all = text::pair_views(vars@);
                    let (c, fault) = ConfigView::defaults().after_file(file);
                    &&& fault is None
                    &&& cfg@ == c.with_environment(all).with_flags(cli)
                    &&& match warning {
                        None => header_variable_fault(all) is None,
                        Some(e) => e matches MqttError::Config(m) && header_variable_fault(all)
                            == Some(m@),
                    }
                }),
                Err(e) => cli.hash_password is None && (e matches MqttError::Config(m)
                    && ConfigView::defaults().after_file(file).1 == Some(m@)),
            },
    {
        let Cli { hash_password, .. } = &cli;
        if let Some(user) = hash_password {
            return Ok((Startup::HashPassword(text::clone_opt_string(user)), None));
        }
        let mut cfg: Config = Config::default();
        if let Some((path, content)) = &file {
            match cfg.apply_json_file(path.as_str(), content.as_str()) {
                Ok(_) => {},
                Err(e) => {
                    return Err(e);
                },
            }
        }
        let warning: Option<MqttError> = cfg.apply_env(vars);
        cli.apply(&mut cfg);
        Ok((Startup::Run(Box::new(cfg)), warning))
    }
}

impl ConfigView {
    /// The configuration after a file, where there is one, and what is wrong with
    /// it.
    pub open spec fn after_file(self, file: Option<(String, String)>) -> (
        ConfigView,
        Option<Seq<char>>,
    ) {
        match file {
            None => (self, None),
            Some(f) => {
                let (c, fault) = self.after_text(f.1@, f.0@);
                (ConfigView { config_file: Some(f.0@), ..c }, fault)
            },
        }
    }
}

/// What the value of an environment variable sets, where it can be used.
pub open spec fn variable_option(s: Setting, v: Option<Seq<char>>) -> Option<OptionValue> {
    match v {
        None => None,
        Some(t) => match s.kind() {
            SettingKind::Address => if is_address(t) {
                Some(OptionValue::Text(Some(t)))
            } else {
                None
            },
            SettingKind::Text => Some(OptionValue::Text(Some(t))),
            SettingKind::Flag => match flag_of_text(t) {
                Some(b) => Some(OptionValue::Flag(b)),
                None => None,
            },
            SettingKind::Num32 => match text::parsed_number(t, u32::MAX as nat) {
                Some(n) => Some(OptionValue::Number(Some(n))),
                None => None,
            },
            SettingKind::Num16 => match text::parsed_number(t, u16::MAX as nat) {
                Some(n) => Some(OptionValue::Number(Some(n))),
                None => None,
            },
            SettingKind::Level => match qos_of_text(t) {
                Some(q) => Some(OptionValue::Level(q)),
                None => None,
            },
        },
    }
}

/// What a value of a file sets, where it is neither `null` nor blank.
pub open spec fn file_option(s: Setting, v: JsonView) -> Option<OptionValue> {
    match v {
        JsonView::Str(t) => if (s.kind() is Text || s.kind() is Address) && text::trim(t).len() > 0 {
            Some(OptionValue::Text(Some(text::trim(t))))
        } else {
            None
        },
        JsonView::Bool(b) => if s.kind() is Flag {
            Some(OptionValue::Flag(b))
        } else {
            None
        },
        JsonView::Int(n) => match s.kind() {
            SettingKind::Num32 => Some(OptionValue::Number(Some(n as nat))),
            SettingKind::Num16 => Some(OptionValue::Number(Some(n as nat))),
            SettingKind::Level => Some(
                OptionValue::Level(
                    if n == 0 {
                        QoS::AtMostOnce
                    } else if n == 1 {
                        QoS::AtLeastOnce
                    } else {
                        QoS::ExactlyOnce
                    },
                ),
            ),
            _ => None,
        },
        _ => None,
    }
}

/// Where an option stands in the order in which they are set.
spec fn place(s: Setting) -> int {
    match s {
        Setting::ListenAddr => 0,
        Setting::AdminAddr => 1,
        Setting::WsListenAddr => 2,
        Setting::AdminToken => 3,
        Setting::TlsCert => 4,
        Setting::TlsKey => 5,
        Setting::TlsClientCa => 6,
        Setting::WsTlsCert => 7,
        Setting::WsTlsKey => 8,
        Setting::WsTlsClientCa => 9,
        Setting::AdminTlsCert => 10,
        Setting::AdminTlsKey => 11,
        Setting::AdminTlsClientCa => 12,
        Setting::AclPath => 13,
        Setting::PasswordFile => 14,
        Setting::AllowAnonymous => 15,
        Setting::DbPath => 16,
        Setting::MaxPacketSize => 17,
        Setting::MaxSessionExpiry => 18,
        Setting::MaxQueuedMessages => 19,
        Setting::MaxConnectionsPerIp => 20,
        Setting::ConnectionRateWindowSecs => 21,
        Setting::SysInterval => 22,
        Setting::ReceiveMaximum => 23,
        Setting::TopicAliasMaximum => 24,
        Setting::ServerKeepAlive => 25,
        Setting::MaximumQos => 26,
        Setting::RetainAvailable => 27,
        Setting::OtlpEndpoint => 28,
        Setting::OtlpProtocol => 29,
        Setting::ServiceName => 30,
        Setting::OtlpInterval => 31,
        Setting::OtlpMetrics => 32,
        Setting::OtlpLogs => 33,
        Setting::HaDiscovery => 34,
        Setting::HaDiscoveryPrefix => 35,
    }
}

proof fn lemma_place(s: Setting, k: int)
    requires
        0 <= k < SETTINGS,
    ensures
        0 <= place(s) < SETTINGS,
        setting(place(s)) == s,
        (setting(k) == s) == (k == place(s)),
{
    assert(setting(place(setting(k))) == setting(k));
}

proof fn lemma_with_variable(c: ConfigView, s: Setting, v: Option<Seq<char>>, t: Setting)
    ensures
        c.with_variable(s, v).option(t) == if s == t && variable_option(s, v) is Some {
            variable_option(s, v)->0
        } else {
            c.option(t)
        },
{
    if s != t {
        match s.kind() {
            SettingKind::Address => {},
            SettingKind::Text => {},
            SettingKind::Flag => {},
            SettingKind::Num32 => {},
            SettingKind::Num16 => {},
            SettingKind::Level => {},
        }
    }
}

proof fn lemma_with_variables(
    c: ConfigView,
    vars: Seq<(Seq<char>, Seq<char>)>,
    n: nat,
    s: Setting,
)
    requires
        n <= SETTINGS,
    ensures
        c.with_variables(vars, n).option(s) == if place(s) < n && variable_option(
            s,
            variable_value(vars, s.variable()),
        ) is Some {
            variable_option(s, variable_value(vars, s.variable()))->0
        } else {
            c.option(s)
        },
    decreases n,
{
    if n > 0 {
        let k = n - 1;
        lemma_with_variables(c, vars, k as nat, s);
        lemma_place(s, k);
        let t = setting(k);
        lemma_with_variable(
            c.with_variables(vars, k as nat),
            t,
            variable_value(vars, t.variable()),
            s,
        );
    } else {
        lemma_place(s, 0);
    }
}

proof fn lemma_with_flags(c: ConfigView, cli: Cli, s: Setting)
    ensures
        c.with_flags(cli).option(s) == match cli.flag(s) {
            Some(v) => v,
            None => c.option(s),
        },
{
    match s {
        Setting::ListenAddr => {},
        Setting::AdminAddr => {},
        Setting::WsListenAddr => {},
        Setting::AdminToken => {},
        Setting::TlsCert => {},
        Setting::TlsKey => {},
        Setting::TlsClientCa => {},
        Setting::WsTlsCert => {},
        Setting::WsTlsKey => {},
        Setting::WsTlsClientCa => {},
        Setting::AdminTlsCert => {},
        Setting::AdminTlsKey => {},
        Setting::AdminTlsClientCa => {},
        Setting::AclPath => {},
        Setting::PasswordFile => {},
        Setting::AllowAnonymous => {},
        Setting::DbPath => {},
        Setting::MaxPacketSize => {},
        Setting::MaxSessionExpiry => {},
        Setting::MaxQueuedMessages => {},
        Setting::MaxConnectionsPerIp => {},
        Setting::ConnectionRateWindowSecs => {},
        Setting::SysInterval => {},
        Setting::ReceiveMaximum => {},
        Setting::TopicAliasMaximum => {},
        Setting::ServerKeepAlive => {},
        Setting::MaximumQos => {},
        Setting::RetainAvailable => {},
        Setting::OtlpEndpoint => {},
        Setting::OtlpProtocol => {},
        Setting::ServiceName => {},
        Setting::OtlpInterval => {},
        Setting::OtlpMetrics => {},
        Setting::OtlpLogs => {},
        Setting::HaDiscovery => {},
        Setting::HaDiscoveryPrefix => {},
    }
}

proof fn lemma_with_headers(
    c: ConfigView,
    vars: Seq<(Seq<char>, Seq<char>)>,
    s: Setting,
)
    ensures
        c.with_environment(vars).option(s) == c.with_variables(vars, SETTINGS as nat).option(s),
{
}

/// A flag comes before the environment, and the environment before what was
/// there: the file or the default. What sets nothing leaves the layer below.
pub proof fn flags_then_environment_then_file(
    c: ConfigView,
    vars: Seq<(Seq<char>, Seq<char>)>,
    cli: Cli,
    s: Setting,
)
    ensures
        c.with_environment(vars).with_flags(cli).option(s) == match cli.flag(s) {
            Some(v) => v,
            None => match variable_option(s, variable_value(vars, s.variable())) {
                Some(v) => v,
                None => c.option(s),
            },
        },
{
    lemma_with_variables(c, vars, SETTINGS as nat, s);
    lemma_place(s, 0);
    lemma_with_headers(c, vars, s);
    lemma_with_flags(c.with_environment(vars), cli, s);
}

proof fn lemma_with_json(c: ConfigView, s: Setting, v: JsonView, t: Setting)
    requires
        c.with_json(s, v) is Some,
    ensures
        (c.with_json(s, v)->0).option(t) == if s == t && file_option(s, v) is Some {
            file_option(s, v)->0
        } else {
            c.option(t)
        },
{
    if v is Int && s.kind() is Level {
        let n = v->Int_0;
        assert(n == 0 || n == 1 || n == 2);
    }
    if s == t {
        match s {
            Setting::ListenAddr => {},
            Setting::AdminAddr => {},
            Setting::WsListenAddr => {},
            Setting::AdminToken => {},
            Setting::TlsCert => {},
            Setting::TlsKey => {},
            Setting::TlsClientCa => {},
            Setting::WsTlsCert => {},
            Setting::WsTlsKey => {},
            Setting::WsTlsClientCa => {},
            Setting::AdminTlsCert => {},
            Setting::AdminTlsKey => {},
            Setting::AdminTlsClientCa => {},
            Setting::AclPath => {},
            Setting::PasswordFile => {},
            Setting::AllowAnonymous => {},
            Setting::DbPath => {},
            Setting::MaxPacketSize => {},
            Setting::MaxSessionExpiry => {},
            Setting::MaxQueuedMessages => {},
            Setting::MaxConnectionsPerIp => {},
            Setting::ConnectionRateWindowSecs => {},
            Setting::SysInterval => {},
            Setting::ReceiveMaximum => {},
            Setting::TopicAliasMaximum => {},
            Setting::ServerKeepAlive => {},
            Setting::MaximumQos => {},
            Setting::RetainAvailable => {},
            Setting::OtlpEndpoint => {},
            Setting::OtlpProtocol => {},
            Setting::ServiceName => {},
            Setting::OtlpInterval => {},
            Setting::OtlpMetrics => {},
            Setting::OtlpLogs => {},
            Setting::HaDiscovery => {},
            Setting::HaDiscoveryPrefix => {},
        }
    }
}

proof fn lemma_with_json_settings(c: ConfigView, doc: JsonView, n: nat, s: Setting)
    requires
        n <= SETTINGS,
        c.with_json_settings(doc, n).1,
    ensures
        c.with_json_settings(doc, n).0.option(s) == if place(s) < n && file_option(
            s,
            doc.at(s.key()),
        ) is Some {
            file_option(s, doc.at(s.key()))->0
        } else {
            c.option(s)
        },
    decreases n,
{
    if n > 0 {
        let k = n - 1;
        lemma_with_json_settings(c, doc, k as nat, s);
        lemma_place(s, k);
        let t = setting(k);
        lemma_with_json(c.with_json_settings(doc, k as nat).0, t, doc.at(t.key()), s);
    } else {
        lemma_place(s, 0);
    }
}

/// Where a file is right, an option is what it says, or else what it was.
pub proof fn file_sets_what_it_names(c: ConfigView, doc: JsonView, s: Setting)
    requires
        c.with_json_settings(doc, SETTINGS as nat).1,
    ensures
        c.with_json_settings(doc, SETTINGS as nat).0.option(s) == match file_option(
            s,
            doc.at(s.key()),
        ) {
            Some(v) => v,
            None => c.option(s),
        },
{
    lemma_with_json_settings(c, doc, SETTINGS as nat, s);
    lemma_place(s, 0);
}

/// Without flags nothing changes.
pub proof fn no_flags_change_nothing(c: ConfigView, cli: Cli)
    requires
        forall|s: Setting| #[trigger] cli.flag(s) is None,
        cli.otlp_header@.len() == 0,
    ensures
        c.with_flags(cli) == c,
{
    assert(cli.flag(Setting::ListenAddr) is None);
    assert(cli.flag(Setting::AdminAddr) is None);
    assert(cli.flag(Setting::WsListenAddr) is None);
    assert(cli.flag(Setting::AdminToken) is None);
    assert(cli.flag(Setting::TlsCert) is None);
    assert(cli.flag(Setting::TlsKey) is None);
    assert(cli.flag(Setting::TlsClientCa) is None);
    assert(cli.flag(Setting::WsTlsCert) is None);
    assert(cli.flag(Setting::WsTlsKey) is None);
    assert(cli.flag(Setting::WsTlsClientCa) is None);
    assert(cli.flag(Setting::AdminTlsCert) is None);
    assert(cli.flag(Setting::AdminTlsKey) is None);
    assert(cli.flag(Setting::AdminTlsClientCa) is None);
    assert(cli.flag(Setting::AclPath) is None);
    assert(cli.flag(Setting::PasswordFile) is None);
    assert(cli.flag(Setting::AllowAnonymous) is None);
    assert(cli.flag(Setting::DbPath) is None);
    assert(cli.flag(Setting::MaxPacketSize) is None);
    assert(cli.flag(Setting::MaxSessionExpiry) is None);
    assert(cli.flag(Setting::MaxQueuedMessages) is None);
    assert(cli.flag(Setting::MaxConnectionsPerIp) is None);
    assert(cli.flag(Setting::ConnectionRateWindowSecs) is None);
    assert(cli.flag(Setting::SysInterval) is None);
    assert(cli.flag(Setting::ReceiveMaximum) is None);
    assert(cli.flag(Setting::TopicAliasMaximum) is None);
    assert(cli.flag(Setting::ServerKeepAlive) is None);
    assert(cli.flag(Setting::MaximumQos) is None);
    assert(cli.flag(Setting::RetainAvailable) is None);
    assert(cli.flag(Setting::OtlpEndpoint) is None);
    assert(cli.flag(Setting::OtlpProtocol) is None);
    assert(cli.flag(Setting::ServiceName) is None);
    assert(cli.flag(Setting::OtlpInterval) is None);
    assert(cli.flag(Setting::OtlpMetrics) is None);
    assert(cli.flag(Setting::OtlpLogs) is None);
    assert(cli.flag(Setting::HaDiscovery) is None);
    assert(cli.flag(Setting::HaDiscoveryPrefix) is None);
}

} // verus!
