//! The server's configuration, as plain values.

use vstd::prelude::*;
use crate::resolver::Mode;

verus! {

/// Port of plain DNS over UDP and TCP where the file names none.
pub const DEFAULT_DNS_PORT: u16 = 53;

/// Port of DNS over TLS where the file names none.
pub const DEFAULT_TLS_PORT: u16 = 853;

/// Port of DNS over HTTPS where the file names none.
pub const DEFAULT_HTTPS_PORT: u16 = 443;

/// An internet address, by its number.
#[derive(Clone, Copy, Debug, PartialEq, Eq)]
pub enum IpAddress {
    V4(u32),
    V6(u128),
}

/// The server section of a configuration file, as it was read.
#[derive(Debug, PartialEq, Eq)]
pub struct ServerSettings {
    pub enable_tcp: bool,
    pub enable_https: bool,
    pub enable_tls: bool,
    pub basic_port: Option<u16>,
    pub tls_port: Option<u16>,
    pub https_port: Option<u16>,
    pub ip_addrs: Vec<IpAddress>,
}

/// What the server runs with: the addresses to listen on, the transports
/// to offer and their ports, and whether questions are passed on.
#[derive(Debug, PartialEq, Eq)]
pub struct Config {
    pub mode: Mode,
    pub listeners: Vec<IpAddress>,
    pub enable_tcp: bool,
    pub enable_https: bool,
    pub enable_tls: bool,
    pub std_listen_port: u16,
    pub https_listen_port: u16,
    pub tls_listen_port: u16,
}

/// The port that a file names, or `default` where it names none.
pub open spec fn port_or(port: Option<u16>, default: u16) -> u16 {
    match port {
        Some(p) => p,
        None => default,
    }
}

impl Config {
    /// The configuration that the settings of a file stand for.
    ///
    /// The addresses and switches are taken as they are, a port that the
    /// file does not name is the usual one of its transport, and the server
    /// is authoritative.
    pub fn parse_config(server: ServerSettings) -> (c: Config)
        ensures
            c.mode == Mode::Authoritative,
            c.listeners@ == server.ip_addrs@,
            c.enable_tcp == server.enable_tcp,
            c.enable_https == server.enable_https,
            c.enable_tls == server.enable_tls,
            c.std_listen_port == port_or(server.basic_port, DEFAULT_DNS_PORT),
            c.tls_listen_port == port_or(server.tls_port, DEFAULT_TLS_PORT),
            c.https_listen_port == port_or(server.https_port, DEFAULT_HTTPS_PORT),
    {
        let std_port: u16 = match server.basic_port {
            Some(p) => p,
            None => DEFAULT_DNS_PORT,
        };
        let tls_port: u16 = match server.tls_port {
            Some(p) => p,
            None => DEFAULT_TLS_PORT,
        };
        let https_port: u16 = match server.https_port {
            Some(p) => p,
            None => DEFAULT_HTTPS_PORT,
        };
        Config {
            mode: Mode::Authoritative,
            listeners: server.ip_addrs,
            enable_tcp: server.enable_tcp,
            enable_https: server.enable_https,
            enable_tls: server.enable_tls,
            std_listen_port: std_port,
            https_listen_port: https_port,
            tls_listen_port: tls_port,
        }
    }
}

/// Reads the short form of a configuration file, which names one socket.
pub struct ConfigParser {}

impl ConfigParser {
    /// The configuration that one socket stands for: an authoritative
    /// server that listens on `address` at `port`, without TCP, TLS or
    /// HTTPS, whose ports are the usual ones.
    pub fn parse_file(address: IpAddress, port: u16) -> (c: Config)
        ensures
            c.mode == Mode::Authoritative,
            c.listeners@ == seq![address],
            !c.enable_tcp && !c.enable_https && !c.enable_tls,
            c.std_listen_port == port,
            c.tls_listen_port == DEFAULT_TLS_PORT,
            c.https_listen_port == DEFAULT_HTTPS_PORT,
    {
        let mut listeners: Vec<IpAddress> = Vec::new();
        listeners.push(address);
        Config {
            mode: Mode::Authoritative,
            listeners,
            enable_tcp: false,
            enable_https: false,
            enable_tls: false,
            std_listen_port: port,
            https_listen_port: DEFAULT_HTTPS_PORT,
            tls_listen_port: DEFAULT_TLS_PORT,
        }
    }
}

} // verus!
