//! Address formatting from the two configuration types.

use crosslive::config::socket_addr_string;
use crosslive::config::ClientConfig;
use crosslive::config::MasterConfig;

#[test]
fn socket_addr_joins_host_and_port() {
    assert_eq!(socket_addr_string("127.0.0.1", 8080), "127.0.0.1:8080");
    assert_eq!(socket_addr_string("localhost", 0), "localhost:0");
    assert_eq!(socket_addr_string("example.org", 65535), "example.org:65535");
    assert_eq!(socket_addr_string("", 7), ":7");
}

#[test]
fn client_config_formats_master_addr() {
    let c = ClientConfig { master_addr: "10.0.0.2".to_string(), master_port: 4040 };
    assert_eq!(c.master_addr(), "10.0.0.2:4040");
}

#[test]
fn master_config_formats_listen_addr() {
    let c = MasterConfig { host_ip: "0.0.0.0".to_string(), host_port: 9000 };
    assert_eq!(c.master_addr(), "0.0.0.0:9000");
}
