//! Configuration of an overlay node.
//!
//! A `PipeConfig` gathers everything a node needs at construction time:
//! transport sizing, maintenance pacing, bootstrap peers and STUN
//! sources. All times are in milliseconds. Each `set_*` method takes the
//! record by value and returns it with exactly one field replaced, so
//! configurations can be written as a chain of calls.

use vstd::prelude::*;

use crate::node::{NodeAddress, NodeID, PeerNodeAddress};

verus! {

/// Number of main UDP pipes (and the default TCP multiplexing limit).
pub const MULTI_PIPELINE: usize = 2;

/// Extra UDP sockets per main pipe, used to widen punch coverage.
pub const UDP_SUB_PIPELINE_NUM: usize = 82;

/// How long a route may go without inbound traffic before it is
/// evicted, in milliseconds.
pub const ROUTE_IDLE_TIME: u64 = 10_000;

/// Fan-out model for the UDP sub-sockets: `High` binds the extra
/// sub-pipe sockets for punch storms, `Low` keeps only the main pipes.
#[derive(Debug, PartialEq, Eq, Structural, Clone, Copy)]
pub enum Model {
    High,
    Low,
}

impl Default for Model {
    fn default() -> (r: Self)
        ensures
            r == Model::Low,
    {
        Model::Low
    }
}

/// A local network interface to bind sockets on, by index and,
/// where the platform names interfaces, by name.
#[derive(Debug, Clone)]
pub struct LocalInterface {
    pub index: u32,
    pub name: Option<String>,
}

impl LocalInterface {
    pub fn new(index: u32, name: Option<String>) -> (r: Self)
        ensures
            r.index == index,
            r.name == name,
    {
        Self { index, name }
    }
}

impl Default for LocalInterface {
    fn default() -> (r: Self)
        ensures
            r.index == 0,
            r.name is None,
    {
        Self { index: 0, name: None }
    }
}

/// Top-level configuration of a node.
pub struct PipeConfig {
    /// Prefer the lowest-latency route over the lowest-cost one.
    pub first_latency: bool,
    /// Number of main pipes.
    pub multi_pipeline: usize,
    /// Idle-route eviction threshold, in milliseconds.
    pub route_idle_time: u64,
    pub udp_pipe_config: Option<UdpPipeConfig>,
    pub tcp_pipe_config: Option<TcpPipeConfig>,
    /// Enable TXT-record peer discovery and extended headers.
    pub enable_extend: bool,
    pub self_id: Option<NodeID>,
    /// Bootstrap peers to dial eagerly.
    pub direct_addrs: Option<Vec<PeerNodeAddress>>,
    /// Bounded queue depth per direction.
    pub send_buffer_size: usize,
    /// Identifier-query pacing, in milliseconds.
    pub query_id_interval: u64,
    /// Routes queried for an unknown identifier per tick.
    pub query_id_max_num: usize,
    /// Heartbeat pacing, in milliseconds.
    pub heartbeat_interval: u64,
    pub tcp_stun_servers: Option<Vec<String>>,
    pub udp_stun_servers: Option<Vec<String>>,
    /// Statically declared reflexive endpoints.
    pub mapping_addrs: Option<Vec<NodeAddress>>,
    /// Override DNS servers for STUN and bootstrap resolution.
    pub dns: Option<Vec<String>>,
}

impl PipeConfig {
    /// The default configuration, field by field.
    pub open spec fn is_default(self) -> bool {
        &&& self.first_latency == false
        &&& self.multi_pipeline == MULTI_PIPELINE
        &&& self.route_idle_time == ROUTE_IDLE_TIME
        &&& self.udp_pipe_config matches Some(u) && u.is_default()
        &&& self.tcp_pipe_config matches Some(t) && t.is_default()
        &&& self.enable_extend == false
        &&& self.self_id is None
        &&& self.direct_addrs is None
        &&& self.send_buffer_size == 2048
        &&& self.query_id_interval == 12_000
        &&& self.query_id_max_num == 5
        &&& self.heartbeat_interval == 5_000
        &&& self.tcp_stun_servers matches Some(v) && {
            &&& v@.len() == 3
            &&& v@[0]@ == "stun.flashdance.cx"@
            &&& v@[1]@ == "stun.sipnet.net"@
            &&& v@[2]@ == "stun.nextcloud.com:443"@
        }
        &&& self.udp_stun_servers matches Some(v) && {
            &&& v@.len() == 6
            &&& v@[0]@ == "stun.miwifi.com"@
            &&& v@[1]@ == "stun.chat.bilibili.com"@
            &&& v@[2]@ == "stun.hitv.com"@
            &&& v@[3]@ == "stun.l.google.com:19302"@
            &&& v@[4]@ == "stun1.l.google.com:19302"@
            &&& v@[5]@ == "stun2.l.google.com:19302"@
        }
        &&& self.mapping_addrs is None
        &&& self.dns is None
    }
}

impl Default for PipeConfig {
    fn default() -> (r: Self)
        ensures
            r.is_default(),
    {
        let mut tcp_stun: Vec<String> = Vec::new();
        tcp_stun.push("stun.flashdance.cx".to_owned());
        tcp_stun.push("stun.sipnet.net".to_owned());
        tcp_stun.push("stun.nextcloud.com:443".to_owned());
        let mut udp_stun: Vec<String> = Vec::new();
        udp_stun.push("stun.miwifi.com".to_owned());
        udp_stun.push("stun.chat.bilibili.com".to_owned());
        udp_stun.push("stun.hitv.com".to_owned());
        udp_stun.push("stun.l.google.com:19302".to_owned());
        udp_stun.push("stun1.l.google.com:19302".to_owned());
        udp_stun.push("stun2.l.google.com:19302".to_owned());
        Self {
            first_latency: false,
            multi_pipeline: MULTI_PIPELINE,
            route_idle_time: ROUTE_IDLE_TIME,
            udp_pipe_config: Some(Default::default()),
            tcp_pipe_config: Some(Default::default()),
            enable_extend: false,
            self_id: None,
            direct_addrs: None,
            send_buffer_size: 2048,
            query_id_interval: 12_000,
            query_id_max_num: 5,
            heartbeat_interval: 5_000,
            tcp_stun_servers: Some(tcp_stun),
            udp_stun_servers: Some(udp_stun),
            mapping_addrs: None,
            dns: None,
        }
    }
}

impl PipeConfig {
    /// A configuration that carries no TCP-specific overrides beyond the
    /// record itself; kept for call-site symmetry with the other builders.
    pub fn none_tcp(self) -> (r: Self)
        ensures
            r == self,
    {
        self
    }

    pub fn empty() -> (r: Self)
        ensures
            r.is_default(),
    {
        Default::default()
    }

    pub fn set_first_latency(self, first_latency: bool) -> (r: Self)
        ensures
            r == (Self { first_latency, ..self }),
    {
        let mut c = self;
        c.first_latency = first_latency;
        c
    }

    pub fn set_main_pipeline_num(self, main_pipeline_num: usize) -> (r: Self)
        ensures
            r == (Self { multi_pipeline: main_pipeline_num, ..self }),
    {
        let mut c = self;
        c.multi_pipeline = main_pipeline_num;
        c
    }

    pub fn set_enable_extend(self, enable_extend: bool) -> (r: Self)
        ensures
            r == (Self { enable_extend, ..self }),
    {
        let mut c = self;
        c.enable_extend = enable_extend;
        c
    }

    pub fn set_udp_pipe_config(self, udp_pipe_config: UdpPipeConfig) -> (r: Self)
        ensures
            r == (Self { udp_pipe_config: Some(udp_pipe_config), ..self }),
    {
        let mut c = self;
        c.udp_pipe_config = Some(udp_pipe_config);
        c
    }

    pub fn set_tcp_pipe_config(self, tcp_pipe_config: TcpPipeConfig) -> (r: Self)
        ensures
            r == (Self { tcp_pipe_config: Some(tcp_pipe_config), ..self }),
    {
        let mut c = self;
        c.tcp_pipe_config = Some(tcp_pipe_config);
        c
    }

    pub fn set_node_id(self, self_id: NodeID) -> (r: Self)
        ensures
            r == (Self { self_id: Some(self_id), ..self }),
    {
        let mut c = self;
        c.self_id = Some(self_id);
        c
    }

    pub fn set_direct_addrs(self, direct_addrs: Vec<PeerNodeAddress>) -> (r: Self)
        ensures
            r == (Self { direct_addrs: Some(direct_addrs), ..self }),
    {
        let mut c = self;
        c.direct_addrs = Some(direct_addrs);
        c
    }

    pub fn set_send_buffer_size(self, send_buffer_size: usize) -> (r: Self)
        ensures
            r == (Self { send_buffer_size, ..self }),
    {
        let mut c = self;
        c.send_buffer_size = send_buffer_size;
        c
    }

    pub fn set_query_id_interval(self, query_id_interval: u64) -> (r: Self)
        ensures
            r == (Self { query_id_interval, ..self }),
    {
        let mut c = self;
        c.query_id_interval = query_id_interval;
        c
    }

    pub fn set_query_id_max_num(self, query_id_max_num: usize) -> (r: Self)
        ensures
            r == (Self { query_id_max_num, ..self }),
    {
        let mut c = self;
        c.query_id_max_num = query_id_max_num;
        c
    }

    pub fn set_heartbeat_interval(self, heartbeat_interval: u64) -> (r: Self)
        ensures
            r == (Self { heartbeat_interval, ..self }),
    {
        let mut c = self;
        c.heartbeat_interval = heartbeat_interval;
        c
    }

    pub fn set_tcp_stun_servers(self, tcp_stun_servers: Vec<String>) -> (r: Self)
        ensures
            r == (Self { tcp_stun_servers: Some(tcp_stun_servers), ..self }),
    {
        let mut c = self;
        c.tcp_stun_servers = Some(tcp_stun_servers);
        c
    }

    pub fn set_udp_stun_servers(self, udp_stun_servers: Vec<String>) -> (r: Self)
        ensures
            r == (Self { udp_stun_servers: Some(udp_stun_servers), ..self }),
    {
        let mut c = self;
        c.udp_stun_servers = Some(udp_stun_servers);
        c
    }

    pub fn set_mapping_addrs(self, mapping_addrs: Vec<NodeAddress>) -> (r: Self)
        ensures
            r == (Self { mapping_addrs: Some(mapping_addrs), ..self }),
    {
        let mut c = self;
        c.mapping_addrs = Some(mapping_addrs);
        c
    }

    pub fn set_dns(self, dns: Vec<String>) -> (r: Self)
        ensures
            r == (Self { dns: Some(dns), ..self }),
    {
        let mut c = self;
        c.dns = Some(dns);
        c
    }
}

/// Configuration of the TCP listener and its multiplexed connections.
pub struct TcpPipeConfig {
    /// Idle-route eviction threshold, in milliseconds.
    pub route_idle_time: u64,
    /// Logical routes one TCP connection may carry.
    pub tcp_multiplexing_limit: usize,
    pub default_interface: Option<LocalInterface>,
    /// Listener port; zero asks for an ephemeral port.
    pub tcp_port: u16,
    pub use_v6: bool,
}

impl TcpPipeConfig {
    pub open spec fn is_default(self) -> bool {
        &&& self.route_idle_time == ROUTE_IDLE_TIME
        &&& self.tcp_multiplexing_limit == MULTI_PIPELINE
        &&& self.default_interface is None
        &&& self.tcp_port == 0
        &&& self.use_v6 == true
    }
}

impl Default for TcpPipeConfig {
    fn default() -> (r: Self)
        ensures
            r.is_default(),
    {
        Self {
            route_idle_time: ROUTE_IDLE_TIME,
            tcp_multiplexing_limit: MULTI_PIPELINE,
            default_interface: None,
            tcp_port: 0,
            use_v6: true,
        }
    }
}

impl TcpPipeConfig {
    pub fn set_tcp_multiplexing_limit(self, tcp_multiplexing_limit: usize) -> (r: Self)
        ensures
            r == (Self { tcp_multiplexing_limit, ..self }),
    {
        let mut c = self;
        c.tcp_multiplexing_limit = tcp_multiplexing_limit;
        c
    }

    pub fn set_route_idle_time(self, route_idle_time: u64) -> (r: Self)
        ensures
            r == (Self { route_idle_time, ..self }),
    {
        let mut c = self;
        c.route_idle_time = route_idle_time;
        c
    }

    pub fn set_default_interface(self, default_interface: LocalInterface) -> (r: Self)
        ensures
            r == (Self { default_interface: Some(default_interface), ..self }),
    {
        let mut c = self;
        c.default_interface = Some(default_interface);
        c
    }

    pub fn set_tcp_port(self, tcp_port: u16) -> (r: Self)
        ensures
            r == (Self { tcp_port, ..self }),
    {
        let mut c = self;
        c.tcp_port = tcp_port;
        c
    }

    pub fn set_use_v6(self, use_v6: bool) -> (r: Self)
        ensures
            r == (Self { use_v6, ..self }),
    {
        let mut c = self;
        c.use_v6 = use_v6;
        c
    }
}

/// Configuration of the UDP pipes.
#[derive(Clone)]
pub struct UdpPipeConfig {
    pub main_pipeline_num: usize,
    /// Extra sockets per main pipe, bound only under `Model::High`.
    pub sub_pipeline_num: usize,
    pub model: Model,
    pub default_interface: Option<LocalInterface>,
    /// Ports to bind, one main pipe per entry; zero asks for an
    /// ephemeral port.
    pub udp_ports: Vec<u16>,
    pub use_v6: bool,
}

impl UdpPipeConfig {
    pub open spec fn is_default(self) -> bool {
        &&& self.main_pipeline_num == MULTI_PIPELINE
        &&& self.sub_pipeline_num == UDP_SUB_PIPELINE_NUM
        &&& self.model == Model::Low
        &&& self.default_interface is None
        &&& self.udp_ports@ == seq![0u16, 0u16]
        &&& self.use_v6 == true
    }
}

impl Default for UdpPipeConfig {
    fn default() -> (r: Self)
        ensures
            r.is_default(),
    {
        let mut udp_ports: Vec<u16> = Vec::new();
        udp_ports.push(0);
        udp_ports.push(0);
        assert(udp_ports@ =~= seq![0u16, 0u16]);
        Self {
            main_pipeline_num: MULTI_PIPELINE,
            sub_pipeline_num: UDP_SUB_PIPELINE_NUM,
            model: Model::Low,
            default_interface: None,
            udp_ports,
            use_v6: true,
        }
    }
}

impl UdpPipeConfig {
    pub fn set_main_pipeline_num(self, main_pipeline_num: usize) -> (r: Self)
        ensures
            r == (Self { main_pipeline_num, ..self }),
    {
        let mut c = self;
        c.main_pipeline_num = main_pipeline_num;
        c
    }

    pub fn set_sub_pipeline_num(self, sub_pipeline_num: usize) -> (r: Self)
        ensures
            r == (Self { sub_pipeline_num, ..self }),
    {
        let mut c = self;
        c.sub_pipeline_num = sub_pipeline_num;
        c
    }

    pub fn set_model(self, model: Model) -> (r: Self)
        ensures
            r == (Self { model, ..self }),
    {
        let mut c = self;
        c.model = model;
        c
    }

    pub fn set_default_interface(self, default_interface: LocalInterface) -> (r: Self)
        ensures
            r == (Self { default_interface: Some(default_interface), ..self }),
    {
        let mut c = self;
        c.default_interface = Some(default_interface);
        c
    }

    pub fn set_udp_ports(self, udp_ports: Vec<u16>) -> (r: Self)
        ensures
            r == (Self { udp_ports, ..self }),
    {
        let mut c = self;
        c.udp_ports = udp_ports;
        c
    }

    /// Bind a single main pipe on the given port.
    pub fn set_simple_udp_port(self, udp_port: u16) -> (r: Self)
        ensures
            r.udp_ports@ == seq![udp_port],
            r == (Self { udp_ports: r.udp_ports, ..self }),
    {
        let mut ports: Vec<u16> = Vec::new();
        ports.push(udp_port);
        assert(ports@ =~= seq![udp_port]);
        let mut c = self;
        c.udp_ports = ports;
        c
    }

    pub fn set_use_v6(self, use_v6: bool) -> (r: Self)
        ensures
            r == (Self { use_v6, ..self }),
    {
        let mut c = self;
        c.use_v6 = use_v6;
        c
    }
}

} // verus!
