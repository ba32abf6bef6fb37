use rustp2p::config::{
    LocalInterface, Model, PipeConfig, TcpPipeConfig, UdpPipeConfig, MULTI_PIPELINE,
    ROUTE_IDLE_TIME, UDP_SUB_PIPELINE_NUM,
};
use rustp2p::node::{NodeAddress, NodeID, PeerNodeAddress, SockAddr};

#[test]
fn pipe_config_defaults() {
    let c = PipeConfig::default();
    assert!(!c.first_latency);
    assert_eq!(c.multi_pipeline, MULTI_PIPELINE);
    assert_eq!(c.route_idle_time, ROUTE_IDLE_TIME);
    assert!(!c.enable_extend);
    assert!(c.self_id.is_none());
    assert!(c.direct_addrs.is_none());
    assert_eq!(c.send_buffer_size, 2048);
    assert_eq!(c.query_id_interval, 12_000);
    assert_eq!(c.query_id_max_num, 5);
    assert_eq!(c.heartbeat_interval, 5_000);
    assert_eq!(
        c.tcp_stun_servers.unwrap(),
        vec![
            "stun.flashdance.cx".to_string(),
            "stun.sipnet.net".to_string(),
            "stun.nextcloud.com:443".to_string(),
        ]
    );
    assert_eq!(
        c.udp_stun_servers.unwrap(),
        vec![
            "stun.miwifi.com".to_string(),
            "stun.chat.bilibili.com".to_string(),
            "stun.hitv.com".to_string(),
            "stun.l.google.com:19302".to_string(),
            "stun1.l.google.com:19302".to_string(),
            "stun2.l.google.com:19302".to_string(),
        ]
    );
    assert!(c.mapping_addrs.is_none());
    assert!(c.dns.is_none());
    assert!(c.udp_pipe_config.is_some());
    assert!(c.tcp_pipe_config.is_some());
}

#[test]
fn pipe_config_empty_equals_default() {
    let c = PipeConfig::empty();
    assert_eq!(c.multi_pipeline, MULTI_PIPELINE);
    assert_eq!(c.send_buffer_size, 2048);
    assert!(c.udp_pipe_config.is_some());
}

#[test]
fn udp_pipe_config_defaults() {
    let u = UdpPipeConfig::default();
    assert_eq!(u.main_pipeline_num, MULTI_PIPELINE);
    assert_eq!(u.sub_pipeline_num, UDP_SUB_PIPELINE_NUM);
    assert_eq!(u.sub_pipeline_num, 82);
    assert_eq!(u.model, Model::Low);
    assert!(u.default_interface.is_none());
    assert_eq!(u.udp_ports, vec![0, 0]);
    assert!(u.use_v6);
}

#[test]
fn tcp_pipe_config_defaults() {
    let t = TcpPipeConfig::default();
    assert_eq!(t.route_idle_time, ROUTE_IDLE_TIME);
    assert_eq!(t.tcp_multiplexing_limit, MULTI_PIPELINE);
    assert!(t.default_interface.is_none());
    assert_eq!(t.tcp_port, 0);
    assert!(t.use_v6);
}

#[test]
fn model_default_is_low() {
    assert_eq!(Model::default(), Model::Low);
}

#[test]
fn local_interface_new_keeps_fields() {
    let li = LocalInterface::new(7, Some("eth0".to_string()));
    assert_eq!(li.index, 7);
    assert_eq!(li.name.as_deref(), Some("eth0"));
    let d = LocalInterface::default();
    assert_eq!(d.index, 0);
    assert!(d.name.is_none());
}

#[test]
fn pipe_config_setter_chain() {
    let id = NodeID::Short([10, 0, 0, 1]);
    let peer = PeerNodeAddress::Socket(NodeAddress::Udp(SockAddr::V4 {
        ip: [127, 0, 0, 1],
        port: 3000,
    }));
    let c = PipeConfig::empty()
        .set_first_latency(true)
        .set_main_pipeline_num(4)
        .set_enable_extend(true)
        .set_node_id(id)
        .set_direct_addrs(vec![peer])
        .set_send_buffer_size(512)
        .set_query_id_interval(9_000)
        .set_query_id_max_num(3)
        .set_heartbeat_interval(1_000)
        .set_tcp_stun_servers(vec!["a".to_string()])
        .set_udp_stun_servers(vec!["b".to_string()])
        .set_mapping_addrs(vec![NodeAddress::Tcp(SockAddr::V4 { ip: [1, 1, 1, 1], port: 80 })])
        .set_dns(vec!["9.9.9.9:53".to_string()]);
    assert!(c.first_latency);
    assert_eq!(c.multi_pipeline, 4);
    assert!(c.enable_extend);
    assert_eq!(c.self_id.unwrap(), NodeID::Short([10, 0, 0, 1]));
    assert_eq!(c.direct_addrs.as_ref().unwrap().len(), 1);
    assert_eq!(c.send_buffer_size, 512);
    assert_eq!(c.query_id_interval, 9_000);
    assert_eq!(c.query_id_max_num, 3);
    assert_eq!(c.heartbeat_interval, 1_000);
    assert_eq!(c.tcp_stun_servers.unwrap(), vec!["a".to_string()]);
    assert_eq!(c.udp_stun_servers.unwrap(), vec!["b".to_string()]);
    assert_eq!(c.mapping_addrs.unwrap().len(), 1);
    assert_eq!(c.dns.unwrap(), vec!["9.9.9.9:53".to_string()]);
    // A setter replaces its own field only.
    assert_eq!(c.route_idle_time, ROUTE_IDLE_TIME);
}

#[test]
fn pipe_config_sub_configs_are_replaced() {
    let u = UdpPipeConfig::default().set_main_pipeline_num(1);
    let t = TcpPipeConfig::default().set_tcp_port(4444);
    let c = PipeConfig::empty().set_udp_pipe_config(u).set_tcp_pipe_config(t);
    assert_eq!(c.udp_pipe_config.as_ref().unwrap().main_pipeline_num, 1);
    assert_eq!(c.tcp_pipe_config.as_ref().unwrap().tcp_port, 4444);
}

#[test]
fn pipe_config_none_tcp_is_identity() {
    let c = PipeConfig::empty().set_send_buffer_size(99).none_tcp();
    assert_eq!(c.send_buffer_size, 99);
}

#[test]
fn udp_pipe_config_setters() {
    let u = UdpPipeConfig::default()
        .set_main_pipeline_num(3)
        .set_sub_pipeline_num(10)
        .set_model(Model::High)
        .set_default_interface(LocalInterface::new(2, None))
        .set_udp_ports(vec![1000, 1001])
        .set_use_v6(false);
    assert_eq!(u.main_pipeline_num, 3);
    assert_eq!(u.sub_pipeline_num, 10);
    assert_eq!(u.model, Model::High);
    assert_eq!(u.default_interface.as_ref().unwrap().index, 2);
    assert_eq!(u.udp_ports, vec![1000, 1001]);
    assert!(!u.use_v6);
}

#[test]
fn udp_pipe_config_simple_port_replaces_list() {
    let u = UdpPipeConfig::default().set_simple_udp_port(5555);
    assert_eq!(u.udp_ports, vec![5555]);
}

#[test]
fn tcp_pipe_config_setters() {
    let t = TcpPipeConfig::default()
        .set_tcp_multiplexing_limit(8)
        .set_route_idle_time(30_000)
        .set_default_interface(LocalInterface::new(9, None))
        .set_tcp_port(8080)
        .set_use_v6(false);
    assert_eq!(t.tcp_multiplexing_limit, 8);
    assert_eq!(t.route_idle_time, 30_000);
    assert_eq!(t.default_interface.as_ref().unwrap().index, 9);
    assert_eq!(t.tcp_port, 8080);
    assert!(!t.use_v6);
}
