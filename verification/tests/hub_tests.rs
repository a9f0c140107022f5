use simple_network::connector::{TcpConnector, UnixConnector};
use simple_network::device::{
    Device, DeviceInfo, DeviceMgr, DeviceOfflineRequest, DeviceOnlineRequest,
};
use simple_network::factory::{Factory, StreamType};
use simple_network::service::{Service, ServiceMgr};

fn online(id: &str, name: &str, address: &str) -> DeviceOnlineRequest {
    DeviceOnlineRequest {
        device: Some(DeviceInfo {
            device_id: id.to_string(),
            device_name: name.to_string(),
            device_address: address.to_string(),
        }),
    }
}

#[test]
fn stream_type_by_colon() {
    assert_eq!(Factory::stream_type("localhost:8080"), StreamType::TCP);
    assert_eq!(Factory::stream_type("/tmp/simple"), StreamType::UNIX);
    assert_eq!(Factory::stream_type(""), StreamType::UNIX);
    assert_eq!(Factory::stream_type(":"), StreamType::TCP);
}

#[test]
fn connectors_keep_server_name() {
    assert_eq!(UnixConnector::new("/tmp/s").server_name(), "/tmp/s");
    assert_eq!(TcpConnector::new("h:1").server_name(), "h:1");
}

#[test]
fn device_new_keeps_fields() {
    let d = Device::new("id1", "lamp", "10.0.0.1");
    assert_eq!((d.id(), d.name(), d.address()), ("id1", "lamp", "10.0.0.1"));
    let _ = Service::new();
    let _ = ServiceMgr::new();
}

#[test]
fn device_online_then_offline() {
    let mut mgr = DeviceMgr::new();
    assert!(mgr.device("a").is_none());
    mgr.on_device_online(online("a", "lamp", "addr1"));
    mgr.on_device_online(online("b", "fan", "addr2"));
    assert_eq!(mgr.device("a").map(|d| d.name().to_string()), Some("lamp".to_string()));
    mgr.on_device_online(online("a", "lamp2", "addr3"));
    let a = mgr.device("a").expect("a is online");
    assert_eq!((a.name(), a.address()), ("lamp2", "addr3"));
    mgr.on_device_offline(DeviceOfflineRequest { device_id: "a".to_string() });
    assert!(mgr.device("a").is_none());
    assert_eq!(mgr.device("b").map(|d| d.address().to_string()), Some("addr2".to_string()));
}

#[test]
fn channel_closed_without_binding_keeps_devices() {
    let mut mgr = DeviceMgr::new();
    mgr.on_device_online(online("a", "n", "x"));
    mgr.on_channel_closed(1);
    assert!(mgr.device("a").is_some());
}

