use ptnet::model::{model_addresses, parse_user_address, Ballast, Configuration, Network, NodeModelSource, Sensor, UserModel};

fn ballast(a: &str) -> Ballast {
    Ballast { address: a.to_string(), type_id: "b".to_string(), name: "n".to_string() }
}

fn sensor(a: &str, part_of: Option<&str>) -> Sensor {
    Sensor { address: a.to_string(), type_id: "s".to_string(), name: "n".to_string(), part_of: part_of.map(|s| s.to_string()) }
}

#[test]
fn user_address() {
    assert_eq!(parse_user_address("aa:bb:0c:D"), Some([0, 0, 0xAA, 0xBB, 0x0C, 0x0D]));
    assert_eq!(parse_user_address("aa:bb:cc"), None);
    assert_eq!(parse_user_address("aa:bb:cc:dd:ee"), None);
    assert_eq!(parse_user_address("aa:bb:cc:zz"), None);
}

#[test]
fn model_nodes() {
    let m = UserModel {
        network: Some(Network {
            ballasts: vec![ballast("00:00:00:01")],
            sensors: vec![sensor("00:00:00:02", None), sensor("00:00:00:03", Some("x"))],
        }),
    };
    assert_eq!(model_addresses(&m), Some(vec![[0, 0, 0, 0, 0, 1], [0, 0, 0, 0, 0, 2]]));
    assert_eq!(model_addresses(&UserModel { network: None }), Some(vec![]));
    let bad = UserModel { network: Some(Network { ballasts: vec![ballast("zz")], sensors: vec![] }) };
    assert_eq!(model_addresses(&bad), None);
}

#[test]
fn default_configuration() {
    let c = Configuration::default();
    assert_eq!(c.server_address, "127.0.0.1:9885");
    assert_eq!(c.reconnect_secs(), 10);
    assert!(matches!(c.node_model_source, NodeModelSource::SOL(ref p) if p == "/var/lib/kvds"));
}
