//! Configuration keys: each known key sets exactly its own field, and
//! values that do not parse are ignored.

use mesh_core::config::MeshConfig;

#[test]
fn config_entry_sets_its_own_field() {
    let mut config = MeshConfig::default();
    config.apply_config_entry("services.mesh.node_id", "2002");
    assert_eq!(config.node_id, 2002);
    config.apply_config_entry("services.mesh.external_port", "12345");
    assert_eq!(config.external_port, 12345);
    config.apply_config_entry("services.mesh.mesh_id", "prod-mesh");
    assert_eq!(config.mesh_id, "prod-mesh");
    config.apply_config_entry("services.mesh.timeout", "90");
    assert_eq!(config.timeout, 90);
    config.apply_config_entry("services.mesh.tls.enabled", "true");
    assert!(config.tls.enabled);
    config.apply_config_entry("services.mesh.tls.enabled", "yes");
    assert!(!config.tls.enabled);
    // Setting one field leaves the others alone.
    assert_eq!(config.node_id, 2002);
    assert_eq!(config.external_port, 12345);
}

#[test]
fn config_entry_ignores_unknown_keys_and_bad_numbers() {
    let mut config = MeshConfig::default();
    config.apply_config_entry("services.mesh.unknown", "17");
    config.apply_config_entry("services.mesh.node_id", "not-a-number");
    config.apply_config_entry("services.mesh.external_port", "70000");
    assert_eq!(config.node_id, 1001);
    assert_eq!(config.external_port, 10001);
}

#[test]
fn config_arguments_set_rpc_port_and_supervisor() {
    let mut config = MeshConfig::default();
    config.apply_argument("--port=50099");
    assert_eq!(config.grpc_port, 50099);
    config.apply_argument("--supervisor=sup.example:4000");
    assert_eq!(config.supervisor_addr, "sup.example:4000");
    config.apply_argument("--port=99999");
    assert_eq!(config.grpc_port, 50099);
    config.apply_argument("--verbose");
    assert_eq!(config.grpc_port, 50099);
    assert_eq!(config.supervisor_addr, "sup.example:4000");
}
