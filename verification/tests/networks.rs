use todo_ic::network::Network;

#[test]
fn local_network_points_at_the_local_replica() {
    assert_eq!(Network::Local.get_url(), "http://127.0.0.1:4943");
    assert_eq!(Network::Local.get_canister_id(), "rrkah-fqaaa-aaaaa-aaaaq-cai");
    assert_eq!(Network::Local.display_name(), "Local");
}

#[test]
fn testnet_and_mainnet_share_the_gateway() {
    assert_eq!(Network::Testnet.get_url(), "https://ic0.app");
    assert_eq!(Network::Mainnet.get_url(), "https://ic0.app");
    assert_eq!(Network::Testnet.get_canister_id(), "25x2w-paaaa-aaaab-qackq-cai");
    assert_eq!(
        Network::Mainnet.get_canister_id(),
        "vyggl-hpuoy-22jqe-6povn-6glf6-z2rle-wgphx-nyv6a-xbomq-e6knd-iae"
    );
    assert_eq!(Network::Testnet.display_name(), "Testnet");
    assert_eq!(Network::Mainnet.display_name(), "Mainnet");
}

#[test]
fn networks_compare_by_variant() {
    assert_eq!(Network::Local, Network::Local.clone());
    assert_ne!(Network::Local, Network::Mainnet);
}
