use diminuendo::endpoint::{
    AltSettingDescriptor, ConfigDescriptor, DeviceTree, Direction, EndpointDescriptor,
    EndpointSelector, InterfaceDescriptor, TransferKind, TransferType, resolve,
};

fn ep(direction: Direction, transfer: TransferType, address: u8) -> EndpointDescriptor {
    EndpointDescriptor { direction, transfer, address }
}

fn one_setting_tree(config_number: u8, endpoints: Vec<EndpointDescriptor>) -> DeviceTree {
    DeviceTree {
        configs: vec![Some(ConfigDescriptor {
            number: config_number,
            interfaces: vec![InterfaceDescriptor {
                settings: vec![AltSettingDescriptor {
                    interface_number: 0,
                    setting_number: 0,
                    endpoints,
                }],
            }],
        })],
    }
}

#[test]
fn resolves_first_inbound_endpoint_of_requested_kind() {
    let tree = one_setting_tree(
        1,
        vec![
            ep(Direction::Out, TransferType::Interrupt, 0x01),
            ep(Direction::In, TransferType::Bulk, 0x82),
            ep(Direction::In, TransferType::Interrupt, 0x81),
            ep(Direction::In, TransferType::Interrupt, 0x83),
        ],
    );
    let got = resolve(&tree, TransferKind::Interrupt);
    assert_eq!(
        got,
        Some(EndpointSelector {
            configuration_id: 1,
            interface_id: 0,
            alternate_setting_id: 0,
            endpoint_address: 0x81,
        })
    );
    let bulk = resolve(&tree, TransferKind::Bulk);
    assert_eq!(
        bulk,
        Some(EndpointSelector {
            configuration_id: 1,
            interface_id: 0,
            alternate_setting_id: 0,
            endpoint_address: 0x82,
        })
    );
}

#[test]
fn resolution_is_deterministic() {
    let tree = one_setting_tree(
        2,
        vec![
            ep(Direction::In, TransferType::Interrupt, 0x81),
            ep(Direction::In, TransferType::Interrupt, 0x82),
        ],
    );
    let first = resolve(&tree, TransferKind::Interrupt);
    let second = resolve(&tree, TransferKind::Interrupt);
    assert_eq!(first, second);
    assert_eq!(first.map(|s| s.endpoint_address), Some(0x81));
}

#[test]
fn absent_capability_is_not_found_not_an_error() {
    let tree = one_setting_tree(
        1,
        vec![
            ep(Direction::Out, TransferType::Bulk, 0x02),
            ep(Direction::In, TransferType::Isochronous, 0x83),
            ep(Direction::In, TransferType::Control, 0x80),
        ],
    );
    assert_eq!(resolve(&tree, TransferKind::Interrupt), None);
    assert_eq!(resolve(&tree, TransferKind::Bulk), None);
}

#[test]
fn empty_tree_resolves_to_none() {
    let tree = DeviceTree { configs: Vec::new() };
    assert_eq!(resolve(&tree, TransferKind::Interrupt), None);
}

#[test]
fn unreadable_configuration_skipped() {
    let tree = DeviceTree {
        configs: vec![
            None,
            Some(ConfigDescriptor {
                number: 7,
                interfaces: vec![InterfaceDescriptor {
                    settings: vec![AltSettingDescriptor {
                        interface_number: 3,
                        setting_number: 1,
                        endpoints: vec![ep(Direction::In, TransferType::Bulk, 0x84)],
                    }],
                }],
            }),
        ],
    };
    assert_eq!(
        resolve(&tree, TransferKind::Bulk),
        Some(EndpointSelector {
            configuration_id: 7,
            interface_id: 3,
            alternate_setting_id: 1,
            endpoint_address: 0x84,
        })
    );
}

#[test]
fn earlier_configuration_wins() {
    let iface = |addr: u8| InterfaceDescriptor {
        settings: vec![AltSettingDescriptor {
            interface_number: 0,
            setting_number: 0,
            endpoints: vec![ep(Direction::In, TransferType::Interrupt, addr)],
        }],
    };
    let tree = DeviceTree {
        configs: vec![
            Some(ConfigDescriptor { number: 1, interfaces: vec![iface(0x81)] }),
            Some(ConfigDescriptor { number: 2, interfaces: vec![iface(0x82)] }),
        ],
    };
    let got = resolve(&tree, TransferKind::Interrupt).unwrap();
    assert_eq!(got.configuration_id, 1);
    assert_eq!(got.endpoint_address, 0x81);
}
