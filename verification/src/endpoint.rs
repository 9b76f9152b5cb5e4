//! Endpoint resolution over a device's descriptor tree: find the first
//! inbound endpoint of a requested transfer kind, in strict descriptor
//! enumeration order (configurations ascending, then interfaces, alternate
//! settings and endpoints in descriptor order). A configuration whose
//! descriptor could not be fetched is skipped, not fatal. Finding nothing is
//! "capability absent", never an error.

use vstd::prelude::*;

verus! {

broadcast use vstd::seq_lib::lemma_seq_skip_index, vstd::seq_lib::lemma_seq_skip_len;

/// Direction of an endpoint, as read from its descriptor.
#[derive(Clone, Copy, PartialEq, Eq, Structural, Debug)]
pub enum Direction {
    In,
    Out,
}

/// Transfer type of an endpoint, as read from its descriptor.
#[derive(Clone, Copy, PartialEq, Eq, Structural, Debug)]
pub enum TransferType {
    Control,
    Isochronous,
    Bulk,
    Interrupt,
}

/// The transfer kinds this system reads with: selects the resolver's search
/// predicate and the low-level read primitive.
#[derive(Clone, Copy, PartialEq, Eq, Structural, Debug)]
pub enum TransferKind {
    Interrupt,
    Bulk,
}

/// The endpoint transfer type a given kind asks for.
pub open spec fn kind_transfer(kind: TransferKind) -> TransferType {
    match kind {
        TransferKind::Interrupt => TransferType::Interrupt,
        TransferKind::Bulk => TransferType::Bulk,
    }
}

/// One endpoint descriptor, reduced to what resolution reads.
#[derive(Clone, Copy, PartialEq, Eq, Structural, Debug)]
pub struct EndpointDescriptor {
    pub direction: Direction,
    pub transfer: TransferType,
    pub address: u8,
}

/// One alternate setting of an interface, with its endpoint descriptors in
/// descriptor order.
#[derive(Debug)]
pub struct AltSettingDescriptor {
    pub interface_number: u8,
    pub setting_number: u8,
    pub endpoints: Vec<EndpointDescriptor>,
}

/// One interface, with its alternate-setting descriptors in descriptor order.
#[derive(Debug)]
pub struct InterfaceDescriptor {
    pub settings: Vec<AltSettingDescriptor>,
}

/// One configuration descriptor, with its interfaces in descriptor order.
#[derive(Debug)]
pub struct ConfigDescriptor {
    pub number: u8,
    pub interfaces: Vec<InterfaceDescriptor>,
}

/// A device's descriptor tree, configurations in ascending index order.
/// `None` stands for a configuration whose descriptor could not be fetched:
/// the resolver skips it and continues.
#[derive(Debug)]
pub struct DeviceTree {
    pub configs: Vec<Option<ConfigDescriptor>>,
}

/// The coordinates needed to use one resolved endpoint: apply the
/// configuration, claim the interface, set the alternate setting, then
/// address reads at the endpoint. Only valid for the device instance and
/// transfer kind it was resolved from.
#[derive(Clone, Copy, PartialEq, Eq, Structural, Debug)]
pub struct EndpointSelector {
    pub configuration_id: u8,
    pub interface_id: u8,
    pub alternate_setting_id: u8,
    pub endpoint_address: u8,
}

/// The endpoint is inbound and of the requested kind.
pub open spec fn ep_matches(e: EndpointDescriptor, kind: TransferKind) -> bool {
    e.direction == Direction::In && e.transfer == kind_transfer(kind)
}

/// First matching endpoint of a descriptor list.
pub open spec fn find_endpoint(eps: Seq<EndpointDescriptor>, kind: TransferKind) -> Option<
    EndpointDescriptor,
>
    decreases eps.len(),
{
    if eps.len() == 0 {
        None
    } else if ep_matches(eps[0], kind) {
        Some(eps[0])
    } else {
        find_endpoint(eps.skip(1), kind)
    }
}

/// First match over a list of alternate settings, as
/// (interface number, setting number, endpoint address).
pub open spec fn find_in_settings(settings: Seq<AltSettingDescriptor>, kind: TransferKind) -> Option<
    (u8, u8, u8),
>
    decreases settings.len(),
{
    if settings.len() == 0 {
        None
    } else {
        match find_endpoint(settings[0].endpoints@, kind) {
            Some(e) => Some(
                (settings[0].interface_number, settings[0].setting_number, e.address),
            ),
            None => find_in_settings(settings.skip(1), kind),
        }
    }
}

/// First match over a list of interfaces.
pub open spec fn find_in_interfaces(ifaces: Seq<InterfaceDescriptor>, kind: TransferKind) -> Option<
    (u8, u8, u8),
>
    decreases ifaces.len(),
{
    if ifaces.len() == 0 {
        None
    } else {
        match find_in_settings(ifaces[0].settings@, kind) {
            Some(hit) => Some(hit),
            None => find_in_interfaces(ifaces.skip(1), kind),
        }
    }
}

/// First match over the configurations; an unfetchable configuration is
/// skipped.
pub open spec fn find_in_configs(configs: Seq<Option<ConfigDescriptor>>, kind: TransferKind) -> Option<
    EndpointSelector,
>
    decreases configs.len(),
{
    if configs.len() == 0 {
        None
    } else {
        match configs[0] {
            Some(c) => match find_in_interfaces(c.interfaces@, kind) {
                Some(hit) => Some(
                    EndpointSelector {
                        configuration_id: c.number,
                        interface_id: hit.0,
                        alternate_setting_id: hit.1,
                        endpoint_address: hit.2,
                    },
                ),
                None => find_in_configs(configs.skip(1), kind),
            },
            None => find_in_configs(configs.skip(1), kind),
        }
    }
}

/// What resolution returns: the first inbound endpoint of the requested
/// kind, in descriptor enumeration order.
pub open spec fn resolve_spec(tree: DeviceTree, kind: TransferKind) -> Option<EndpointSelector> {
    find_in_configs(tree.configs@, kind)
}

fn endpoint_matches(e: EndpointDescriptor, kind: TransferKind) -> (r: bool)
    ensures
        r == ep_matches(e, kind),
{
    let want = match kind {
        TransferKind::Interrupt => TransferType::Interrupt,
        TransferKind::Bulk => TransferType::Bulk,
    };
    e.direction == Direction::In && e.transfer == want
}

fn search_endpoints(eps: &Vec<EndpointDescriptor>, kind: TransferKind) -> (r: Option<
    EndpointDescriptor,
>)
    ensures
        r == find_endpoint(eps@, kind),
{
    let mut n: usize = 0;
    assert(eps@.skip(0) =~= eps@);
    while n < eps.len()
        invariant
            n <= eps@.len(),
            find_endpoint(eps@.skip(n as int), kind) == find_endpoint(eps@, kind),
        decreases eps@.len() - n,
    {
        let e = eps[n];
        proof {
            assert(eps@.skip(n as int)[0] == eps@[n as int]);
            assert(eps@.skip(n as int).skip(1) =~= eps@.skip(n as int + 1));
        }
        if endpoint_matches(e, kind) {
            return Some(e);
        }
        n += 1;
    }
    assert(eps@.skip(eps@.len() as int).len() == 0);
    None
}

fn search_settings(settings: &Vec<AltSettingDescriptor>, kind: TransferKind) -> (r: Option<
    (u8, u8, u8),
>)
    ensures
        r == find_in_settings(settings@, kind),
{
    let mut n: usize = 0;
    assert(settings@.skip(0) =~= settings@);
    while n < settings.len()
        invariant
            n <= settings@.len(),
            find_in_settings(settings@.skip(n as int), kind) == find_in_settings(settings@, kind),
        decreases settings@.len() - n,
    {
        let setting = &settings[n];
        proof {
            assert(settings@.skip(n as int)[0] == settings@[n as int]);
            assert(settings@.skip(n as int).skip(1) =~= settings@.skip(n as int + 1));
        }
        match search_endpoints(&setting.endpoints, kind) {
            Some(e) => {
                return Some((setting.interface_number, setting.setting_number, e.address));
            },
            None => {},
        }
        n += 1;
    }
    assert(settings@.skip(settings@.len() as int).len() == 0);
    None
}

fn search_interfaces(ifaces: &Vec<InterfaceDescriptor>, kind: TransferKind) -> (r: Option<
    (u8, u8, u8),
>)
    ensures
        r == find_in_interfaces(ifaces@, kind),
{
    let mut n: usize = 0;
    assert(ifaces@.skip(0) =~= ifaces@);
    while n < ifaces.len()
        invariant
            n <= ifaces@.len(),
            find_in_interfaces(ifaces@.skip(n as int), kind) == find_in_interfaces(ifaces@, kind),
        decreases ifaces@.len() - n,
    {
        let iface = &ifaces[n];
        proof {
            assert(ifaces@.skip(n as int)[0] == ifaces@[n as int]);
            assert(ifaces@.skip(n as int).skip(1) =~= ifaces@.skip(n as int + 1));
        }
        match search_settings(&iface.settings, kind) {
            Some(hit) => {
                return Some(hit);
            },
            None => {},
        }
        n += 1;
    }
    assert(ifaces@.skip(ifaces@.len() as int).len() == 0);
    None
}

/// Find the first inbound endpoint of the requested transfer kind in the
/// device's descriptor tree. `None` means the capability is absent, never an
/// error.
pub fn resolve(tree: &DeviceTree, kind: TransferKind) -> (r: Option<EndpointSelector>)
    ensures
        r == resolve_spec(*tree, kind),
{
    let mut n: usize = 0;
    assert(tree.configs@.skip(0) =~= tree.configs@);
    while n < tree.configs.len()
        invariant
            n <= tree.configs@.len(),
            find_in_configs(tree.configs@.skip(n as int), kind) == resolve_spec(*tree, kind),
        decreases tree.configs@.len() - n,
    {
        proof {
            assert(tree.configs@.skip(n as int)[0] == tree.configs@[n as int]);
            assert(tree.configs@.skip(n as int).skip(1) =~= tree.configs@.skip(n as int + 1));
        }
        match &tree.configs[n] {
            Some(config) => {
                match search_interfaces(&config.interfaces, kind) {
                    Some(hit) => {
                        return Some(
                            EndpointSelector {
                                configuration_id: config.number,
                                interface_id: hit.0,
                                alternate_setting_id: hit.1,
                                endpoint_address: hit.2,
                            },
                        );
                    },
                    None => {},
                }
            },
            None => {},
        }
        n += 1;
    }
    assert(tree.configs@.skip(tree.configs@.len() as int).len() == 0);
    None
}

/// Indices (sj, ej) point at an endpoint of `settings` that matches `kind`.
pub open spec fn setting_match_at(
    settings: Seq<AltSettingDescriptor>,
    kind: TransferKind,
    sj: int,
    ej: int,
) -> bool {
    &&& 0 <= sj < settings.len()
    &&& 0 <= ej < settings[sj].endpoints@.len()
    &&& ep_matches(settings[sj].endpoints@[ej], kind)
}

/// Indices (sj, ej) point at a matching endpoint whose coordinates are
/// exactly `hit` = (interface number, setting number, endpoint address).
pub open spec fn setting_hit_at(
    settings: Seq<AltSettingDescriptor>,
    kind: TransferKind,
    hit: (u8, u8, u8),
    sj: int,
    ej: int,
) -> bool {
    &&& setting_match_at(settings, kind, sj, ej)
    &&& settings[sj].interface_number == hit.0
    &&& settings[sj].setting_number == hit.1
    &&& settings[sj].endpoints@[ej].address == hit.2
}

/// Indices (ii, sj, ej) point at a matching endpoint of `ifaces`.
pub open spec fn interface_match_at(
    ifaces: Seq<InterfaceDescriptor>,
    kind: TransferKind,
    ii: int,
    sj: int,
    ej: int,
) -> bool {
    &&& 0 <= ii < ifaces.len()
    &&& setting_match_at(ifaces[ii].settings@, kind, sj, ej)
}

/// Indices (ii, sj, ej) point at a matching endpoint of `ifaces` with
/// coordinates `hit`.
pub open spec fn interface_hit_at(
    ifaces: Seq<InterfaceDescriptor>,
    kind: TransferKind,
    hit: (u8, u8, u8),
    ii: int,
    sj: int,
    ej: int,
) -> bool {
    &&& 0 <= ii < ifaces.len()
    &&& setting_hit_at(ifaces[ii].settings@, kind, hit, sj, ej)
}

/// Indices (ci, ii, sj, ej) point at a matching endpoint in a fetched
/// configuration of `configs`.
pub open spec fn config_match_at(
    configs: Seq<Option<ConfigDescriptor>>,
    kind: TransferKind,
    ci: int,
    ii: int,
    sj: int,
    ej: int,
) -> bool {
    &&& 0 <= ci < configs.len()
    &&& configs[ci] is Some
    &&& interface_match_at(configs[ci]->0.interfaces@, kind, ii, sj, ej)
}

/// Indices (ci, ii, sj, ej) point at a matching endpoint whose coordinates
/// are exactly those of `sel`.
pub open spec fn config_hit_at(
    configs: Seq<Option<ConfigDescriptor>>,
    kind: TransferKind,
    sel: EndpointSelector,
    ci: int,
    ii: int,
    sj: int,
    ej: int,
) -> bool {
    &&& 0 <= ci < configs.len()
    &&& configs[ci] is Some
    &&& configs[ci]->0.number == sel.configuration_id
    &&& interface_hit_at(
        configs[ci]->0.interfaces@,
        kind,
        (sel.interface_id, sel.alternate_setting_id, sel.endpoint_address),
        ii,
        sj,
        ej,
    )
}

/// The tree holds, in some fetched configuration, an endpoint that is
/// inbound and of the requested kind.
pub open spec fn tree_has_match(tree: DeviceTree, kind: TransferKind) -> bool {
    exists|ci: int, ii: int, sj: int, ej: int|
        config_match_at(tree.configs@, kind, ci, ii, sj, ej)
}

/// The selector denotes an actual endpoint of the tree that is inbound and
/// of the requested kind, and carries that endpoint's coordinates.
pub open spec fn selector_well_matched(
    tree: DeviceTree,
    kind: TransferKind,
    sel: EndpointSelector,
) -> bool {
    exists|ci: int, ii: int, sj: int, ej: int|
        config_hit_at(tree.configs@, kind, sel, ci, ii, sj, ej)
}

proof fn lemma_find_endpoint_props(eps: Seq<EndpointDescriptor>, kind: TransferKind)
    ensures
        find_endpoint(eps, kind) is Some ==> exists|j: int|
            0 <= j < eps.len() && #[trigger] eps[j] == find_endpoint(eps, kind)->0 && ep_matches(
                eps[j],
                kind,
            ),
        find_endpoint(eps, kind) is None ==> forall|j: int|
            0 <= j < eps.len() ==> !ep_matches(#[trigger] eps[j], kind),
    decreases eps.len(),
{
    if eps.len() == 0 {
    } else if ep_matches(eps[0], kind) {
        assert(eps[0] == find_endpoint(eps, kind)->0);
    } else {
        lemma_find_endpoint_props(eps.skip(1), kind);
        if find_endpoint(eps, kind) is Some {
            let j = choose|j: int|
                0 <= j < eps.skip(1).len() && #[trigger] eps.skip(1)[j] == find_endpoint(
                    eps.skip(1),
                    kind,
                )->0 && ep_matches(eps.skip(1)[j], kind);
            assert(eps[j + 1] == find_endpoint(eps, kind)->0);
        } else {
            assert forall|j: int| 0 <= j < eps.len() implies !ep_matches(
                #[trigger] eps[j],
                kind,
            ) by {
                if j >= 1 {
                    assert(eps.skip(1)[j - 1] == eps[j]);
                }
            }
        }
    }
}

proof fn lemma_find_in_settings_props(settings: Seq<AltSettingDescriptor>, kind: TransferKind)
    ensures
        find_in_settings(settings, kind) is Some ==> exists|sj: int, ej: int|
            #[trigger] setting_hit_at(settings, kind, find_in_settings(settings, kind)->0, sj, ej),
        find_in_settings(settings, kind) is None ==> forall|sj: int, ej: int|
            !#[trigger] setting_match_at(settings, kind, sj, ej),
    decreases settings.len(),
{
    if settings.len() == 0 {
    } else {
        let head = settings[0];
        lemma_find_endpoint_props(head.endpoints@, kind);
        match find_endpoint(head.endpoints@, kind) {
            Some(e) => {
                let j = choose|j: int|
                    0 <= j < head.endpoints@.len() && #[trigger] head.endpoints@[j] == e
                        && ep_matches(head.endpoints@[j], kind);
                assert(find_in_settings(settings, kind) == Some(
                    (head.interface_number, head.setting_number, e.address),
                ));
                assert(setting_hit_at(
                    settings,
                    kind,
                    find_in_settings(settings, kind)->0,
                    0,
                    j,
                ));
            },
            None => {
                lemma_find_in_settings_props(settings.skip(1), kind);
                match find_in_settings(settings.skip(1), kind) {
                    Some(hit) => {
                        let (sj, ej) = choose|sj: int, ej: int|
                            #[trigger] setting_hit_at(settings.skip(1), kind, hit, sj, ej);
                        assert(settings.skip(1)[sj] == settings[sj + 1]);
                        assert(find_in_settings(settings, kind) == Some(hit));
                        assert(setting_hit_at(
                            settings,
                            kind,
                            find_in_settings(settings, kind)->0,
                            sj + 1,
                            ej,
                        ));
                    },
                    None => {
                        assert forall|sj: int, ej: int| !#[trigger] setting_match_at(
                            settings,
                            kind,
                            sj,
                            ej,
                        ) by {
                            if 0 <= sj < settings.len() && 0 <= ej
                                < settings[sj].endpoints@.len() {
                                if sj == 0 {
                                    assert(!ep_matches(head.endpoints@[ej], kind));
                                } else {
                                    assert(settings.skip(1)[sj - 1] == settings[sj]);
                                    assert(!setting_match_at(settings.skip(1), kind, sj - 1, ej));
                                }
                            }
                        }
                    },
                }
            },
        }
    }
}

proof fn lemma_find_in_interfaces_props(ifaces: Seq<InterfaceDescriptor>, kind: TransferKind)
    ensures
        find_in_interfaces(ifaces, kind) is Some ==> exists|ii: int, sj: int, ej: int|
            #[trigger] interface_hit_at(
                ifaces,
                kind,
                find_in_interfaces(ifaces, kind)->0,
                ii,
                sj,
                ej,
            ),
        find_in_interfaces(ifaces, kind) is None ==> forall|ii: int, sj: int, ej: int|
            !#[trigger] interface_match_at(ifaces, kind, ii, sj, ej),
    decreases ifaces.len(),
{
    if ifaces.len() == 0 {
    } else {
        let head = ifaces[0];
        lemma_find_in_settings_props(head.settings@, kind);
        match find_in_settings(head.settings@, kind) {
            Some(hit) => {
                let (sj, ej) = choose|sj: int, ej: int|
                    #[trigger] setting_hit_at(head.settings@, kind, hit, sj, ej);
                assert(find_in_interfaces(ifaces, kind) == Some(hit));
                assert(interface_hit_at(
                    ifaces,
                    kind,
                    find_in_interfaces(ifaces, kind)->0,
                    0,
                    sj,
                    ej,
                ));
            },
            None => {
                lemma_find_in_interfaces_props(ifaces.skip(1), kind);
                match find_in_interfaces(ifaces.skip(1), kind) {
                    Some(hit) => {
                        let (ii, sj, ej) = choose|ii: int, sj: int, ej: int|
                            #[trigger] interface_hit_at(ifaces.skip(1), kind, hit, ii, sj, ej);
                        assert(ifaces.skip(1)[ii] == ifaces[ii + 1]);
                        assert(find_in_interfaces(ifaces, kind) == Some(hit));
                        assert(interface_hit_at(
                            ifaces,
                            kind,
                            find_in_interfaces(ifaces, kind)->0,
                            ii + 1,
                            sj,
                            ej,
                        ));
                    },
                    None => {
                        assert forall|ii: int, sj: int, ej: int| !#[trigger] interface_match_at(
                            ifaces,
                            kind,
                            ii,
                            sj,
                            ej,
                        ) by {
                            if 0 <= ii < ifaces.len() {
                                if ii == 0 {
                                    assert(!setting_match_at(head.settings@, kind, sj, ej));
                                } else {
                                    assert(ifaces.skip(1)[ii - 1] == ifaces[ii]);
                                    assert(!interface_match_at(
                                        ifaces.skip(1),
                                        kind,
                                        ii - 1,
                                        sj,
                                        ej,
                                    ));
                                }
                            }
                        }
                    },
                }
            },
        }
    }
}

proof fn lemma_find_in_configs_props(configs: Seq<Option<ConfigDescriptor>>, kind: TransferKind)
    ensures
        find_in_configs(configs, kind) is Some ==> exists|ci: int, ii: int, sj: int, ej: int|
            #[trigger] config_hit_at(
                configs,
                kind,
                find_in_configs(configs, kind)->0,
                ci,
                ii,
                sj,
                ej,
            ),
        find_in_configs(configs, kind) is None ==> forall|ci: int, ii: int, sj: int, ej: int|
            !#[trigger] config_match_at(configs, kind, ci, ii, sj, ej),
    decreases configs.len(),
{
    if configs.len() == 0 {
    } else {
        let tail_needed = match configs[0] {
            Some(c) => find_in_interfaces(c.interfaces@, kind) is None,
            None => true,
        };
        match configs[0] {
            Some(c) => {
                lemma_find_in_interfaces_props(c.interfaces@, kind);
                match find_in_interfaces(c.interfaces@, kind) {
                    Some(hit) => {
                        let (ii, sj, ej) = choose|ii: int, sj: int, ej: int|
                            #[trigger] interface_hit_at(c.interfaces@, kind, hit, ii, sj, ej);
                        assert(config_hit_at(
                            configs,
                            kind,
                            find_in_configs(configs, kind)->0,
                            0,
                            ii,
                            sj,
                            ej,
                        ));
                    },
                    None => {},
                }
            },
            None => {},
        }
        if tail_needed {
            lemma_find_in_configs_props(configs.skip(1), kind);
            match find_in_configs(configs.skip(1), kind) {
                Some(sel) => {
                    let (ci, ii, sj, ej) = choose|ci: int, ii: int, sj: int, ej: int|
                        #[trigger] config_hit_at(configs.skip(1), kind, sel, ci, ii, sj, ej);
                    assert(configs.skip(1)[ci] == configs[ci + 1]);
                    assert(find_in_configs(configs, kind) == Some(sel));
                    assert(config_hit_at(
                        configs,
                        kind,
                        find_in_configs(configs, kind)->0,
                        ci + 1,
                        ii,
                        sj,
                        ej,
                    ));
                },
                None => {
                    assert forall|ci: int, ii: int, sj: int, ej: int| !#[trigger] config_match_at(
                        configs,
                        kind,
                        ci,
                        ii,
                        sj,
                        ej,
                    ) by {
                        if 0 <= ci < configs.len() && configs[ci] is Some {
                            if ci == 0 {
                                let c = configs[0]->0;
                                assert(!interface_match_at(c.interfaces@, kind, ii, sj, ej));
                            } else {
                                assert(configs.skip(1)[ci - 1] == configs[ci]);
                                assert(!config_match_at(configs.skip(1), kind, ci - 1, ii, sj, ej));
                            }
                        }
                    }
                },
            }
        }
    }
}

/// Law: a resolved selector always denotes an endpoint of the tree whose
/// direction is inbound and whose transfer type equals the requested kind,
/// and carries exactly that endpoint's configuration, interface, alternate
/// setting and address.
pub proof fn lemma_resolve_sound(tree: DeviceTree, kind: TransferKind)
    requires
        resolve_spec(tree, kind) is Some,
    ensures
        selector_well_matched(tree, kind, resolve_spec(tree, kind)->0),
{
    lemma_find_in_configs_props(tree.configs@, kind);
}

/// Law: resolution finds a selector exactly when the tree holds a matching
/// endpoint in some fetched configuration; with no match it returns "not
/// found", never an error.
pub proof fn lemma_resolve_complete(tree: DeviceTree, kind: TransferKind)
    ensures
        resolve_spec(tree, kind) is Some <==> tree_has_match(tree, kind),
{
    lemma_find_in_configs_props(tree.configs@, kind);
    if resolve_spec(tree, kind) is Some {
        let sel = resolve_spec(tree, kind)->0;
        let (ci, ii, sj, ej) = choose|ci: int, ii: int, sj: int, ej: int|
            #[trigger] config_hit_at(tree.configs@, kind, sel, ci, ii, sj, ej);
        assert(config_match_at(tree.configs@, kind, ci, ii, sj, ej));
    }
}

/// Law: resolution is a pure function of the descriptor tree and the
/// requested transfer kind; two resolutions of the same tree for the same
/// kind always agree (idempotent, first-match order).
pub proof fn lemma_resolve_deterministic(
    tree: DeviceTree,
    kind: TransferKind,
    r1: Option<EndpointSelector>,
    r2: Option<EndpointSelector>,
)
    requires
        r1 == resolve_spec(tree, kind),
        r2 == resolve_spec(tree, kind),
    ensures
        r1 == r2,
{
}

} // verus!
