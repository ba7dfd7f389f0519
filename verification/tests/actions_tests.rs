use kukri::actions::{
    all_stage_toggles, directions_to_reattach, master_switch_status, missing_program_status,
    reattach_status, save_status, stage_of_field, stage_toggle_plan, stage_toggle_status,
    sync_failure_status, StagePlan,
};
use kukri::consts::{program_name, Direction as HookDirection, ENGRESS_PROGRAM, INGRESS_PROGRAM};
use kukri::settings::{BoolField, Direction, Proto};
use kukri::stages::{Feature, StageSlot};
use kukri::config::{
    ACLConfig, Engress, EngressIPv4Rules, EngressIPv6Rules, EngressMacRules, EngressPortRules,
    Ingress, IngressIPv4Rules, IngressIPv6Rules, IngressMacRules, IngressPortRules, Interfaces,
    RateLimitRules,
};

fn sample_config() -> ACLConfig {
    ACLConfig {
        ingress: Ingress {
            enable_rules: false,
            tcp_rules: IngressPortRules {
                enable_port_rules: false,
                blocked_source_ranges: vec![],
                blocked_source_ports: vec![22],
            },
            udp_rules: IngressPortRules {
                enable_port_rules: false,
                blocked_source_ranges: vec![],
                blocked_source_ports: vec![],
            },
            ipv4_rules: IngressIPv4Rules {
                enable_ip_rules: false,
                disable_loopback: true,
                blocked_source_ranges: vec!["10.0.0.0/8".to_string()],
                blocked_source_ips: vec![],
            },
            ipv6_rules: IngressIPv6Rules::default(),
            mac_rules: IngressMacRules { enable_mac_rules: false, blocked_source_macs: vec![] },
            rate_limit: RateLimitRules::default(),
        },
        engress: Engress {
            enable_rules: false,
            tcp_rules: EngressPortRules {
                enable_port_rules: false,
                blocked_destination_ranges: vec![],
                blocked_destination_ports: vec![],
            },
            udp_rules: EngressPortRules {
                enable_port_rules: false,
                blocked_destination_ranges: vec![],
                blocked_destination_ports: vec![],
            },
            ipv4_rules: EngressIPv4Rules {
                enable_ip_rules: false,
                disable_loopback: false,
                blocked_destination_ranges: vec![],
                blocked_destination_ips: vec![],
            },
            ipv6_rules: EngressIPv6Rules::default(),
            mac_rules: EngressMacRules { enable_mac_rules: false, blocked_destination_macs: vec![] },
            rate_limit: RateLimitRules::default(),
        },
        interfaces: Interfaces { names: vec!["eth0".to_string()] },
    }
}

#[test]
fn switches_map_to_stages() {
    assert_eq!(stage_of_field(BoolField::EnableRules(Direction::Ingress)), None);
    assert_eq!(stage_of_field(BoolField::DisableLoopback6(Direction::Engress)), None);
    assert_eq!(
        stage_of_field(BoolField::EnablePortRules(Direction::Engress, Proto::Udp)),
        Some((Direction::Engress, Feature::Port(Proto::Udp)))
    );
    let all = all_stage_toggles();
    assert_eq!(all.len(), 14);
    assert_eq!(all[0], BoolField::EnableMacRules(Direction::Ingress));
    assert_eq!(all[13], BoolField::EnablePortRules(Direction::Engress, Proto::Udp));
}

#[test]
fn stage_plan_fills_the_slot_only_when_on() {
    let mut config = sample_config();
    let slots = vec![((Direction::Ingress, Feature::Mac), StageSlot { index: 0, fd: 11 })];
    let field = BoolField::EnableMacRules(Direction::Ingress);
    match stage_toggle_plan(field, &config, &slots) {
        StagePlan::Write { dir, feature, index, fd, enabled } => {
            assert_eq!((dir, feature, index, fd, enabled), (Direction::Ingress, Feature::Mac, 0, None, false));
        }
        other => panic!("unexpected plan {other:?}"),
    }
    field.toggle(&mut config);
    match stage_toggle_plan(field, &config, &slots) {
        StagePlan::Write { fd, enabled, .. } => assert_eq!((fd, enabled), (Some(11), true)),
        other => panic!("unexpected plan {other:?}"),
    }
    match stage_toggle_plan(BoolField::EnableIpRules(Direction::Engress), &config, &slots) {
        StagePlan::Missing(m) => assert_eq!(m, "Engress Ipv4Acl: no matching BPF program loaded"),
        other => panic!("unexpected plan {other:?}"),
    }
    assert!(matches!(stage_toggle_plan(BoolField::EnableRules(Direction::Ingress), &config, &slots), StagePlan::NotAStage));
}

#[test]
fn status_messages() {
    assert_eq!(stage_toggle_status(Direction::Ingress, Feature::Port(Proto::Tcp), true, None), "Ingress Port(Tcp) enabled");
    assert_eq!(stage_toggle_status(Direction::Engress, Feature::Mac, false, None), "Engress Mac disabled");
    assert_eq!(
        stage_toggle_status(Direction::Engress, Feature::Ipv6Acl, true, Some("EPERM")),
        "failed to toggle Engress Ipv6Acl: EPERM"
    );
    assert_eq!(missing_program_status(Direction::Engress), "Engress: no matching BPF program loaded");
    assert_eq!(master_switch_status("ingress_hook", true, None), "ingress_hook attached");
    assert_eq!(master_switch_status("ingress_hook", true, Some("x")), "failed to attach ingress_hook: x");
    assert_eq!(master_switch_status("engress_hook", false, None), "engress_hook stopped");
    assert_eq!(master_switch_status("engress_hook", false, Some("y")), "engress_hook stopped with errors: y");
    let ifaces = vec!["eth0".to_string(), "wlan0".to_string()];
    assert_eq!(reattach_status("ingress_hook", &ifaces, None), "ingress_hook re-attached to eth0, wlan0");
    assert_eq!(reattach_status("ingress_hook", &ifaces, Some("z")), "failed to re-attach ingress_hook: z");
    assert_eq!(save_status("/etc/k.json", None), "saved to /etc/k.json");
    assert_eq!(save_status("/etc/k.json", Some("denied")), "failed to save /etc/k.json: denied");
    assert_eq!(sync_failure_status("boom"), "failed to sync BPF maps: boom");
}

#[test]
fn only_switched_on_directions_are_reattached() {
    let mut config = sample_config();
    assert_eq!(directions_to_reattach(&config), vec![]);
    config.engress.enable_rules = true;
    assert_eq!(directions_to_reattach(&config), vec![Direction::Engress]);
    config.ingress.enable_rules = true;
    assert_eq!(directions_to_reattach(&config), vec![Direction::Ingress, Direction::Engress]);
}

#[test]
fn program_names_per_direction() {
    assert_eq!(program_name(HookDirection::Ingress), INGRESS_PROGRAM);
    assert_eq!(program_name(HookDirection::Engress), ENGRESS_PROGRAM);
    assert_eq!(INGRESS_PROGRAM, "ingress_hook");
}
