use kukri::screen::{Row, SettingsSection, Tab};
use kukri::settings::{BoolField, Direction, ListField, Proto};
use kukri::ui::{select_next, select_previous, Effect, Key, Ui};
use kukri::config::{
    ACLConfig, Engress, EngressIPv4Rules, EngressIPv6Rules, EngressMacRules, EngressPortRules,
    Ingress, IngressIPv4Rules, IngressIPv6Rules, IngressMacRules, IngressPortRules, Interfaces,
    RateLimitRules,
};

fn sample_config() -> ACLConfig {
    ACLConfig {
        ingress: Ingress {
            enable_rules: false,
            tcp_rules: IngressPortRules {
                enable_port_rules: false,
                blocked_source_ranges: vec![],
                blocked_source_ports: vec![22],
            },
            udp_rules: IngressPortRules {
                enable_port_rules: false,
                blocked_source_ranges: vec![],
                blocked_source_ports: vec![],
            },
            ipv4_rules: IngressIPv4Rules {
                enable_ip_rules: false,
                disable_loopback: true,
                blocked_source_ranges: vec!["10.0.0.0/8".to_string()],
                blocked_source_ips: vec![],
            },
            ipv6_rules: IngressIPv6Rules::default(),
            mac_rules: IngressMacRules { enable_mac_rules: false, blocked_source_macs: vec![] },
            rate_limit: RateLimitRules::default(),
        },
        engress: Engress {
            enable_rules: false,
            tcp_rules: EngressPortRules {
                enable_port_rules: false,
                blocked_destination_ranges: vec![],
                blocked_destination_ports: vec![],
            },
            udp_rules: EngressPortRules {
                enable_port_rules: false,
                blocked_destination_ranges: vec![],
                blocked_destination_ports: vec![],
            },
            ipv4_rules: EngressIPv4Rules {
                enable_ip_rules: false,
                disable_loopback: false,
                blocked_destination_ranges: vec![],
                blocked_destination_ips: vec![],
            },
            ipv6_rules: EngressIPv6Rules::default(),
            mac_rules: EngressMacRules { enable_mac_rules: false, blocked_destination_macs: vec![] },
            rate_limit: RateLimitRules::default(),
        },
        interfaces: Interfaces { names: vec!["eth0".to_string()] },
    }
}

fn settings_ui() -> Ui {
    let mut ui = Ui::new(sample_config(), vec!["eth0".to_string()], vec!["eth0".to_string(), "wlan0".to_string(), "tun0".to_string()]);
    assert_eq!(ui.handle_key(Key::Tab), Effect::Nothing);
    ui
}

#[test]
fn tab_opens_settings_on_the_first_selectable_row() {
    let mut ui = Ui::new(sample_config(), vec![], vec![]);
    assert_eq!(ui.tab, Tab::Summary);
    assert_eq!(ui.handle_key(Key::Tab), Effect::Nothing);
    assert_eq!(ui.tab, Tab::Settings);
    assert_eq!(ui.selected, Some(1));
    assert!(matches!(ui.rows[1], Row::Bool(BoolField::EnableRules(Direction::Ingress), _)));
    assert_eq!(ui.handle_key(Key::Tab), Effect::ShowSummary);
    assert_eq!(ui.handle_key(Key::Char('q')), Effect::Quit);
    assert_eq!(ui.handle_key(Key::Char('s')), Effect::Save);
}

#[test]
fn cursor_skips_headers() {
    let rows = vec![
        Row::Header("h".to_string()),
        Row::Bool(BoolField::EnableRules(Direction::Ingress), "a".to_string()),
        Row::Info("i".to_string()),
        Row::Header("h".to_string()),
        Row::AddNew(ListField::BlockedMacs(Direction::Ingress), "b".to_string()),
    ];
    assert_eq!(select_next(&rows, Some(1)), Some(4));
    assert_eq!(select_next(&rows, Some(4)), Some(4));
    assert_eq!(select_previous(&rows, Some(4)), Some(1));
    assert_eq!(select_previous(&rows, Some(1)), Some(1));
    assert_eq!(select_next(&rows, None), None);
}

#[test]
fn space_flips_the_switch_under_the_cursor() {
    let mut ui = settings_ui();
    assert_eq!(ui.handle_key(Key::Char(' ')), Effect::Toggled(BoolField::EnableRules(Direction::Ingress)));
    assert!(ui.config.ingress.enable_rules);
    assert_eq!(ui.handle_key(Key::Char(' ')), Effect::Toggled(BoolField::EnableRules(Direction::Ingress)));
    assert!(!ui.config.ingress.enable_rules);
}

#[test]
fn adding_through_the_prompt() {
    let mut ui = settings_ui();
    ui.handle_key(Key::Right);
    assert_eq!(ui.section, SettingsSection::Tcp);
    while !matches!(ui.rows[ui.selected.unwrap()], Row::AddNew(..)) {
        ui.handle_key(Key::Down);
    }
    assert!(matches!(ui.rows[ui.selected.unwrap()], Row::AddNew(ListField::BlockedPorts(Direction::Ingress, Proto::Tcp), _)));
    assert_eq!(ui.handle_key(Key::Enter), Effect::Nothing);
    assert_eq!(ui.input_target, Some(ListField::BlockedPorts(Direction::Ingress, Proto::Tcp)));
    for c in " 80x".chars() {
        ui.handle_key(Key::Char(c));
    }
    ui.handle_key(Key::Backspace);
    assert_eq!(ui.input_buffer, " 80");
    assert_eq!(ui.handle_key(Key::Enter), Effect::Sync);
    assert_eq!(ui.status, Some("added \"80\"".to_string()));
    assert_eq!(ui.input_target, None);
    assert_eq!(ui.config.ingress.tcp_rules.blocked_source_ports, vec![22, 80]);
}

#[test]
fn refused_input_keeps_the_prompt_open() {
    let mut ui = settings_ui();
    ui.handle_key(Key::Right);
    while !matches!(ui.rows[ui.selected.unwrap()], Row::AddNew(..)) {
        ui.handle_key(Key::Down);
    }
    ui.handle_key(Key::Enter);
    ui.handle_key(Key::Char('x'));
    assert_eq!(ui.handle_key(Key::Enter), Effect::Nothing);
    assert_eq!(ui.status, Some("\"x\" is not a valid port (0-65535)".to_string()));
    assert!(ui.input_target.is_some());
    assert_eq!(ui.handle_key(Key::Esc), Effect::Nothing);
    assert_eq!(ui.input_target, None);
    assert_eq!(ui.input_buffer, "");
}

#[test]
fn d_removes_the_entry_under_the_cursor() {
    let mut ui = settings_ui();
    ui.handle_key(Key::Right);
    while !matches!(ui.rows[ui.selected.unwrap()], Row::Item(..)) {
        ui.handle_key(Key::Down);
    }
    assert_eq!(ui.handle_key(Key::Char('d')), Effect::Sync);
    assert_eq!(ui.status, Some("removed 22".to_string()));
    assert!(ui.config.ingress.tcp_rules.blocked_source_ports.is_empty());
}

#[test]
fn interfaces_toggle_into_the_config() {
    let mut ui = settings_ui();
    ui.handle_key(Key::Left);
    assert_eq!(ui.section, SettingsSection::Interfaces);
    assert_eq!(ui.selected, Some(0));
    ui.handle_key(Key::Down);
    assert_eq!(ui.handle_key(Key::Char(' ')), Effect::Reattach);
    assert_eq!(ui.interfaces, vec!["eth0", "wlan0"]);
    assert_eq!(ui.config.interfaces.names, vec!["eth0", "wlan0"]);
    ui.handle_key(Key::Down);
    ui.handle_key(Key::Down);
    assert_eq!(ui.handle_key(Key::Enter), Effect::Nothing);
    assert_eq!(ui.status, Some("at most 2 interfaces can be selected at once".to_string()));
    assert!(matches!(ui.rows[1], Row::Iface(ref n, true) if n == "wlan0"));
}

#[test]
fn footer_shows_status_or_help() {
    let mut ui = Ui::new(sample_config(), vec![], vec![]);
    assert_eq!(ui.footer_text(), "Tab switch page   s save config   q quit");
    ui.status = Some("saved".to_string());
    assert_eq!(ui.footer_text(), "saved");
    ui.input_buffer = "80".to_string();
    assert_eq!(ui.prompt_text(), "80_");
}
