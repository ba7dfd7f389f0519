//! What the interface's actions do to the running firewall: which stage
//! slot a switch governs, which programs a change concerns, and what the
//! status line says afterwards. The terminal layer performs the BPF calls
//! and reports back whether they failed.
use vstd::prelude::*;
use vstd::string::*;
use crate::config::{texts, ACLConfig};
use crate::settings::{bool_value, direction_label, BoolField, Direction, Proto};
use crate::stages::{entries_map, keys_unique, Feature, StageSlot};
use crate::text::{join, join_strings};

verus! {

/// The direction and feature of the stage that a switch turns on and off,
/// if it governs one. The master switch and the loopback switches govern
/// none.
pub open spec fn stage_of(f: BoolField) -> Option<(Direction, Feature)> {
    match f {
        BoolField::EnableMacRules(d) => Some((d, Feature::Mac)),
        BoolField::EnableIpRules(d) => Some((d, Feature::Ipv4Acl)),
        BoolField::EnableIpv6Rules(d) => Some((d, Feature::Ipv6Acl)),
        BoolField::EnablePortRules(d, p) => Some((d, Feature::Port(p))),
        BoolField::EnableIpRateLimit(d) => Some((d, Feature::IpRateLimit)),
        BoolField::EnablePortRateLimit(d) => Some((d, Feature::PortRateLimit)),
        BoolField::EnableRules(_) | BoolField::DisableLoopback(_) | BoolField::DisableLoopback6(_) => None,
    }
}

pub fn stage_of_field(f: BoolField) -> (r: Option<(Direction, Feature)>)
    ensures
        r == stage_of(f),
{
    match f {
        BoolField::EnableMacRules(d) => Some((d, Feature::Mac)),
        BoolField::EnableIpRules(d) => Some((d, Feature::Ipv4Acl)),
        BoolField::EnableIpv6Rules(d) => Some((d, Feature::Ipv6Acl)),
        BoolField::EnablePortRules(d, p) => Some((d, Feature::Port(p))),
        BoolField::EnableIpRateLimit(d) => Some((d, Feature::IpRateLimit)),
        BoolField::EnablePortRateLimit(d) => Some((d, Feature::PortRateLimit)),
        BoolField::EnableRules(_) | BoolField::DisableLoopback(_) | BoolField::DisableLoopback6(_) => None,
    }
}

/// How a feature is named in status messages.
pub open spec fn feature_text(f: Feature) -> Seq<char> {
    match f {
        Feature::Mac => "Mac"@,
        Feature::Ipv4Acl => "Ipv4Acl"@,
        Feature::Ipv6Acl => "Ipv6Acl"@,
        Feature::IpRateLimit => "IpRateLimit"@,
        Feature::PortRateLimit => "PortRateLimit"@,
        Feature::Port(Proto::Tcp) => "Port(Tcp)"@,
        Feature::Port(Proto::Udp) => "Port(Udp)"@,
    }
}

fn feature_name(f: Feature) -> (r: &'static str)
    ensures
        r@ == feature_text(f),
{
    match f {
        Feature::Mac => "Mac",
        Feature::Ipv4Acl => "Ipv4Acl",
        Feature::Ipv6Acl => "Ipv6Acl",
        Feature::IpRateLimit => "IpRateLimit",
        Feature::PortRateLimit => "PortRateLimit",
        Feature::Port(Proto::Tcp) => "Port(Tcp)",
        Feature::Port(Proto::Udp) => "Port(Udp)",
    }
}

/// "Ingress Mac", "Engress Port(Tcp)", and so on.
pub open spec fn stage_text(dir: Direction, f: Feature) -> Seq<char> {
    direction_label(dir) + " "@ + feature_text(f)
}

fn stage_words(dir: Direction, f: Feature) -> (r: String)
    ensures
        r@ == stage_text(dir, f),
{
    let mut r = String::from_str(dir.label());
    r.append(" ");
    r.append(feature_name(f));
    r
}

/// The slot registered for `key` among the discovered stage slots.
pub fn slot_for(slots: &Vec<((Direction, Feature), StageSlot)>, key: (Direction, Feature)) -> (r: Option<StageSlot>)
    requires
        keys_unique(slots@),
    ensures
        r matches Some(s) ==> entries_map(slots@).dom().contains(key) && entries_map(slots@)[key] == s,
        r is None ==> !entries_map(slots@).dom().contains(key),
{
    let mut i: usize = 0;
    while i < slots.len()
        invariant
            i <= slots.len(),
            keys_unique(slots@),
            forall|j: int| 0 <= j < i ==> slots@[j].0 != key,
        decreases slots.len() - i,
    {
        let (k, slot) = slots[i];
        if k.0 == key.0 && k.1 == key.1 {
            proof {
                assert(slots@[i as int].0 == key);
                let c = choose|c: int| 0 <= c < slots@.len() && slots@[c].0 == key;
                if c != i {
                    assert(slots@[c].0 != slots@[i as int].0);
                }
            }
            return Some(slot);
        }
        i = i + 1;
    }
    None
}

/// What flipping a switch asks of the stage slots.
#[derive(Debug, Clone)]
pub enum StagePlan {
    /// The switch governs no stage.
    NotAStage,
    /// No stage program was discovered for it: the status to show.
    Missing(String),
    /// Put the stage's program into its slot of the direction's prog-array
    /// map (`fd` is `Some`), or empty the slot (`None`).
    Write { dir: Direction, feature: Feature, index: u32, fd: Option<i32>, enabled: bool },
}

/// What flipping the switch `field` to its value in `c` asks of the stage
/// slots `slots`.
pub open spec fn stage_plan(field: BoolField, c: ACLConfig, slots: Map<(Direction, Feature), StageSlot>) -> Option<
    (Direction, Feature, Option<(u32, Option<i32>)>),
> {
    match stage_of(field) {
        None => None,
        Some((d, feat)) => Some(
            (
                d,
                feat,
                if slots.dom().contains((d, feat)) {
                    Some(
                        (
                            slots[(d, feat)].index,
                            if bool_value(field, c) {
                                Some(slots[(d, feat)].fd)
                            } else {
                                None
                            },
                        ),
                    )
                } else {
                    None
                },
            ),
        ),
    }
}

/// Decides what a flipped switch does to the stage slots: the switch's
/// stage program goes into its slot when the switch is on, and leaves it
/// when off. A stage only runs while its program occupies its slot, so this
/// is the whole on/off mechanism of the MAC, IP and port rules.
pub fn stage_toggle_plan(field: BoolField, config: &ACLConfig, slots: &Vec<((Direction, Feature), StageSlot)>) -> (r:
    StagePlan)
    requires
        keys_unique(slots@),
    ensures
        match stage_plan(field, *config, entries_map(slots@)) {
            None => r is NotAStage,
            Some((d, feat, None)) => r matches StagePlan::Missing(m) && m@ == stage_text(d, feat)
                + ": no matching BPF program loaded"@,
            Some((d, feat, Some((index, fd)))) => r == (StagePlan::Write {
                dir: d,
                feature: feat,
                index,
                fd,
                enabled: bool_value(field, *config),
            }),
        },
{
    let (dir, feature) = match stage_of_field(field) {
        None => return StagePlan::NotAStage,
        Some(k) => k,
    };
    let enabled = field.get(config);
    match slot_for(slots, (dir, feature)) {
        None => {
            let mut m = stage_words(dir, feature);
            m.append(": no matching BPF program loaded");
            StagePlan::Missing(m)
        },
        Some(slot) => {
            let fd = if enabled { Some(slot.fd) } else { None };
            StagePlan::Write { dir, feature, index: slot.index, fd, enabled }
        },
    }
}

/// The status after a stage slot was set, or failed to be set.
pub open spec fn stage_status_text(dir: Direction, f: Feature, enabled: bool, error: Option<Seq<char>>) -> Seq<char> {
    match error {
        None => stage_text(dir, f) + if enabled {
            " enabled"@
        } else {
            " disabled"@
        },
        Some(e) => "failed to toggle "@ + stage_text(dir, f) + ": "@ + e,
    }
}

pub fn stage_toggle_status(dir: Direction, feature: Feature, enabled: bool, error: Option<&str>) -> (r: String)
    ensures
        r@ == stage_status_text(dir, feature, enabled, match error {
            Some(e) => Some(e@),
            None => None,
        }),
{
    match error {
        None => {
            let mut r = stage_words(dir, feature);
            r.append(if enabled { " enabled" } else { " disabled" });
            r
        },
        Some(e) => {
            let mut r = String::from_str("failed to toggle ");
            let w = stage_words(dir, feature);
            r.append(w.as_str());
            r.append(": ");
            r.append(e);
            r
        },
    }
}

/// The stage switches of one direction, in the order they are applied.
pub open spec fn stage_switches_of(d: Direction) -> Seq<BoolField> {
    seq![
        BoolField::EnableMacRules(d),
        BoolField::EnableIpRules(d),
        BoolField::EnableIpv6Rules(d),
        BoolField::EnableIpRateLimit(d),
        BoolField::EnablePortRateLimit(d),
        BoolField::EnablePortRules(d, Proto::Tcp),
        BoolField::EnablePortRules(d, Proto::Udp),
    ]
}

/// Every stage switch, ingress first: applied once at startup so that a
/// loaded configuration takes effect without a manual toggle.
pub fn all_stage_toggles() -> (r: Vec<BoolField>)
    ensures
        r@ == stage_switches_of(Direction::Ingress) + stage_switches_of(Direction::Engress),
{
    let mut r: Vec<BoolField> = Vec::new();
    let dirs = [Direction::Ingress, Direction::Engress];
    let mut k: usize = 0;
    while k < 2
        invariant
            k <= 2,
            dirs@ == seq![Direction::Ingress, Direction::Engress],
            k == 0 ==> r@ == Seq::<BoolField>::empty(),
            k == 1 ==> r@ == stage_switches_of(Direction::Ingress),
            k == 2 ==> r@ == stage_switches_of(Direction::Ingress) + stage_switches_of(Direction::Engress),
        decreases 2 - k,
    {
        let d = dirs[k];
        let ghost before = r@;
        r.push(BoolField::EnableMacRules(d));
        r.push(BoolField::EnableIpRules(d));
        r.push(BoolField::EnableIpv6Rules(d));
        r.push(BoolField::EnableIpRateLimit(d));
        r.push(BoolField::EnablePortRateLimit(d));
        r.push(BoolField::EnablePortRules(d, Proto::Tcp));
        r.push(BoolField::EnablePortRules(d, Proto::Udp));
        assert(r@ =~= before + stage_switches_of(d));
        k = k + 1;
    }
    r
}

/// The status when a direction's program is not loaded.
pub open spec fn missing_program_text(dir: Direction) -> Seq<char> {
    direction_label(dir) + ": no matching BPF program loaded"@
}

pub fn missing_program_status(dir: Direction) -> (r: String)
    ensures
        r@ == missing_program_text(dir),
{
    let mut r = String::from_str(dir.label());
    r.append(": no matching BPF program loaded");
    r
}

/// The status after the master switch attached (`enabled`) or detached the
/// program `name`, given the error that it failed with, if any.
pub open spec fn master_status_text(name: Seq<char>, enabled: bool, error: Option<Seq<char>>) -> Seq<char> {
    match (enabled, error) {
        (true, None) => name + " attached"@,
        (true, Some(e)) => "failed to attach "@ + name + ": "@ + e,
        (false, None) => name + " stopped"@,
        (false, Some(e)) => name + " stopped with errors: "@ + e,
    }
}

pub fn master_switch_status(name: &str, enabled: bool, error: Option<&str>) -> (r: String)
    ensures
        r@ == master_status_text(name@, enabled, match error {
            Some(e) => Some(e@),
            None => None,
        }),
{
    match (enabled, error) {
        (true, None) => {
            let mut r = String::from_str(name);
            r.append(" attached");
            r
        },
        (true, Some(e)) => {
            let mut r = String::from_str("failed to attach ");
            r.append(name);
            r.append(": ");
            r.append(e);
            r
        },
        (false, None) => {
            let mut r = String::from_str(name);
            r.append(" stopped");
            r
        },
        (false, Some(e)) => {
            let mut r = String::from_str(name);
            r.append(" stopped with errors: ");
            r.append(e);
            r
        },
    }
}

/// The directions whose programs follow a change of interfaces: those
/// whose master switch is on, ingress first.
pub open spec fn reattached_directions(c: ACLConfig) -> Seq<Direction> {
    (if bool_value(BoolField::EnableRules(Direction::Ingress), c) {
        seq![Direction::Ingress]
    } else {
        Seq::empty()
    }) + (if bool_value(BoolField::EnableRules(Direction::Engress), c) {
        seq![Direction::Engress]
    } else {
        Seq::empty()
    })
}

pub fn directions_to_reattach(config: &ACLConfig) -> (r: Vec<Direction>)
    ensures
        r@ == reattached_directions(*config),
{
    let mut r: Vec<Direction> = Vec::new();
    if BoolField::EnableRules(Direction::Ingress).get(config) {
        r.push(Direction::Ingress);
    }
    if BoolField::EnableRules(Direction::Engress).get(config) {
        r.push(Direction::Engress);
    }
    assert(r@ =~= reattached_directions(*config));
    r
}

/// The status after the program `name` was moved onto `interfaces`.
pub open spec fn reattach_text(name: Seq<char>, interfaces: Seq<Seq<char>>, error: Option<Seq<char>>) -> Seq<char> {
    match error {
        None => name + " re-attached to "@ + join(interfaces, ", "@),
        Some(e) => "failed to re-attach "@ + name + ": "@ + e,
    }
}

pub fn reattach_status(name: &str, interfaces: &Vec<String>, error: Option<&str>) -> (r: String)
    ensures
        r@ == reattach_text(name@, texts(interfaces@), match error {
            Some(e) => Some(e@),
            None => None,
        }),
{
    match error {
        None => {
            let mut r = String::from_str(name);
            r.append(" re-attached to ");
            let joined = join_strings(interfaces, ", ");
            r.append(joined.as_str());
            r
        },
        Some(e) => {
            let mut r = String::from_str("failed to re-attach ");
            r.append(name);
            r.append(": ");
            r.append(e);
            r
        },
    }
}

/// The status after the configuration was saved to `path`, or failed to
/// be.
pub open spec fn save_text(path: Seq<char>, error: Option<Seq<char>>) -> Seq<char> {
    match error {
        None => "saved to "@ + path,
        Some(e) => "failed to save "@ + path + ": "@ + e,
    }
}

pub fn save_status(path: &str, error: Option<&str>) -> (r: String)
    ensures
        r@ == save_text(path@, match error {
            Some(e) => Some(e@),
            None => None,
        }),
{
    match error {
        None => {
            let mut r = String::from_str("saved to ");
            r.append(path);
            r
        },
        Some(e) => {
            let mut r = String::from_str("failed to save ");
            r.append(path);
            r.append(": ");
            r.append(e);
            r
        },
    }
}

/// The status when writing the rules into the BPF maps failed.
pub fn sync_failure_status(error: &str) -> (r: String)
    ensures
        r@ == "failed to sync BPF maps: "@ + error@,
{
    let mut r = String::from_str("failed to sync BPF maps: ");
    r.append(error);
    r
}

} // verus!
