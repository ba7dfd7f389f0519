//! The interactive state of the terminal interface and how key presses
//! change it. The terminal loop reads a key, hands it to `Ui::handle_key`,
//! and carries out the `Effect` it gets back (saving the file, writing the
//! BPF maps, attaching programs), none of which happens here.
use vstd::prelude::*;
use vstd::string::*;
use crate::config::{copy_strings, texts, ACLConfig};
use crate::screen::{
    default_footer_hint, footer_hint,
    interface_rows, interface_rows_view, ip_rows, ip_rows_view, mac_block, mac_rows, port_block,
    port_section_rows, rows_view, section_at, section_index, selectable, is_selectable, Row,
    RowView, SettingsSection, Tab,
};
use crate::settings::{
    first_index,
    add_result, entry_label, list_entries, toggled, toggled_selection, added, removed,
    BoolField, Direction, InterfaceSelection, ListField, Proto, selection_full_message,
};
use crate::text::{chars_of, string_of_window, trim, trimmed, window};

verus! {

/// The keys the interface reacts to; every other key is `Other`.
#[derive(Debug, Clone, Copy, PartialEq, Eq, Structural)]
pub enum Key {
    Enter,
    Esc,
    Backspace,
    Tab,
    Left,
    Right,
    Up,
    Down,
    Char(char),
    Other,
}

/// What the terminal loop has to do once a key has been handled.
#[derive(Debug, Clone, Copy, PartialEq, Eq, Structural)]
pub enum Effect {
    /// Nothing beyond redrawing.
    Nothing,
    /// Leave the interface.
    Quit,
    /// Write the configuration to its file.
    Save,
    /// Write the changed rules into the BPF maps.
    Sync,
    /// A switch was flipped: write the rules into the BPF maps, then attach
    /// or detach what the switch governs.
    Toggled(BoolField),
    /// The interface selection changed: move the running programs onto the
    /// new interfaces.
    Reattach,
    /// The Summary page was opened: its rows have to be built from the live
    /// state.
    ShowSummary,
}

/// The state of the interface that key presses act on.
pub struct Ui {
    pub config: ACLConfig,
    pub interfaces: Vec<String>,
    pub iface_selection: InterfaceSelection,
    pub tab: Tab,
    pub section: SettingsSection,
    pub rows: Vec<Row>,
    pub selected: Option<usize>,
    /// The list that the pending "add new" prompt adds to.
    pub input_target: Option<ListField>,
    pub input_buffer: String,
    pub status: Option<String>,
}

/// The rows of a section of the Settings page.
pub open spec fn section_view(s: SettingsSection, c: ACLConfig, sel: InterfaceSelection) -> Seq<RowView> {
    match s {
        SettingsSection::Ip => ip_rows_view(c),
        SettingsSection::Tcp => port_block(c, Direction::Ingress, Proto::Tcp) + port_block(
            c,
            Direction::Engress,
            Proto::Tcp,
        ),
        SettingsSection::Udp => port_block(c, Direction::Ingress, Proto::Udp) + port_block(
            c,
            Direction::Engress,
            Proto::Udp,
        ),
        SettingsSection::Mac => mac_block(c, Direction::Ingress) + mac_block(c, Direction::Engress),
        SettingsSection::Interfaces => interface_rows_view(texts(sel.available@), texts(sel.selected@)),
    }
}

/// `i` is the first row the cursor can rest on.
pub open spec fn is_first_selectable(rows: Seq<RowView>, i: int) -> bool {
    &&& 0 <= i < rows.len()
    &&& selectable(rows[i])
    &&& forall|j: int| 0 <= j < i ==> !selectable(rows[j])
}

/// Where the cursor starts on freshly built rows: the first row it can
/// rest on, if any.
pub open spec fn first_selectable(rows: Seq<RowView>) -> Option<usize> {
    if exists|i: int| is_first_selectable(rows, i) {
        Some((choose|i: int| is_first_selectable(rows, i)) as usize)
    } else {
        None
    }
}

/// `i` is the nearest row after `cur` that the cursor can rest on.
pub open spec fn is_next_selectable(rows: Seq<RowView>, cur: int, i: int) -> bool {
    &&& cur < i < rows.len()
    &&& selectable(rows[i])
    &&& forall|j: int| cur < j < i ==> !selectable(rows[j])
}

/// `i` is the nearest row before `cur` that the cursor can rest on.
pub open spec fn is_previous_selectable(rows: Seq<RowView>, cur: int, i: int) -> bool {
    &&& 0 <= i < cur
    &&& selectable(rows[i])
    &&& forall|j: int| i < j < cur ==> !selectable(rows[j])
}

/// The cursor after moving down: to the nearest selectable row below, or
/// where it was when there is none.
pub open spec fn moved_down(rows: Seq<RowView>, selected: Option<usize>) -> Option<usize> {
    match selected {
        None => None,
        Some(cur) => if exists|i: int| is_next_selectable(rows, cur as int, i) {
            Some((choose|i: int| is_next_selectable(rows, cur as int, i)) as usize)
        } else {
            Some(cur)
        },
    }
}

/// The cursor after moving up: to the nearest selectable row above, or
/// where it was when there is none.
pub open spec fn moved_up(rows: Seq<RowView>, selected: Option<usize>) -> Option<usize> {
    match selected {
        None => None,
        Some(cur) => if exists|i: int| is_previous_selectable(rows, cur as int, i) {
            Some((choose|i: int| is_previous_selectable(rows, cur as int, i)) as usize)
        } else {
            Some(cur)
        },
    }
}

/// The cursor only ever rests on rows it can rest on: where fresh rows put
/// it, and where moving up or down takes it from such a row.
pub proof fn law_cursor_rests_on_selectable_rows(rows: Seq<RowView>, selected: Option<usize>)
    requires
        rows.len() <= usize::MAX,
        selected matches Some(i) ==> i < rows.len() && selectable(rows[i as int]),
    ensures
        first_selectable(rows) matches Some(j) ==> j < rows.len() && selectable(rows[j as int]),
        moved_down(rows, selected) matches Some(j) ==> j < rows.len() && selectable(rows[j as int]),
        moved_up(rows, selected) matches Some(j) ==> j < rows.len() && selectable(rows[j as int]),
{
    if exists|i: int| is_first_selectable(rows, i) {
        let k = choose|i: int| is_first_selectable(rows, i);
        assert(is_first_selectable(rows, k));
    }
    if let Some(cur) = selected {
        if exists|i: int| is_next_selectable(rows, cur as int, i) {
            let k = choose|i: int| is_next_selectable(rows, cur as int, i);
            assert(is_next_selectable(rows, cur as int, k));
        }
        if exists|i: int| is_previous_selectable(rows, cur as int, i) {
            let k = choose|i: int| is_previous_selectable(rows, cur as int, i);
            assert(is_previous_selectable(rows, cur as int, k));
        }
    }
}

/// The first row of `rows` that the cursor can rest on.
pub fn first_selectable_row(rows: &Vec<Row>) -> (r: Option<usize>)
    ensures
        r == first_selectable(rows_view(rows@)),
{
    let ghost v = rows_view(rows@);
    let mut i: usize = 0;
    while i < rows.len()
        invariant
            i <= rows.len(),
            v == rows_view(rows@),
            forall|j: int| 0 <= j < i ==> !selectable(v[j]),
        decreases rows.len() - i,
    {
        if is_selectable(&rows[i]) {
            proof {
                assert(is_first_selectable(v, i as int));
                let k = choose|k: int| is_first_selectable(v, k);
                if k < i {
                    assert(!selectable(v[k]));
                } else if i < k {
                    assert(!selectable(v[i as int]));
                }
            }
            return Some(i);
        }
        i = i + 1;
    }
    proof {
        if exists|k: int| is_first_selectable(v, k) {
            let k = choose|k: int| is_first_selectable(v, k);
            assert(!selectable(v[k]));
        }
    }
    None
}

/// Moves the cursor to the nearest selectable row below it.
pub fn select_next(rows: &Vec<Row>, selected: Option<usize>) -> (r: Option<usize>)
    ensures
        r == moved_down(rows_view(rows@), selected),
{
    let ghost v = rows_view(rows@);
    let current = match selected {
        None => return None,
        Some(c) => c,
    };
    if current >= rows.len() {
        proof {
            assert(!exists|i: int| is_next_selectable(v, current as int, i));
        }
        return Some(current);
    }
    let mut i: usize = current + 1;
    while i < rows.len()
        invariant
            current < i <= rows.len(),
            selected == Some(current),
            v == rows_view(rows@),
            forall|j: int| current < j < i ==> !selectable(v[j]),
        decreases rows.len() - i,
    {
        if is_selectable(&rows[i]) {
            proof {
                assert(is_next_selectable(v, current as int, i as int));
                let k = choose|k: int| is_next_selectable(v, current as int, k);
                if k < i {
                    assert(!selectable(v[k]));
                } else if i < k {
                    assert(!selectable(v[i as int]));
                }
            }
            return Some(i);
        }
        i = i + 1;
    }
    proof {
        if exists|k: int| is_next_selectable(v, current as int, k) {
            let k = choose|k: int| is_next_selectable(v, current as int, k);
            assert(!selectable(v[k]));
        }
    }
    Some(current)
}

/// Moves the cursor to the nearest selectable row above it.
pub fn select_previous(rows: &Vec<Row>, selected: Option<usize>) -> (r: Option<usize>)
    requires
        selected matches Some(c) ==> c <= rows@.len(),
    ensures
        r == moved_up(rows_view(rows@), selected),
{
    let ghost v = rows_view(rows@);
    let current = match selected {
        None => return None,
        Some(c) => c,
    };
    let mut i: usize = current;
    while i > 0
        invariant
            i <= current <= rows.len(),
            selected == Some(current),
            v == rows_view(rows@),
            forall|j: int| i <= j < current ==> !selectable(v[j]),
        decreases i,
    {
        if is_selectable(&rows[i - 1]) {
            proof {
                let p = i - 1;
                assert(is_previous_selectable(v, current as int, p as int));
                let k = choose|k: int| is_previous_selectable(v, current as int, k);
                if k < p {
                    assert(!selectable(v[p as int]));
                } else if p < k {
                    assert(!selectable(v[k]));
                }
            }
            return Some(i - 1);
        }
        i = i - 1;
    }
    proof {
        if exists|k: int| is_previous_selectable(v, current as int, k) {
            let k = choose|k: int| is_previous_selectable(v, current as int, k);
            assert(!selectable(v[k]));
        }
    }
    Some(current)
}

/// The buffer after Backspace: its last character removed, if it has one.
pub open spec fn backspaced(s: Seq<char>) -> Seq<char> {
    if s.len() == 0 {
        s
    } else {
        s.drop_last()
    }
}

fn without_last(s: &String) -> (r: String)
    ensures
        r@ == backspaced(s@),
{
    let v = chars_of(s.as_str());
    let n = v.len();
    if n == 0 {
        return String::new();
    }
    let r = string_of_window(&v, 0, n - 1);
    assert(window(v@, 0, n - 1) =~= s@.drop_last());
    r
}

fn push_text(s: &mut String, c: char)
    ensures
        final(s)@ == old(s)@.push(c),
{
    crate::text::push_char(s, c);
}

/// The status line after an entry was added from the prompt.
pub open spec fn added_message(input: Seq<char>) -> Seq<char> {
    "added \""@ + trim(input) + "\""@
}

impl Ui {
    /// The cursor, if any, is on one of the rows.
    pub open spec fn wf(&self) -> bool {
        self.selected matches Some(i) ==> i < self.rows@.len()
    }

    /// The rows of the current section are on screen, the cursor on the
    /// first row it can rest on.
    pub open spec fn shows_section(&self) -> bool {
        &&& rows_view(self.rows@) == section_view(self.section, self.config, self.iface_selection)
        &&& self.selected == first_selectable(rows_view(self.rows@))
    }

    /// The interface as it opens: on the Summary page, with no rows yet,
    /// no prompt and no status.
    pub fn new(config: ACLConfig, interfaces: Vec<String>, available: Vec<String>) -> (ui: Ui)
        ensures
            ui.wf(),
            ui.config == config,
            texts(ui.interfaces@) == texts(interfaces@),
            ui.iface_selection.available@ == available@,
            texts(ui.iface_selection.selected@) == texts(interfaces@),
            ui.tab == Tab::Summary,
            ui.section == SettingsSection::Ip,
            ui.rows@.len() == 0,
            ui.selected is None,
            ui.input_target is None,
            ui.input_buffer@.len() == 0,
            ui.status is None,
    {
        let selected = copy_strings(&interfaces);
        Ui {
            config,
            interfaces,
            iface_selection: InterfaceSelection { available, selected },
            tab: Tab::Summary,
            section: SettingsSection::Ip,
            rows: Vec::new(),
            selected: None,
            input_target: None,
            input_buffer: String::new(),
            status: None,
        }
    }

    /// Puts `rows` on screen, the cursor on the first row it can rest on.
    pub fn show_rows(&mut self, rows: Vec<Row>)
        ensures
            final(self).wf(),
            final(self).rows@ == rows@,
            final(self).selected == first_selectable(rows_view(rows@)),
            final(self).config == old(self).config,
            final(self).interfaces@ == old(self).interfaces@,
            final(self).iface_selection == old(self).iface_selection,
            final(self).tab == old(self).tab,
            final(self).section == old(self).section,
            final(self).input_target == old(self).input_target,
            final(self).input_buffer@ == old(self).input_buffer@,
            final(self).status == old(self).status,
    {
        let first = first_selectable_row(&rows);
        self.rows = rows;
        self.selected = first;
    }

    /// The rows of the current section of the Settings page.
    pub fn section_rows(&self) -> (rows: Vec<Row>)
        ensures
            rows_view(rows@) == section_view(self.section, self.config, self.iface_selection),
    {
        match self.section {
            SettingsSection::Ip => ip_rows(&self.config),
            SettingsSection::Tcp => port_section_rows(&self.config, Proto::Tcp),
            SettingsSection::Udp => port_section_rows(&self.config, Proto::Udp),
            SettingsSection::Mac => mac_rows(&self.config),
            SettingsSection::Interfaces => interface_rows(&self.iface_selection),
        }
    }

    /// The footer: the status message if there is one, else the key help
    /// of the page.
    pub fn footer_text(&self) -> (r: String)
        ensures
            r@ == match self.status {
                Some(m) => m@,
                None => footer_hint(self.tab),
            },
    {
        match &self.status {
            Some(m) => m.clone(),
            None => default_footer_hint(self.tab),
        }
    }

    /// The prompt's text with the cursor after it.
    pub fn prompt_text(&self) -> (r: String)
        ensures
            r@ == self.input_buffer@.push('_'),
    {
        let mut t = self.input_buffer.clone();
        push_text(&mut t, '_');
        t
    }

    fn rebuild_section(&mut self)
        ensures
            final(self).wf(),
            final(self).shows_section(),
            final(self).config == old(self).config,
            final(self).interfaces@ == old(self).interfaces@,
            final(self).iface_selection == old(self).iface_selection,
            final(self).tab == old(self).tab,
            final(self).section == old(self).section,
            final(self).input_target == old(self).input_target,
            final(self).input_buffer@ == old(self).input_buffer@,
            final(self).status == old(self).status,
    {
        let rows = self.section_rows();
        self.show_rows(rows);
    }
}

// ---------------------------------------------------------------------------
// What each key does
// ---------------------------------------------------------------------------

/// Whether toggling `name` in the selected interfaces `before` succeeds:
/// always when it is selected (it leaves), else when there is room.
pub open spec fn selection_ok(before: Seq<Seq<char>>, name: Seq<char>) -> bool {
    first_index(before, name) is Some || before.len() < InterfaceSelection::MAX_SELECTED
}

/// The row under the cursor, if the cursor is on a row.
pub open spec fn cursor_row(u: Ui) -> Option<RowView> {
    match u.selected {
        Some(i) => if i < u.rows@.len() {
            Some(u.rows@[i as int]@)
        } else {
            None
        },
        None => None,
    }
}

/// Toggling the interface `name` under the cursor. On success the
/// selection becomes the configured interface list and the programs have
/// to be moved onto it; when the selection is full, the status says so.
pub open spec fn iface_step(a: Ui, b: Ui, e: Effect, name: Seq<char>) -> bool {
    let before = texts(a.iface_selection.selected@);
    let after = texts(b.iface_selection.selected@);
    &&& b.iface_selection.available@ == a.iface_selection.available@
    &&& toggled_selection(before, name, after, selection_ok(before, name))
    &&& b.tab == a.tab
    &&& b.section == a.section
    &&& b.input_target == a.input_target
    &&& b.input_buffer@ == a.input_buffer@
    &&& b.config.ingress == a.config.ingress
    &&& b.config.engress == a.config.engress
    &&& if selection_ok(before, name) {
        &&& texts(b.interfaces@) == after
        &&& texts(b.config.interfaces.names@) == after
        &&& b.status is None
        &&& b.shows_section()
        &&& e == Effect::Reattach
    } else {
        &&& b.interfaces@ == a.interfaces@
        &&& b.config == a.config
        &&& b.status matches Some(m) && m@ == selection_full_message()
        &&& b.rows@ == a.rows@
        &&& b.selected == a.selected
        &&& e == Effect::Nothing
    }
}

/// Flipping the switch `f` under the cursor.
pub open spec fn switch_step(a: Ui, b: Ui, e: Effect, f: BoolField) -> bool {
    &&& toggled(f, a.config, b.config)
    &&& b.interfaces@ == a.interfaces@
    &&& b.iface_selection == a.iface_selection
    &&& b.tab == a.tab
    &&& b.section == a.section
    &&& b.input_target == a.input_target
    &&& b.input_buffer@ == a.input_buffer@
    &&& b.status == a.status
    &&& b.shows_section()
    &&& e == Effect::Toggled(f)
}

/// Space: toggles the interface or the switch under the cursor; on any
/// other row it does nothing.
pub open spec fn space_step(a: Ui, b: Ui, e: Effect) -> bool {
    match cursor_row(a) {
        Some(RowView::Iface(name, _)) => iface_step(a, b, e, name),
        Some(RowView::Bool(f, _)) => switch_step(a, b, e, f),
        _ => b == a && e == Effect::Nothing,
    }
}

/// "d": removes the list entry under the cursor.
pub open spec fn delete_step(a: Ui, b: Ui, e: Effect) -> bool {
    match cursor_row(a) {
        Some(RowView::Item(f, index, label)) => if index < list_entries(f, a.config).len() {
            &&& removed(f, index as int, a.config, b.config)
            &&& b.interfaces@ == a.interfaces@
            &&& b.iface_selection == a.iface_selection
            &&& b.tab == a.tab
            &&& b.section == a.section
            &&& b.input_target == a.input_target
            &&& b.input_buffer@ == a.input_buffer@
            &&& b.status matches Some(m) && m@ == "removed "@ + label
            &&& b.shows_section()
            &&& e == Effect::Sync
        } else {
            b == a && e == Effect::Nothing
        },
        _ => b == a && e == Effect::Nothing,
    }
}

/// Enter: toggles the interface under the cursor, or opens the prompt of
/// the "add" row under it.
pub open spec fn enter_step(a: Ui, b: Ui, e: Effect) -> bool {
    match cursor_row(a) {
        Some(RowView::Iface(name, _)) => iface_step(a, b, e, name),
        Some(RowView::AddNew(f, _)) => {
            &&& b.input_target == Some(f)
            &&& b.input_buffer@ == Seq::<char>::empty()
            &&& b.config == a.config
            &&& b.interfaces@ == a.interfaces@
            &&& b.iface_selection == a.iface_selection
            &&& b.tab == a.tab
            &&& b.section == a.section
            &&& b.rows@ == a.rows@
            &&& b.selected == a.selected
            &&& b.status == a.status
            &&& e == Effect::Nothing
        },
        _ => b == a && e == Effect::Nothing,
    }
}

/// Enter at the prompt of list `f`: the typed text is added to the list,
/// or the status tells why it was refused.
pub open spec fn submit_step(a: Ui, b: Ui, e: Effect, f: ListField) -> bool {
    &&& b.interfaces@ == a.interfaces@
    &&& b.iface_selection == a.iface_selection
    &&& b.tab == a.tab
    &&& b.section == a.section
    &&& match add_result(f, a.input_buffer@) {
        Ok(entry) => {
            &&& added(f, entry, a.config, b.config)
            &&& b.status matches Some(m) && m@ == added_message(a.input_buffer@)
            &&& b.input_target is None
            &&& b.input_buffer@ == Seq::<char>::empty()
            &&& b.shows_section()
            &&& e == Effect::Sync
        },
        Err(msg) => {
            &&& b.config == a.config
            &&& b.status matches Some(m) && m@ == msg
            &&& b.input_target == a.input_target
            &&& b.input_buffer@ == a.input_buffer@
            &&& b.rows@ == a.rows@
            &&& b.selected == a.selected
            &&& e == Effect::Nothing
        },
    }
}

/// Only the prompt's text changed, to `text`.
pub open spec fn typed(a: Ui, b: Ui, text: Seq<char>) -> bool {
    &&& b.input_buffer@ == text
    &&& b.input_target == a.input_target
    &&& b.config == a.config
    &&& b.interfaces@ == a.interfaces@
    &&& b.iface_selection == a.iface_selection
    &&& b.tab == a.tab
    &&& b.section == a.section
    &&& b.rows@ == a.rows@
    &&& b.selected == a.selected
    &&& b.status == a.status
}

/// A key pressed while the prompt is open.
pub open spec fn prompt_step(a: Ui, key: Key, b: Ui, e: Effect) -> bool {
    match key {
        Key::Enter => submit_step(a, b, e, a.input_target.unwrap()),
        Key::Esc => {
            &&& b.input_target is None
            &&& b.input_buffer@ == Seq::<char>::empty()
            &&& b.config == a.config
            &&& b.interfaces@ == a.interfaces@
            &&& b.iface_selection == a.iface_selection
            &&& b.tab == a.tab
            &&& b.section == a.section
            &&& b.rows@ == a.rows@
            &&& b.selected == a.selected
            &&& b.status == a.status
            &&& e == Effect::Nothing
        },
        Key::Backspace => typed(a, b, backspaced(a.input_buffer@)) && e == Effect::Nothing,
        Key::Char(c) => typed(a, b, a.input_buffer@.push(c)) && e == Effect::Nothing,
        _ => b == a && e == Effect::Nothing,
    }
}

/// Only the cursor moved, to `selected`.
pub open spec fn moved(a: Ui, b: Ui, selected: Option<usize>) -> bool {
    &&& b.selected == selected
    &&& b.rows@ == a.rows@
    &&& b.config == a.config
    &&& b.interfaces@ == a.interfaces@
    &&& b.iface_selection == a.iface_selection
    &&& b.tab == a.tab
    &&& b.section == a.section
    &&& b.input_target == a.input_target
    &&& b.input_buffer@ == a.input_buffer@
    &&& b.status == a.status
}

/// The section changed to `s`, and its rows are on screen.
pub open spec fn switched_section(a: Ui, b: Ui, s: SettingsSection) -> bool {
    &&& b.section == s
    &&& b.shows_section()
    &&& b.config == a.config
    &&& b.interfaces@ == a.interfaces@
    &&& b.iface_selection == a.iface_selection
    &&& b.tab == a.tab
    &&& b.input_target == a.input_target
    &&& b.input_buffer@ == a.input_buffer@
    &&& b.status == a.status
}

/// The other page.
pub open spec fn other_tab(t: Tab) -> Tab {
    match t {
        Tab::Summary => Tab::Settings,
        Tab::Settings => Tab::Summary,
    }
}

/// Tab: the other page opens with a clear status. The Settings page shows
/// the rows of its section; the Summary page needs the live state.
pub open spec fn tab_step(a: Ui, b: Ui, e: Effect) -> bool {
    &&& b.tab == other_tab(a.tab)
    &&& b.status is None
    &&& b.section == a.section
    &&& b.config == a.config
    &&& b.interfaces@ == a.interfaces@
    &&& b.iface_selection == a.iface_selection
    &&& b.input_target == a.input_target
    &&& b.input_buffer@ == a.input_buffer@
    &&& if b.tab == Tab::Settings {
        b.shows_section() && e == Effect::Nothing
    } else {
        b.rows@ == a.rows@ && b.selected == a.selected && e == Effect::ShowSummary
    }
}

/// A key pressed while no prompt is open.
pub open spec fn page_step(a: Ui, key: Key, b: Ui, e: Effect) -> bool {
    let settings = a.tab == Tab::Settings;
    if key == Key::Char('q') {
        b == a && e == Effect::Quit
    } else if key == Key::Char('s') {
        b == a && e == Effect::Save
    } else if key == Key::Tab {
        tab_step(a, b, e)
    } else if key == Key::Left && settings {
        switched_section(a, b, section_at((section_index(a.section) + 4) % 5)) && e == Effect::Nothing
    } else if key == Key::Right && settings {
        switched_section(a, b, section_at((section_index(a.section) + 1) % 5)) && e == Effect::Nothing
    } else if key == Key::Down && settings {
        moved(a, b, moved_down(rows_view(a.rows@), a.selected)) && e == Effect::Nothing
    } else if key == Key::Up && settings {
        moved(a, b, moved_up(rows_view(a.rows@), a.selected)) && e == Effect::Nothing
    } else if key == Key::Char(' ') && settings {
        space_step(a, b, e)
    } else if key == Key::Char('d') && settings {
        delete_step(a, b, e)
    } else if key == Key::Enter && settings {
        enter_step(a, b, e)
    } else {
        b == a && e == Effect::Nothing
    }
}

impl Ui {
    fn press_space(&mut self) -> (e: Effect)
        requires
            old(self).wf(),
        ensures
            final(self).wf(),
            space_step(*old(self), *final(self), e),
    {
        let index = match self.selected {
            None => return Effect::Nothing,
            Some(i) => i,
        };
        let name: Option<String> = match &self.rows[index] {
            Row::Iface(n, _) => Some(n.clone()),
            _ => None,
        };
        let field: Option<BoolField> = match &self.rows[index] {
            Row::Bool(f, _) => Some(*f),
            _ => None,
        };
        if let Some(name) = name {
            match self.iface_selection.toggle(name.as_str()) {
                Ok(()) => {
                    self.interfaces = copy_strings(&self.iface_selection.selected);
                    self.config.interfaces.names = copy_strings(&self.interfaces);
                    self.status = None;
                    self.rebuild_section();
                    Effect::Reattach
                },
                Err(err) => {
                    self.status = Some(err);
                    Effect::Nothing
                },
            }
        } else if let Some(f) = field {
            f.toggle(&mut self.config);
            self.rebuild_section();
            Effect::Toggled(f)
        } else {
            Effect::Nothing
        }
    }

    fn press_delete(&mut self) -> (e: Effect)
        requires
            old(self).wf(),
        ensures
            final(self).wf(),
            delete_step(*old(self), *final(self), e),
    {
        let index = match self.selected {
            None => return Effect::Nothing,
            Some(i) => i,
        };
        let item: Option<(ListField, usize, String)> = match &self.rows[index] {
            Row::Item(f, i, label) => Some((*f, *i, label.clone())),
            _ => None,
        };
        match item {
            Some((field, item_index, label)) => {
                if item_index >= field.len(&self.config) {
                    return Effect::Nothing;
                }
                field.remove(&mut self.config, item_index);
                let mut m = String::from_str("removed ");
                m.append(label.as_str());
                self.status = Some(m);
                self.rebuild_section();
                Effect::Sync
            },
            None => Effect::Nothing,
        }
    }

    fn press_enter(&mut self) -> (e: Effect)
        requires
            old(self).wf(),
        ensures
            final(self).wf(),
            enter_step(*old(self), *final(self), e),
    {
        let index = match self.selected {
            None => return Effect::Nothing,
            Some(i) => i,
        };
        let on_iface = match &self.rows[index] {
            Row::Iface(..) => true,
            _ => false,
        };
        if on_iface {
            return self.press_space();
        }
        let target: Option<ListField> = match &self.rows[index] {
            Row::AddNew(f, _) => Some(*f),
            _ => None,
        };
        if let Some(f) = target {
            self.input_target = Some(f);
            self.input_buffer = String::new();
        }
        Effect::Nothing
    }

    fn submit_input(&mut self, field: ListField) -> (e: Effect)
        requires
            old(self).wf(),
        ensures
            final(self).wf(),
            submit_step(*old(self), *final(self), e, field),
    {
        match field.add(&mut self.config, self.input_buffer.as_str()) {
            Ok(()) => {
                let mut m = String::from_str("added \"");
                let t = trimmed(self.input_buffer.as_str());
                m.append(t.as_str());
                m.append("\"");
                self.status = Some(m);
                self.input_target = None;
                self.input_buffer = String::new();
                self.rebuild_section();
                Effect::Sync
            },
            Err(err) => {
                self.status = Some(err);
                Effect::Nothing
            },
        }
    }

    fn press_in_prompt(&mut self, key: Key) -> (e: Effect)
        requires
            old(self).wf(),
            old(self).input_target is Some,
        ensures
            final(self).wf(),
            prompt_step(*old(self), key, *final(self), e),
    {
        match key {
            Key::Enter => {
                let field = self.input_target.unwrap();
                self.submit_input(field)
            },
            Key::Esc => {
                self.input_target = None;
                self.input_buffer = String::new();
                Effect::Nothing
            },
            Key::Backspace => {
                self.input_buffer = without_last(&self.input_buffer);
                Effect::Nothing
            },
            Key::Char(c) => {
                push_text(&mut self.input_buffer, c);
                Effect::Nothing
            },
            _ => Effect::Nothing,
        }
    }

    /// Handles one key press and says what the terminal loop has to do
    /// next. While the prompt is open, keys edit it; otherwise they switch
    /// pages, move through the Settings page and act on the row under the
    /// cursor.
    pub fn handle_key(&mut self, key: Key) -> (e: Effect)
        requires
            old(self).wf(),
        ensures
            final(self).wf(),
            old(self).input_target is Some ==> prompt_step(*old(self), key, *final(self), e),
            old(self).input_target is None ==> page_step(*old(self), key, *final(self), e),
    {
        if self.input_target.is_some() {
            return self.press_in_prompt(key);
        }
        let settings = self.tab == Tab::Settings;
        if key == Key::Char('q') {
            Effect::Quit
        } else if key == Key::Char('s') {
            Effect::Save
        } else if key == Key::Tab {
            self.press_tab()
        } else if key == Key::Left && settings {
            self.section = self.section.prev();
            self.rebuild_section();
            Effect::Nothing
        } else if key == Key::Right && settings {
            self.section = self.section.next();
            self.rebuild_section();
            Effect::Nothing
        } else if key == Key::Down && settings {
            self.selected = select_next(&self.rows, self.selected);
            Effect::Nothing
        } else if key == Key::Up && settings {
            self.selected = select_previous(&self.rows, self.selected);
            Effect::Nothing
        } else if key == Key::Char(' ') && settings {
            self.press_space()
        } else if key == Key::Char('d') && settings {
            self.press_delete()
        } else if key == Key::Enter && settings {
            self.press_enter()
        } else {
            Effect::Nothing
        }
    }

    fn press_tab(&mut self) -> (e: Effect)
        requires
            old(self).wf(),
        ensures
            final(self).wf(),
            tab_step(*old(self), *final(self), e),
    {
        self.tab = match self.tab {
            Tab::Summary => Tab::Settings,
            Tab::Settings => Tab::Summary,
        };
        self.status = None;
        if self.tab == Tab::Settings {
            self.rebuild_section();
            Effect::Nothing
        } else {
            Effect::ShowSummary
        }
    }
}

} // verus!
