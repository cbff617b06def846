//! The settings window as a transaction: choices stay pending until saved,
//! cancelling restores what was there, and the debugging target is checked
//! before it is used.
use vstd::prelude::*;
use crate::chars::push_char;
use crate::fmt::{decimal, digit, push_decimal, push_str, str_eq, string_of};
use crate::git::pop_char;
use crate::inspection::{lemma_trim_end_at, lemma_trim_start_at, trim, trimmed};
use crate::chars::chars_of;

verus! {

/// A page of the window: a section contributed by a language, by its
/// index, or the debugging page.
#[derive(Clone, Copy, Debug, Eq, PartialEq, Structural)]
pub enum SettingsPage {
    Contribution(usize),
    Debug,
}

/// Which of the two choices of a section.
#[derive(Clone, Copy, Debug, Eq, PartialEq, Structural)]
pub enum ToolRole {
    Primary,
    Secondary,
}

/// The field of the debugging page that has the keyboard.
#[derive(Clone, Copy, Debug, Eq, PartialEq, Structural)]
pub enum DebugField {
    Host,
    Port,
}

/// What the window concluded, for the caller to carry out.
#[derive(Debug)]
pub enum SettingsOutcome {
    /// Nothing concluded; what the gesture changed is already in the window.
    Idle,
    /// Ask the application for an installation for a role of the section.
    Browse { section: usize, role: ToolRole },
    /// Apply what changed, and nothing else.
    Save { section: usize, primary: Option<usize>, secondary: Option<usize> },
    /// Connect to the debugging target given.
    Attach { host: String, port: u16 },
}

/// The section a gesture speaks of, when the page is a contributed one.
pub fn contribution_section(page: SettingsPage) -> (r: Option<usize>)
    ensures
        match page {
            SettingsPage::Contribution(i) => r == Some(i),
            SettingsPage::Debug => r is None,
        },
{
    match page {
        SettingsPage::Contribution(index) => Some(index),
        SettingsPage::Debug => None,
    }
}

// ----------------------------------------------------------------------------
// The port number
/// The digit `c` stands for.
pub open spec fn digit_value(c: char) -> nat {
    ((c as u32) - ('0' as u32)) as nat
}

/// `c` is an ASCII digit.
pub open spec fn is_digit(c: char) -> bool {
    '0' <= c && c <= '9'
}

/// The number the digits of `s` write.
pub open spec fn digits_value(s: Seq<char>) -> nat
    decreases s.len(),
{
    if s.len() == 0 {
        0
    } else {
        digits_value(s.drop_last()) * 10 + digit_value(s.last())
    }
}

/// The number written by `d` when it is one or more decimal digits and
/// fits in 16 bits.
pub open spec fn parse_digits(d: Seq<char>) -> Option<u16> {
    if d.len() > 0 && (forall|i: int| 0 <= i < d.len() ==> is_digit(#[trigger] d[i])) && digits_value(d)
        <= 65535 {
        Some(digits_value(d) as u16)
    } else {
        None
    }
}

/// What `u16::from_str` accepts: an optional `+`, then one or more decimal
/// digits writing a number that fits.
pub open spec fn parse_u16_spec(s: Seq<char>) -> Option<u16> {
    if s.len() > 0 && s[0] == '+' {
        parse_digits(s.drop_first())
    } else {
        parse_digits(s)
    }
}

/// The decimal writing of `n` is made of digits, and they write `n`.
proof fn lemma_decimal_digits(n: nat)
    ensures
        decimal(n).len() > 0,
        forall|i: int| 0 <= i < decimal(n).len() ==> is_digit(#[trigger] decimal(n)[i]),
        digits_value(decimal(n)) == n,
    decreases n,
{
    if n >= 10 {
        lemma_decimal_digits(n / 10);
        let d = decimal(n / 10).push(digit(n % 10));
        assert(d.drop_last() =~= decimal(n / 10));
        assert forall|i: int| 0 <= i < d.len() implies is_digit(#[trigger] d[i]) by {
            if i < d.len() - 1 {
                assert(d[i] == decimal(n / 10)[i]);
            }
        }
        assert(decimal(n) == d);
        assert(digit_value(digit(n % 10)) == n % 10);
        assert(digits_value(d) == digits_value(decimal(n / 10)) * 10 + digit_value(digit(n % 10)));
        assert((n / 10) * 10 + n % 10 == n);
    } else {
        let d = seq![digit(n)];
        assert(d.drop_last() =~= Seq::<char>::empty());
        assert(digits_value(Seq::<char>::empty()) == 0);
        assert(d.last() == digit(n));
        assert(digit_value(digit(n)) == n);
        assert(digits_value(d) == digit_value(digit(n)));
    }
}

/// A port written into the field reads back as the same number.
pub proof fn law_a_written_port_reads_back(port: u16)
    ensures
        parse_u16_spec(decimal(port as nat)) == Some(port),
        trim(decimal(port as nat)) == decimal(port as nat),
{
    let d = decimal(port as nat);
    lemma_decimal_digits(port as nat);
    assert(is_digit(d[0]));
    assert(d[0] != '+');
    assert(digits_value(d) <= 65535);
    lemma_trim_start_at(d, 0);
    assert(d.subrange(0, d.len() as int) =~= d);
    assert(is_digit(d[d.len() - 1]));
    lemma_trim_end_at(d, d.len() as int);
}

/// The target shown in the fields is the target read from them, whenever
/// it is usable: a host without surrounding white space and a port above
/// zero.
pub proof fn law_the_target_shown_is_the_target_read(host: Seq<char>, port: u16)
    requires
        trim(host) == host,
        host.len() > 0,
        port > 0,
    ensures
        debug_target_spec(host, decimal(port as nat)) == Some((host, port)),
{
    law_a_written_port_reads_back(port);
}

proof fn lemma_digits_prefix(s: Seq<char>, k: int)
    requires
        0 <= k <= s.len(),
        forall|i: int| 0 <= i < s.len() ==> is_digit(#[trigger] s[i]),
    ensures
        digits_value(s.take(k)) <= digits_value(s),
    decreases s.len() - k,
{
    if k < s.len() {
        lemma_digits_prefix(s, k + 1);
        assert(s.take(k + 1).drop_last() =~= s.take(k));
    } else {
        assert(s.take(k) =~= s);
    }
}

/// `u16::from_str`.
pub fn parse_u16(s: &str) -> (r: Option<u16>)
    ensures
        r == parse_u16_spec(s@),
{
    let cs = chars_of(s);
    let start: usize = if cs.len() > 0 && cs[0] == '+' {
        1
    } else {
        0
    };
    let ghost d = if s@.len() > 0 && s@[0] == '+' {
        s@.drop_first()
    } else {
        s@
    };
    if start >= cs.len() {
        proof {
            assert(d.len() == 0);
        }
        return None;
    }
    let mut value: u32 = 0;
    let mut i: usize = start;
    while i < cs.len()
        invariant
            cs@ == s@,
            start <= i <= cs@.len(),
            d == cs@.skip(start as int),
            d == (if s@.len() > 0 && s@[0] == '+' {
                s@.drop_first()
            } else {
                s@
            }),
            forall|k: int| 0 <= k < i - start ==> is_digit(#[trigger] d[k]),
            value == digits_value(d.take(i - start)),
            value <= 65535,
        decreases cs@.len() - i,
    {
        let c = cs[i];
        proof {
            assert(c == d[i - start]);
            assert(d.take(i - start + 1).drop_last() =~= d.take(i - start));
        }
        if !('0' <= c && c <= '9') {
            proof {
                assert(!is_digit(d[i - start]));
                assert(!(forall|k: int| 0 <= k < d.len() ==> is_digit(#[trigger] d[k])));
            }
            return None;
        }
        let next = value * 10 + ((c as u32) - ('0' as u32));
        if next > 65535 {
            proof {
                assert(digits_value(d.take(i - start + 1)) == value * 10 + digit_value(c));
                if forall|k: int| 0 <= k < d.len() ==> is_digit(#[trigger] d[k]) {
                    lemma_digits_prefix(d, i - start + 1);
                }
            }
            return None;
        }
        value = next;
        i = i + 1;
    }
    proof {
        assert(d.take(d.len() as int) =~= d);
    }
    Some(value as u16)
}

// ----------------------------------------------------------------------------
// The window
/// What cancelling restores, and what is pending.
#[derive(Debug)]
pub struct SettingsDialog {
    pub message: Option<String>,
    pub pending_toolchain: Option<usize>,
    pub original_toolchain: Option<usize>,
    pub pending_secondary: Option<usize>,
    pub original_secondary: Option<usize>,
    pub original_debug_host: String,
    pub original_debug_port: String,
}

/// Opening, as `open` does it: the window shows the given choices, the rest
/// stays, and the transaction keeps what there was to go back to.
pub open spec fn opened(
    before: SettingsSurface,
    after: SettingsSurface,
    toolchain_items: Vec<String>,
    selected_toolchain: usize,
) -> bool {
    &&& after.open
    &&& after.toolchain_items == toolchain_items
    &&& after.toolchain_selected == selected_toolchain
    &&& after.secondary_items == before.secondary_items
    &&& after.secondary_selected == before.secondary_selected
    &&& after.page == before.page
    &&& after.focus == before.focus
    &&& after.debug_host == before.debug_host
    &&& after.debug_port == before.debug_port
    &&& after.dialog matches Some(d) && {
        &&& d.message is None
        &&& d.pending_toolchain is None
        &&& d.original_toolchain == Some(selected_toolchain)
        &&& d.pending_secondary is None
        &&& d.original_secondary == selected_secondary_spec(before)
        &&& d.original_debug_host == before.debug_host
        &&& d.original_debug_port == before.debug_port
    }
}

/// Two transactions that would go back to the same place.
pub open spec fn same_originals(a: Option<SettingsDialog>, b: Option<SettingsDialog>) -> bool {
    a matches Some(d) && b matches Some(e) && {
        &&& e.original_toolchain == d.original_toolchain
        &&& e.original_secondary == d.original_secondary
        &&& e.original_debug_host == d.original_debug_host
        &&& e.original_debug_port == d.original_debug_port
    }
}

/// Cancelling gives back what there was when the window opened: the choice
/// it opened with, the second choice that was marked, and the target as it
/// was written, whatever was touched in between (the changes in between keep
/// the transaction's originals).
pub proof fn law_cancel_gives_back_what_there_was_at_opening(
    a: SettingsSurface,
    b: SettingsSurface,
    c: SettingsSurface,
    d: SettingsSurface,
    toolchain_items: Vec<String>,
    selected_toolchain: usize,
)
    requires
        opened(a, b, toolchain_items, selected_toolchain),
        same_originals(b.dialog, c.dialog),
        cancel_spec(c, d),
    ensures
        !d.open,
        d.dialog is None,
        d.toolchain_selected == selected_toolchain,
        a.secondary_items@.len() > 0 ==> d.secondary_selected == a.secondary_selected,
        d.debug_host == a.debug_host,
        d.debug_port == a.debug_port,
{
}

/// The settings window: whether it shows, the two lists of choices and what
/// each marks, the transaction under way, the page, the field with the
/// keyboard, and the debugging target as written.
#[derive(Debug)]
pub struct SettingsSurface {
    pub open: bool,
    pub toolchain_items: Vec<String>,
    pub toolchain_selected: usize,
    pub secondary_items: Vec<String>,
    pub secondary_selected: usize,
    pub dialog: Option<SettingsDialog>,
    pub page: SettingsPage,
    pub focus: Option<DebugField>,
    pub debug_host: String,
    pub debug_port: String,
}

/// The second choice marked, when there is a list to choose from.
pub open spec fn selected_secondary_spec(s: SettingsSurface) -> Option<usize> {
    if s.secondary_items@.len() > 0 {
        Some(s.secondary_selected)
    } else {
        None
    }
}

/// The target as written, when usable: the host without surrounding white
/// space and not empty, and a port above zero.
pub open spec fn debug_target_spec(host: Seq<char>, port: Seq<char>) -> Option<(Seq<char>, u16)> {
    match parse_u16_spec(trim(port)) {
        Some(p) => if trim(host).len() > 0 && p > 0 {
            Some((trim(host), p))
        } else {
            None
        },
        None => None,
    }
}

/// A pending choice that differs from what was there.
pub open spec fn changed(pending: Option<usize>, original: Option<usize>) -> Option<usize> {
    match pending {
        Some(i) => if original != Some(i) {
            Some(i)
        } else {
            None
        },
        None => None,
    }
}

/// `after` is `before` with only the window closed and the transaction over.
pub open spec fn closed_from(before: SettingsSurface, after: SettingsSurface) -> bool {
    &&& !after.open
    &&& after.dialog is None
    &&& after.toolchain_items == before.toolchain_items
    &&& after.toolchain_selected == before.toolchain_selected
    &&& after.secondary_items == before.secondary_items
    &&& after.secondary_selected == before.secondary_selected
    &&& after.page == before.page
    &&& after.debug_host == before.debug_host
    &&& after.debug_port == before.debug_port
}

/// Saving: the window closes, and, on a contributed page, only the choices
/// that changed are applied.
pub open spec fn save_spec(before: SettingsSurface, after: SettingsSurface, r: SettingsOutcome) -> bool {
    let (primary, secondary) = match before.dialog {
        Some(d) => (changed(d.pending_toolchain, d.original_toolchain), changed(d.pending_secondary, d.original_secondary)),
        None => (None, None),
    };
    &&& closed_from(before, after)
    &&& after.focus == before.focus
    &&& match before.page {
        SettingsPage::Contribution(section) => r matches SettingsOutcome::Save { section: s, primary: p, secondary: q }
            && s == section && p == primary && q == secondary,
        SettingsPage::Debug => r is Idle,
    }
}

/// Cancelling: everything touched goes back to what it was when the window
/// opened, and the window closes.
pub open spec fn cancel_spec(before: SettingsSurface, after: SettingsSurface) -> bool {
    &&& !after.open
    &&& after.dialog is None
    &&& after.toolchain_items == before.toolchain_items
    &&& after.secondary_items == before.secondary_items
    &&& after.page == before.page
    &&& after.focus == before.focus
    &&& match before.dialog {
        Some(d) => {
            &&& after.toolchain_selected == match d.original_toolchain {
                Some(o) => o,
                None => before.toolchain_selected,
            }
            &&& after.secondary_selected == match d.original_secondary {
                Some(o) => o,
                None => before.secondary_selected,
            }
            &&& after.debug_host == d.original_debug_host
            &&& after.debug_port == d.original_debug_port
        },
        None => {
            &&& after.toolchain_selected == before.toolchain_selected
            &&& after.secondary_selected == before.secondary_selected
            &&& after.debug_host == before.debug_host
            &&& after.debug_port == before.debug_port
        },
    }
}

/// Connecting: a usable target closes the window and is handed out;
/// otherwise the window says so and stays.
pub open spec fn attach_spec(before: SettingsSurface, after: SettingsSurface, r: SettingsOutcome) -> bool {
    match debug_target_spec(before.debug_host@, before.debug_port@) {
        Some((h, p)) => {
            &&& closed_from(before, after)
            &&& after.focus is None
            &&& r matches SettingsOutcome::Attach { host, port } && host@ == h && port == p
        },
        None => {
            &&& after.open == before.open
            &&& after.page == before.page
            &&& after.focus == before.focus
            &&& after.toolchain_selected == before.toolchain_selected
            &&& after.secondary_selected == before.secondary_selected
            &&& after.debug_host == before.debug_host
            &&& after.debug_port == before.debug_port
            &&& r is Idle
            &&& match before.dialog {
                Some(d) => after.dialog matches Some(e) && e.message matches Some(m)
                    && m@ == "Informe um host e uma porta de depuração válidos."@
                    && e.pending_toolchain == d.pending_toolchain && e.original_toolchain == d.original_toolchain
                    && e.pending_secondary == d.pending_secondary && e.original_secondary == d.original_secondary,
                None => after.dialog is None,
            }
        },
    }
}

impl SettingsSurface {
    /// A closed window on the debugging page, with the local target.
    pub fn new() -> (r: Self)
        ensures
            !r.open,
            r.dialog is None,
            r.page == SettingsPage::Debug,
            r.focus is None,
            r.toolchain_items@.len() == 0,
            r.secondary_items@.len() == 0,
            r.debug_host@ == "127.0.0.1"@,
            r.debug_port@ == "8000"@,
    {
        SettingsSurface {
            open: false,
            toolchain_items: Vec::new(),
            toolchain_selected: 0,
            secondary_items: Vec::new(),
            secondary_selected: 0,
            dialog: None,
            page: SettingsPage::Debug,
            focus: None,
            debug_host: string_of("127.0.0.1"),
            debug_port: string_of("8000"),
        }
    }

    /// Whether the window shows.
    pub fn is_open(&self) -> (r: bool)
        ensures
            r == self.open,
    {
        self.open
    }

    /// The second choice marked, for whoever applies it.
    pub fn selected_secondary(&self) -> (r: Option<usize>)
        ensures
            r == selected_secondary_spec(*self),
    {
        if self.secondary_items.len() > 0 {
            Some(self.secondary_selected)
        } else {
            None
        }
    }

    /// Opens the window and starts the transaction: what was pending from an
    /// earlier opening went with it.
    pub fn open(&mut self, toolchain_items: Vec<String>, selected_toolchain: usize)
        ensures
            opened(*old(self), *final(self), toolchain_items, selected_toolchain),
    {
        self.toolchain_items = toolchain_items;
        self.toolchain_selected = selected_toolchain;
        self.open = true;
        let segunda = self.selected_secondary();
        self.dialog = Some(
            SettingsDialog {
                message: None,
                pending_toolchain: None,
                original_toolchain: Some(selected_toolchain),
                pending_secondary: None,
                original_secondary: segunda,
                original_debug_host: self.debug_host.clone(),
                original_debug_port: self.debug_port.clone(),
            },
        );
    }

    /// New second choices, one of them marked and pending, inside the
    /// transaction under way.
    pub fn set_secondary_options(&mut self, items: Vec<String>, selected: Option<usize>)
        ensures
            final(self).secondary_items == items,
            final(self).secondary_selected == match selected {
                Some(i) => i,
                None => old(self).secondary_selected,
            },
            final(self).open == old(self).open,
            final(self).toolchain_items == old(self).toolchain_items,
            final(self).toolchain_selected == old(self).toolchain_selected,
            final(self).page == old(self).page,
            final(self).focus == old(self).focus,
            final(self).debug_host == old(self).debug_host,
            final(self).debug_port == old(self).debug_port,
            match old(self).dialog {
                Some(d) => final(self).dialog == Some(SettingsDialog { pending_secondary: selected, ..d }),
                None => final(self).dialog is None,
            },
    {
        self.secondary_items = items;
        if let Some(index) = selected {
            self.secondary_selected = index;
        }
        let taken = self.dialog.take();
        match taken {
            Some(mut d) => {
                d.pending_secondary = selected;
                self.dialog = Some(d);
            },
            None => {},
        }
    }

    /// New toolchains, one of them marked and pending, inside the
    /// transaction under way; the report is cleared.
    pub fn set_toolchain_options(&mut self, items: Vec<String>, pending: usize)
        ensures
            final(self).toolchain_items == items,
            final(self).toolchain_selected == pending,
            final(self).open == old(self).open,
            final(self).secondary_items == old(self).secondary_items,
            final(self).secondary_selected == old(self).secondary_selected,
            final(self).page == old(self).page,
            final(self).focus == old(self).focus,
            final(self).debug_host == old(self).debug_host,
            final(self).debug_port == old(self).debug_port,
            match old(self).dialog {
                Some(d) => final(self).dialog == Some(
                    SettingsDialog { pending_toolchain: Some(pending), message: None, ..d },
                ),
                None => final(self).dialog is None,
            },
    {
        self.toolchain_items = items;
        self.toolchain_selected = pending;
        let taken = self.dialog.take();
        match taken {
            Some(mut d) => {
                d.pending_toolchain = Some(pending);
                d.message = None;
                self.dialog = Some(d);
            },
            None => {},
        }
    }

    /// Reports in the window, while a transaction is under way.
    pub fn set_message(&mut self, message: String)
        ensures
            final(self).open == old(self).open,
            final(self).toolchain_items == old(self).toolchain_items,
            final(self).toolchain_selected == old(self).toolchain_selected,
            final(self).secondary_items == old(self).secondary_items,
            final(self).secondary_selected == old(self).secondary_selected,
            final(self).page == old(self).page,
            final(self).focus == old(self).focus,
            final(self).debug_host == old(self).debug_host,
            final(self).debug_port == old(self).debug_port,
            match old(self).dialog {
                Some(d) => final(self).dialog == Some(SettingsDialog { message: Some(message), ..d }),
                None => final(self).dialog is None,
            },
    {
        let taken = self.dialog.take();
        match taken {
            Some(mut d) => {
                d.message = Some(message);
                self.dialog = Some(d);
            },
            None => {},
        }
    }

    /// Shows another page; no field keeps the keyboard.
    pub fn set_page(&mut self, page: SettingsPage)
        ensures
            final(self).page == page,
            final(self).focus is None,
            final(self).open == old(self).open,
            final(self).dialog == old(self).dialog,
            final(self).toolchain_items == old(self).toolchain_items,
            final(self).toolchain_selected == old(self).toolchain_selected,
            final(self).secondary_items == old(self).secondary_items,
            final(self).secondary_selected == old(self).secondary_selected,
            final(self).debug_host == old(self).debug_host,
            final(self).debug_port == old(self).debug_port,
    {
        self.page = page;
        self.focus = None;
    }

    /// The page shown.
    pub fn page(&self) -> (r: SettingsPage)
        ensures
            r == self.page,
    {
        self.page
    }

    /// A click on the list of pages chose row `index`: the contributed
    /// sections come first, the debugging page after them.
    pub fn choose_page(&mut self, index: usize, section_count: usize)
        ensures
            final(self).page == if index < section_count {
                SettingsPage::Contribution(index)
            } else {
                SettingsPage::Debug
            },
            final(self).focus is None,
            final(self).open == old(self).open,
            final(self).dialog == old(self).dialog,
            final(self).toolchain_selected == old(self).toolchain_selected,
            final(self).secondary_selected == old(self).secondary_selected,
            final(self).debug_host == old(self).debug_host,
            final(self).debug_port == old(self).debug_port,
    {
        if index < section_count {
            self.set_page(SettingsPage::Contribution(index));
        } else {
            self.set_page(SettingsPage::Debug);
        }
    }

    /// Shows the debugging target in the fields.
    pub fn set_debug_target(&mut self, host: &str, port: u16)
        ensures
            final(self).debug_host@ == host@,
            final(self).debug_port@ == decimal(port as nat),
            final(self).open == old(self).open,
            final(self).dialog == old(self).dialog,
            final(self).page == old(self).page,
            final(self).focus == old(self).focus,
            final(self).toolchain_selected == old(self).toolchain_selected,
            final(self).secondary_selected == old(self).secondary_selected,
    {
        self.debug_host = string_of(host);
        let mut p = String::new();
        push_decimal(&mut p, port as usize);
        proof {
            assert(p@ =~= decimal(port as nat));
        }
        self.debug_port = p;
    }

    /// The target, when host and port are usable.
    pub fn debug_target(&self) -> (r: Option<(String, u16)>)
        ensures
            match debug_target_spec(self.debug_host@, self.debug_port@) {
                Some((h, p)) => r matches Some((x, q)) && x@ == h && q == p,
                None => r is None,
            },
    {
        let host = trimmed(self.debug_host.as_str());
        let port_text = trimmed(self.debug_port.as_str());
        let port = match parse_u16(port_text.as_str()) {
            Some(p) => p,
            None => return None,
        };
        if !host.as_str().is_empty() && port > 0 {
            Some((host, port))
        } else {
            None
        }
    }

    /// Throws away what was touched and closes.
    pub fn cancel(&mut self)
        ensures
            cancel_spec(*old(self), *final(self)),
    {
        let taken = self.dialog.take();
        match taken {
            Some(d) => {
                if let Some(original) = d.original_toolchain {
                    self.toolchain_selected = original;
                }
                if let Some(original) = d.original_secondary {
                    self.secondary_selected = original;
                }
                self.debug_host = d.original_debug_host;
                self.debug_port = d.original_debug_port;
            },
            None => {},
        }
        self.open = false;
    }

    /// Checks host and port before asking for the connection.
    pub fn attach(&mut self) -> (r: SettingsOutcome)
        ensures
            attach_spec(*old(self), *final(self), r),
    {
        match self.debug_target() {
            Some((host, port)) => {
                self.open = false;
                self.dialog = None;
                self.focus = None;
                SettingsOutcome::Attach { host, port }
            },
            None => {
                self.set_message(string_of("Informe um host e uma porta de depuração válidos."));
                SettingsOutcome::Idle
            },
        }
    }

    /// Closes, applying only what changed.
    pub fn save(&mut self) -> (r: SettingsOutcome)
        ensures
            save_spec(*old(self), *final(self), r),
    {
        let (toolchain, secondary) = match &self.dialog {
            Some(d) => (changed_exec(d.pending_toolchain, d.original_toolchain), changed_exec(d.pending_secondary, d.original_secondary)),
            None => (None, None),
        };
        self.open = false;
        self.dialog = None;
        match contribution_section(self.page) {
            Some(section) => SettingsOutcome::Save { section, primary: toolchain, secondary },
            None => SettingsOutcome::Idle,
        }
    }

    /// Asks for an installation, saying for which section and role.
    pub fn browse(&self, role: ToolRole) -> (r: SettingsOutcome)
        ensures
            match self.page {
                SettingsPage::Contribution(section) => r matches SettingsOutcome::Browse { section: s, role: q } && s
                    == section && q == role,
                SettingsPage::Debug => r is Idle,
            },
    {
        match contribution_section(self.page) {
            Some(section) => SettingsOutcome::Browse { section, role },
            None => SettingsOutcome::Idle,
        }
    }

    /// One of the two lists chose `index`: the choice waits for Save.
    pub fn item_selected(&mut self, role: ToolRole, index: usize)
        ensures
            final(self).open == old(self).open,
            final(self).page == old(self).page,
            final(self).focus == old(self).focus,
            final(self).toolchain_selected == old(self).toolchain_selected,
            final(self).secondary_selected == old(self).secondary_selected,
            final(self).debug_host == old(self).debug_host,
            final(self).debug_port == old(self).debug_port,
            match old(self).dialog {
                Some(d) => final(self).dialog == Some(
                    match role {
                        ToolRole::Primary => SettingsDialog { pending_toolchain: Some(index), ..d },
                        ToolRole::Secondary => SettingsDialog { pending_secondary: Some(index), ..d },
                    },
                ),
                None => final(self).dialog is None,
            },
    {
        let taken = self.dialog.take();
        match taken {
            Some(mut d) => {
                match role {
                    ToolRole::Primary => {
                        d.pending_toolchain = Some(index);
                    },
                    ToolRole::Secondary => {
                        d.pending_secondary = Some(index);
                    },
                }
                self.dialog = Some(d);
            },
            None => {},
        }
    }

    /// A command of one of the window's buttons. The `bool` says whether it
    /// was one of the window's.
    pub fn command(&mut self, command: &str) -> (r: (SettingsOutcome, bool))
        ensures
            if command@ == "toolchain.browse"@ {
                *final(self) == *old(self) && r.1 && (match old(self).page {
                    SettingsPage::Contribution(section) => r.0 matches SettingsOutcome::Browse { section: s, role: q }
                        && s == section && q == ToolRole::Primary,
                    SettingsPage::Debug => r.0 is Idle,
                })
            } else if command@ == "tool.browse"@ {
                *final(self) == *old(self) && r.1 && (match old(self).page {
                    SettingsPage::Contribution(section) => r.0 matches SettingsOutcome::Browse { section: s, role: q }
                        && s == section && q == ToolRole::Secondary,
                    SettingsPage::Debug => r.0 is Idle,
                })
            } else if command@ == "settings.save"@ {
                r.1 && save_spec(*old(self), *final(self), r.0)
            } else if command@ == "settings.cancel"@ {
                r.1 && r.0 is Idle && cancel_spec(*old(self), *final(self))
            } else {
                !r.1 && r.0 is Idle && *final(self) == *old(self)
            },
    {
        if str_eq(command, "toolchain.browse") {
            (self.browse(ToolRole::Primary), true)
        } else if str_eq(command, "tool.browse") {
            (self.browse(ToolRole::Secondary), true)
        } else if str_eq(command, "settings.save") {
            (self.save(), true)
        } else if str_eq(command, "settings.cancel") {
            self.cancel();
            (SettingsOutcome::Idle, true)
        } else {
            (SettingsOutcome::Idle, false)
        }
    }

    /// A click on a field of the debugging page gives it the keyboard.
    pub fn focus_field(&mut self, field: Option<DebugField>)
        ensures
            final(self).focus == field,
            final(self).open == old(self).open,
            final(self).dialog == old(self).dialog,
            final(self).page == old(self).page,
            final(self).toolchain_selected == old(self).toolchain_selected,
            final(self).secondary_selected == old(self).secondary_selected,
            final(self).debug_host == old(self).debug_host,
            final(self).debug_port == old(self).debug_port,
    {
        self.focus = field;
    }

    /// Typing while a field of the debugging page has the keyboard: the text
    /// goes to its end. Says whether it went anywhere.
    pub fn text_input(&mut self, text: &str) -> (r: bool)
        ensures
            r == old(self).focus is Some,
            final(self).open == old(self).open,
            final(self).dialog == old(self).dialog,
            final(self).page == old(self).page,
            final(self).focus == old(self).focus,
            final(self).debug_host@ == if old(self).focus == Some(DebugField::Host) {
                old(self).debug_host@ + text@
            } else {
                old(self).debug_host@
            },
            final(self).debug_port@ == if old(self).focus == Some(DebugField::Port) {
                old(self).debug_port@ + text@
            } else {
                old(self).debug_port@
            },
    {
        match self.focus {
            Some(DebugField::Host) => {
                push_str(&mut self.debug_host, text);
                true
            },
            Some(DebugField::Port) => {
                push_str(&mut self.debug_port, text);
                true
            },
            None => false,
        }
    }

    /// A key while a field of the debugging page has the keyboard: Backspace
    /// takes the last character, Enter connects. `None` when the key is not
    /// the field's, and goes on to the lists and the frame.
    pub fn field_key(&mut self, key: &str) -> (r: Option<SettingsOutcome>)
        ensures
            if old(self).focus is Some && key@ == "Backspace"@ {
                &&& r matches Some(SettingsOutcome::Idle)
                &&& final(self).open == old(self).open
                &&& final(self).dialog == old(self).dialog
                &&& final(self).page == old(self).page
                &&& final(self).focus == old(self).focus
                &&& final(self).debug_host@ == if old(self).focus == Some(DebugField::Host) {
                    crate::git::drop_last_char(old(self).debug_host@)
                } else {
                    old(self).debug_host@
                }
                &&& final(self).debug_port@ == if old(self).focus == Some(DebugField::Port) {
                    crate::git::drop_last_char(old(self).debug_port@)
                } else {
                    old(self).debug_port@
                }
            } else if old(self).focus is Some && key@ == "Enter"@ {
                r matches Some(o) && attach_spec(*old(self), *final(self), o)
            } else {
                r is None && *final(self) == *old(self)
            },
    {
        if self.focus.is_none() {
            return None;
        }
        if str_eq(key, "Backspace") {
            match self.focus {
                Some(DebugField::Host) => pop_char(&mut self.debug_host),
                _ => pop_char(&mut self.debug_port),
            }
            return Some(SettingsOutcome::Idle);
        }
        if str_eq(key, "Enter") {
            return Some(self.attach());
        }
        None
    }
}

fn changed_exec(pending: Option<usize>, original: Option<usize>) -> (r: Option<usize>)
    ensures
        r == changed(pending, original),
{
    match pending {
        Some(i) => {
            let same = match original {
                Some(o) => o == i,
                None => false,
            };
            if same {
                None
            } else {
                Some(i)
            }
        },
        None => None,
    }
}

} // verus!
