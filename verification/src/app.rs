//! The TUI's state machine. Unlocking happens once, before the interactive
//! session starts; browsing, filtering, revealing and the add wizard are
//! decisions on this state. Where a change of state surrounds a save to
//! disk or a clipboard write, it is split in two: a method that decides and
//! says what to write, and a method that takes the outcome of the write.
use crate::entry_map::{sorted_labels, string_views};
use crate::text::{chars_of, lowercase_of, occurs, occurs_in, to_lowercase, trim, trimmed};
use crate::vault::{Entry, EntryView, VaultData};
use vstd::prelude::*;

verus! {

/// What the keyboard currently drives.
#[derive(Clone, Copy, Debug, PartialEq, Eq, Structural)]
pub enum Mode {
    Normal,
    Filter,
    AddLabel,
    AddSecret,
    AddNote,
    ConfirmRemove,
}

/// The session state.
pub struct App {
    pub data: VaultData,
    /// All labels, sorted (as the entries keep them).
    pub labels: Vec<String>,
    /// Indices into `labels` that match `filter_text`.
    pub filtered: Vec<usize>,
    /// The selected row of `filtered`, if any.
    pub selected: Option<usize>,
    pub mode: Mode,
    pub filter_text: String,
    pub input_buffer: String,
    /// Label and secret collected so far while stepping through the
    /// AddLabel -> AddSecret -> AddNote wizard.
    pub pending_label: Option<String>,
    pub pending_secret: Option<String>,
    /// Label currently shown in plaintext in the detail panel, if any.
    pub revealed: Option<String>,
    pub status: Option<String>,
    pub should_quit: bool,
}

/// The session state as values.
pub struct AppView {
    pub data: Map<Seq<char>, EntryView>,
    pub labels: Seq<Seq<char>>,
    pub filtered: Seq<usize>,
    pub selected: Option<usize>,
    pub mode: Mode,
    pub filter_text: Seq<char>,
    pub input: Seq<char>,
    pub pending_label: Option<Seq<char>>,
    pub pending_secret: Option<Seq<char>>,
    pub revealed: Option<Seq<char>>,
    pub status: Option<Seq<char>>,
    pub should_quit: bool,
}

pub open spec fn opt_view(o: Option<String>) -> Option<Seq<char>> {
    match o {
        Some(s) => Some(s@),
        None => None,
    }
}

impl View for App {
    type V = AppView;

    open spec fn view(&self) -> AppView {
        AppView {
            data: self.data@,
            labels: string_views(self.labels@),
            filtered: self.filtered@,
            selected: self.selected,
            mode: self.mode,
            filter_text: self.filter_text@,
            input: self.input_buffer@,
            pending_label: opt_view(self.pending_label),
            pending_secret: opt_view(self.pending_secret),
            revealed: opt_view(self.revealed),
            status: opt_view(self.status),
            should_quit: self.should_quit,
        }
    }
}

/// A label passes the filter when the lowercased filter is empty or occurs
/// in the lowercased label.
pub open spec fn matches_filter(label: Seq<char>, filter: Seq<char>) -> bool {
    lowercase_of(filter).len() == 0 || occurs_in(lowercase_of(filter), lowercase_of(label))
}

/// The indices below `n` of the labels that pass the filter, in order.
pub open spec fn matching_indices(labels: Seq<Seq<char>>, filter: Seq<char>, n: int) -> Seq<usize>
    decreases n,
{
    if n <= 0 {
        Seq::empty()
    } else {
        let prior = matching_indices(labels, filter, n - 1);
        if matches_filter(labels[n - 1], filter) {
            prior.push((n - 1) as usize)
        } else {
            prior
        }
    }
}

/// The selection kept after filtering to `len` rows: none when nothing is
/// left, else the old row (the first if there was none) held within range.
pub open spec fn clamp_selection(selected: Option<usize>, len: int) -> Option<usize> {
    if len <= 0 {
        None
    } else {
        let current: usize = match selected {
            Some(i) => i,
            None => 0,
        };
        if current < len - 1 {
            Some(current)
        } else {
            Some((len - 1) as usize)
        }
    }
}

pub open spec fn apply_filter_step(s: AppView) -> AppView {
    let filtered = matching_indices(s.labels, s.filter_text, s.labels.len() as int);
    AppView { filtered, selected: clamp_selection(s.selected, filtered.len() as int), ..s }
}

/// A fresh session over `data`, before its first filtering.
pub open spec fn unfiltered_view(data: Map<Seq<char>, EntryView>) -> AppView {
    AppView {
        data,
        labels: sorted_labels(data),
        filtered: Seq::empty(),
        selected: None,
        mode: Mode::Normal,
        filter_text: Seq::empty(),
        input: Seq::empty(),
        pending_label: None,
        pending_secret: None,
        revealed: None,
        status: None,
        should_quit: false,
    }
}


/// The label of the selected row, if the selection points at one.
pub open spec fn selected_label_spec(s: AppView) -> Option<Seq<char>> {
    match s.selected {
        Some(i) => if i < s.filtered.len() && s.filtered[i as int] < s.labels.len() {
            Some(s.labels[s.filtered[i as int] as int])
        } else {
            None
        },
        None => None,
    }
}

/// The selected label with its entry, if the selection points at a stored
/// entry.
pub open spec fn selected_entry_spec(s: AppView) -> Option<(Seq<char>, EntryView)> {
    match selected_label_spec(s) {
        Some(l) => if s.data.contains_key(l) {
            Some((l, s.data[l]))
        } else {
            None
        },
        None => None,
    }
}

/// The row after `selected` among `len` rows, wrapping to the first.
pub open spec fn next_row(selected: Option<usize>, len: int) -> usize {
    match selected {
        Some(i) => if i + 1 < len { (i + 1) as usize } else { 0 },
        None => 0,
    }
}

/// The row before `selected` among `len` rows, wrapping to the last.
pub open spec fn previous_row(selected: Option<usize>, len: int) -> usize {
    match selected {
        Some(i) => if i == 0 { (len - 1) as usize } else { (i - 1) as usize },
        None => (len - 1) as usize,
    }
}

pub open spec fn next_step(s: AppView) -> AppView {
    if s.filtered.len() == 0 {
        s
    } else {
        AppView { selected: Some(next_row(s.selected, s.filtered.len() as int)), revealed: None, ..s }
    }
}

pub open spec fn previous_step(s: AppView) -> AppView {
    if s.filtered.len() == 0 {
        s
    } else {
        AppView { selected: Some(previous_row(s.selected, s.filtered.len() as int)), revealed: None, ..s }
    }
}

pub open spec fn toggle_reveal_step(s: AppView) -> AppView {
    match selected_label_spec(s) {
        Some(l) => AppView { revealed: if s.revealed == Some(l) { None } else { Some(l) }, ..s },
        None => s,
    }
}

pub open spec fn outcome_view(outcome: Result<(), String>) -> Result<(), Seq<char>> {
    match outcome {
        Ok(()) => Ok(()),
        Err(e) => Err(e@),
    }
}

pub open spec fn added_message(label: Seq<char>, is_new: bool) -> Seq<char> {
    (if is_new { "added \""@ } else { "updated \""@ }) + label + "\""@
}

pub open spec fn removed_message(label: Seq<char>) -> Seq<char> {
    "removed \""@ + label + "\""@
}

pub open spec fn copied_message(label: Seq<char>) -> Seq<char> {
    "copied \""@ + label + "\" to clipboard"@
}

pub open spec fn save_failed_message(error: Seq<char>) -> Seq<char> {
    "failed to save: "@ + error
}

pub open spec fn clipboard_failed_message(error: Seq<char>) -> Seq<char> {
    "clipboard error: "@ + error
}

pub open spec fn nothing_selected_message() -> Seq<char> {
    "nothing selected"@
}

pub open spec fn empty_secret_message() -> Seq<char> {
    "add cancelled: secret can't be empty"@
}

pub open spec fn begin_add_step(s: AppView) -> AppView {
    AppView { pending_label: None, pending_secret: None, input: Seq::empty(), mode: Mode::AddLabel, ..s }
}

pub open spec fn cancel_add_step(s: AppView) -> AppView {
    AppView { pending_label: None, pending_secret: None, input: Seq::empty(), mode: Mode::Normal, ..s }
}

/// An empty label (after trimming) cancels back to `Normal`; otherwise it
/// is kept and the wizard asks for the secret.
pub open spec fn confirm_label_step(s: AppView) -> AppView {
    let label = trimmed(s.input);
    if label.len() == 0 {
        AppView { mode: Mode::Normal, ..s }
    } else {
        AppView { pending_label: Some(label), input: Seq::empty(), mode: Mode::AddSecret, ..s }
    }
}

/// An empty secret cancels the whole add; otherwise it is kept and the
/// wizard asks for the note.
pub open spec fn confirm_secret_step(s: AppView) -> AppView {
    if s.input.len() == 0 {
        AppView { status: Some(empty_secret_message()), ..cancel_add_step(s) }
    } else {
        AppView { pending_secret: Some(s.input), input: Seq::empty(), mode: Mode::AddNote, ..s }
    }
}

/// The note typed: trimmed, and none when that leaves nothing.
pub open spec fn note_of(input: Seq<char>) -> Option<Seq<char>> {
    if trimmed(input).len() == 0 {
        None
    } else {
        Some(trimmed(input))
    }
}

/// The label the last wizard step stores, and whether it is new to the
/// vault: what has to be saved.
pub open spec fn add_request(s: AppView) -> Option<(Seq<char>, bool)> {
    match (s.pending_label, s.pending_secret) {
        (Some(l), Some(_)) => Some((l, !s.data.contains_key(l))),
        _ => None,
    }
}

pub open spec fn confirm_note_step(s: AppView, created: Seq<char>) -> AppView {
    match (s.pending_label, s.pending_secret) {
        (Some(l), Some(secret)) => AppView {
            data: s.data.insert(l, EntryView { secret, created, note: note_of(s.input) }),
            pending_label: None,
            pending_secret: None,
            input: Seq::empty(),
            mode: Mode::Normal,
            ..s
        },
        _ => AppView { pending_label: None, pending_secret: None, mode: Mode::Normal, ..s },
    }
}

/// The first row at or after `k` that shows `label`.
pub open spec fn position_from(filtered: Seq<usize>, labels: Seq<Seq<char>>, label: Seq<char>, k: int) -> Option<usize>
    decreases filtered.len() - k,
{
    if k < 0 || k >= filtered.len() {
        None
    } else if labels[filtered[k] as int] == label {
        Some(k as usize)
    } else {
        position_from(filtered, labels, label, k + 1)
    }
}

/// After the save of an added entry the labels are refreshed from the
/// entries (which hold the new entry either way) and the filter reapplied;
/// on success the entry's row is selected if it is shown, on failure the
/// status says so.
pub open spec fn finish_add_step(s: AppView, label: Seq<char>, is_new: bool, outcome: Result<(), Seq<char>>) -> AppView {
    match outcome {
        Ok(()) => {
            let refreshed = apply_filter_step(
                AppView { status: Some(added_message(label, is_new)), labels: sorted_labels(s.data), ..s },
            );
            match position_from(refreshed.filtered, refreshed.labels, label, 0) {
                Some(row) => AppView { selected: Some(row), ..refreshed },
                None => refreshed,
            }
        },
        Err(e) => apply_filter_step(
            AppView { status: Some(save_failed_message(e)), labels: sorted_labels(s.data), ..s },
        ),
    }
}

pub open spec fn remove_step(s: AppView) -> AppView {
    match selected_label_spec(s) {
        Some(l) => AppView { data: s.data.remove(l), mode: Mode::Normal, ..s },
        None => AppView { mode: Mode::Normal, ..s },
    }
}

/// After the save of a removal the labels are refreshed from the entries
/// (which no longer hold the entry either way) and the filter reapplied;
/// on success the secret is hidden, on failure the status says so.
pub open spec fn finish_remove_step(s: AppView, label: Seq<char>, outcome: Result<(), Seq<char>>) -> AppView {
    match outcome {
        Ok(()) => apply_filter_step(
            AppView {
                status: Some(removed_message(label)),
                labels: sorted_labels(s.data),
                revealed: None,
                mode: Mode::Normal,
                ..s
            },
        ),
        Err(e) => apply_filter_step(
            AppView {
                status: Some(save_failed_message(e)),
                labels: sorted_labels(s.data),
                mode: Mode::Normal,
                ..s
            },
        ),
    }
}

/// What the copy command hands to the clipboard: the selected label and
/// its secret.
pub open spec fn copy_request(s: AppView) -> Option<(Seq<char>, Seq<char>)> {
    match selected_entry_spec(s) {
        Some((l, e)) => Some((l, e.secret)),
        None => None,
    }
}

pub open spec fn copy_selected_step(s: AppView) -> AppView {
    match selected_entry_spec(s) {
        Some(_) => s,
        None => AppView { status: Some(nothing_selected_message()), ..s },
    }
}

pub open spec fn finish_copy_step(s: AppView, label: Seq<char>, outcome: Result<(), Seq<char>>) -> AppView {
    match outcome {
        Ok(()) => AppView { status: Some(copied_message(label)), ..s },
        Err(e) => AppView { status: Some(clipboard_failed_message(e)), ..s },
    }
}

/// Concatenates two pieces of text.
fn concat2(a: &str, b: &str) -> (joined: String)
    ensures
        joined@ == a@ + b@,
{
    let mut joined = String::from_str(a);
    joined.append(b);
    joined
}

/// Concatenates three pieces of text.
fn concat3(a: &str, b: &str, c: &str) -> (joined: String)
    ensures
        joined@ == a@ + b@ + c@,
{
    let mut joined = String::from_str(a);
    joined.append(b);
    joined.append(c);
    joined
}

/// Whether `label` passes the filter whose lowercased characters are
/// `needle`.
fn label_passes(label: &str, needle: &Vec<char>, filter: Ghost<Seq<char>>) -> (passes: bool)
    requires
        needle@ == lowercase_of(filter@),
    ensures
        passes == matches_filter(label@, filter@),
{
    if needle.len() == 0 {
        true
    } else {
        let lowered = to_lowercase(label);
        let hay = chars_of(lowered.as_str());
        occurs(needle, &hay)
    }
}

impl App {
    /// A session over `data`: every label listed, the first one selected.
    pub fn new(data: VaultData) -> (app: App)
        ensures
            app@ == apply_filter_step(unfiltered_view(data@)),
            app@.labels == sorted_labels(data@),
            app@.filtered == Seq::new(app@.labels.len(), |i: int| i as usize),
            app@.selected == (if app@.labels.len() > 0 { Some(0usize) } else { None }),
            crate::app_laws::state_invariant(app@),
    {
        let labels = data.entries.keys();
        proof {
            crate::app_laws::law_new_session_meets_the_invariant(data@);
        }
        let mut app = App {
            data,
            labels,
            filtered: Vec::new(),
            selected: None,
            mode: Mode::Normal,
            filter_text: String::new(),
            input_buffer: String::new(),
            pending_label: None,
            pending_secret: None,
            revealed: None,
            status: None,
            should_quit: false,
        };
        assert(app@ =~= unfiltered_view(data@));
        app.apply_filter();
        app
    }

    /// The label of the selected row.
    fn selected_label(&self) -> (label: Option<&str>)
        ensures
            match label {
                Some(l) => selected_label_spec(self@) == Some(l@),
                None => selected_label_spec(self@) is None,
            },
    {
        match self.selected {
            Some(i) => {
                if i < self.filtered.len() {
                    let index = self.filtered[i];
                    if index < self.labels.len() {
                        Some(self.labels[index].as_str())
                    } else {
                        None
                    }
                } else {
                    None
                }
            },
            None => None,
        }
    }

    /// The selected label and its entry.
    pub fn selected_entry(&self) -> (selection: Option<(&str, &Entry)>)
        ensures
            match selection {
                Some((l, e)) => selected_entry_spec(self@) == Some((l@, e@)),
                None => selected_entry_spec(self@) is None,
            },
    {
        match self.selected_label() {
            Some(label) => match self.data.entries.get(label) {
                Some(entry) => Some((label, entry)),
                None => None,
            },
            None => None,
        }
    }

    /// Moves the selection one row down, wrapping to the top, and hides
    /// the revealed secret.
    pub fn next(&mut self)
        ensures
            final(self)@ == next_step(old(self)@),
    {
        let len = self.filtered.len();
        if len == 0 {
            return;
        }
        let row = match self.selected {
            Some(i) => if i < len - 1 { i + 1 } else { 0 },
            None => 0,
        };
        self.selected = Some(row);
        self.revealed = None;
    }

    /// Moves the selection one row up, wrapping to the bottom, and hides
    /// the revealed secret.
    pub fn previous(&mut self)
        ensures
            final(self)@ == previous_step(old(self)@),
    {
        let len = self.filtered.len();
        if len == 0 {
            return;
        }
        let row = match self.selected {
            Some(i) => if i == 0 { len - 1 } else { i - 1 },
            None => len - 1,
        };
        self.selected = Some(row);
        self.revealed = None;
    }

    /// Shows the selected secret, or hides it if it is the one shown.
    pub fn toggle_reveal(&mut self)
        ensures
            final(self)@ == toggle_reveal_step(old(self)@),
    {
        let label: String = match self.selected_label() {
            Some(l) => l.to_owned(),
            None => return,
        };
        let shown = match &self.revealed {
            Some(r) => *r == label,
            None => false,
        };
        if shown {
            self.revealed = None;
        } else {
            self.revealed = Some(label);
        }
    }

    /// Starts the add wizard with an empty input.
    pub fn begin_add(&mut self)
        ensures
            final(self)@ == begin_add_step(old(self)@),
    {
        self.pending_label = None;
        self.pending_secret = None;
        self.input_buffer = String::new();
        self.mode = Mode::AddLabel;
    }

    /// Enter in `AddLabel`: stash the trimmed label and move to
    /// `AddSecret`. An empty label cancels back to `Normal`.
    pub fn confirm_label(&mut self)
        ensures
            final(self)@ == confirm_label_step(old(self)@),
    {
        let label = trim(self.input_buffer.as_str());
        if label.as_str().is_empty() {
            self.mode = Mode::Normal;
            return;
        }
        self.pending_label = Some(label);
        self.input_buffer = String::new();
        self.mode = Mode::AddSecret;
    }

    /// Enter in `AddSecret`. An empty secret cancels the whole add (a label
    /// with no secret is of no use).
    pub fn confirm_secret(&mut self)
        ensures
            final(self)@ == confirm_secret_step(old(self)@),
    {
        if self.input_buffer.as_str().is_empty() {
            self.cancel_add();
            self.status = Some(String::from_str("add cancelled: secret can't be empty"));
            return;
        }
        self.pending_secret = Some(self.input_buffer.clone());
        self.input_buffer = String::new();
        self.mode = Mode::AddNote;
    }

    /// Enter in `AddNote`, the last step: stores the entry, created on
    /// `created`, under the pending label (an empty note is stored as
    /// none) and returns the label, and whether it is new, for the save
    /// that follows. Without a pending label and secret it only returns to
    /// `Normal`.
    pub fn confirm_note_and_save(&mut self, created: String) -> (request: Option<(String, bool)>)
        ensures
            final(self)@ == confirm_note_step(old(self)@, created@),
            match request {
                Some((l, is_new)) => add_request(old(self)@) == Some((l@, is_new)),
                None => add_request(old(self)@) is None,
            },
    {
        let pending_label = self.pending_label.take();
        let pending_secret = self.pending_secret.take();
        match (pending_label, pending_secret) {
            (Some(label), Some(secret)) => {
                let trimmed_note = trim(self.input_buffer.as_str());
                let note = if trimmed_note.as_str().is_empty() {
                    None
                } else {
                    Some(trimmed_note)
                };
                self.input_buffer = String::new();
                self.mode = Mode::Normal;
                let is_new = !self.data.entries.contains_key(label.as_str());
                let stored = label.clone();
                self.data.entries.insert(stored, Entry { secret, created, note });
                Some((label, is_new))
            },
            _ => {
                self.mode = Mode::Normal;
                None
            },
        }
    }

    /// Takes the outcome of saving an added entry.
    pub fn finish_add(&mut self, label: String, is_new: bool, outcome: Result<(), String>)
        ensures
            final(self)@ == finish_add_step(old(self)@, label@, is_new, outcome_view(outcome)),
    {
        match outcome {
            Ok(()) => {
                let prefix = if is_new { "added \"" } else { "updated \"" };
                self.status = Some(concat3(prefix, label.as_str(), "\""));
                self.labels = self.data.entries.keys();
                let ghost before_filter = self@;
                assert(before_filter == AppView {
                    status: Some(added_message(label@, is_new)),
                    labels: sorted_labels(old(self)@.data),
                    ..old(self)@
                });
                self.apply_filter();
                let label_count = self.labels.len();
                proof {
                    lemma_matching_bounds(string_views(self.labels@), self.filter_text@, label_count as int);
                }
                let ghost refreshed = self@;
                let n = self.filtered.len();
                let mut row: Option<usize> = None;
                let mut k: usize = 0;
                while k < n && row.is_none()
                    invariant
                        self@ == refreshed,
                        n == refreshed.filtered.len(),
                        k <= n,
                        forall|j: int| 0 <= j < n ==> #[trigger] refreshed.filtered[j] < refreshed.labels.len(),
                        row is None ==> position_from(refreshed.filtered, refreshed.labels, label@, 0)
                            == position_from(refreshed.filtered, refreshed.labels, label@, k as int),
                        row is Some ==> position_from(refreshed.filtered, refreshed.labels, label@, 0) == row,
                    decreases n - k + (if row is None { 1int } else { 0int }),
                {
                    let index = self.filtered[k];
                    if self.labels[index] == label {
                        assert(refreshed.labels[refreshed.filtered[k as int] as int] == label@);
                        row = Some(k);
                    } else {
                        k = k + 1;
                    }
                }
                if let Some(r) = row {
                    self.selected = Some(r);
                }
            },
            Err(e) => {
                self.status = Some(concat2("failed to save: ", e.as_str()));
                self.labels = self.data.entries.keys();
                self.apply_filter();
            },
        }
    }

    /// Leaves the add wizard without storing anything.
    pub fn cancel_add(&mut self)
        ensures
            final(self)@ == cancel_add_step(old(self)@),
    {
        self.pending_label = None;
        self.pending_secret = None;
        self.input_buffer = String::new();
        self.mode = Mode::Normal;
    }

    /// Removes the selected entry and returns its label for the save that
    /// follows; with nothing selected it only returns to `Normal`.
    pub fn remove_selected(&mut self) -> (request: Option<String>)
        ensures
            final(self)@ == remove_step(old(self)@),
            opt_view(request) == selected_label_spec(old(self)@),
    {
        let label: String = match self.selected_label() {
            Some(l) => l.to_owned(),
            None => {
                self.mode = Mode::Normal;
                return None;
            },
        };
        self.data.entries.remove(label.as_str());
        self.mode = Mode::Normal;
        Some(label)
    }

    /// Takes the outcome of saving a removal.
    pub fn finish_remove(&mut self, label: String, outcome: Result<(), String>)
        ensures
            final(self)@ == finish_remove_step(old(self)@, label@, outcome_view(outcome)),
    {
        match outcome {
            Ok(()) => {
                self.status = Some(concat3("removed \"", label.as_str(), "\""));
                self.labels = self.data.entries.keys();
                self.revealed = None;
                self.mode = Mode::Normal;
                self.apply_filter();
            },
            Err(e) => {
                self.status = Some(concat2("failed to save: ", e.as_str()));
                self.labels = self.data.entries.keys();
                self.mode = Mode::Normal;
                self.apply_filter();
            },
        }
    }

    /// Returns the selected label and its secret for the clipboard; with
    /// nothing selected, says so in the status.
    pub fn copy_selected(&mut self) -> (request: Option<(String, String)>)
        ensures
            final(self)@ == copy_selected_step(old(self)@),
            match request {
                Some((l, secret)) => copy_request(old(self)@) == Some((l@, secret@)),
                None => copy_request(old(self)@) is None,
            },
    {
        let request = match self.selected_entry() {
            Some((label, entry)) => Some((label.to_owned(), entry.secret.clone())),
            None => None,
        };
        if request.is_none() {
            self.status = Some(String::from_str("nothing selected"));
        }
        request
    }

    /// Takes the outcome of writing `label`'s secret to the clipboard.
    pub fn finish_copy(&mut self, label: &str, outcome: Result<(), String>)
        ensures
            final(self)@ == finish_copy_step(old(self)@, label@, outcome_view(outcome)),
    {
        match outcome {
            Ok(()) => {
                self.status = Some(concat3("copied \"", label, "\" to clipboard"));
            },
            Err(e) => {
                self.status = Some(concat2("clipboard error: ", e.as_str()));
            },
        }
    }

    /// Recomputes which labels pass `filter_text` (case-insensitively) and
    /// keeps the selection within the rows that are left.
    pub fn apply_filter(&mut self)
        ensures
            final(self)@ == apply_filter_step(old(self)@),
            old(self)@.filter_text.len() == 0 ==> final(self)@.filtered == Seq::new(
                old(self)@.labels.len(),
                |i: int| i as usize,
            ),
    {
        let lowered = to_lowercase(self.filter_text.as_str());
        let label_count = self.labels.len();
        proof {
            if self.filter_text@.len() == 0 {
                lemma_matching_all(string_views(self.labels@), self.filter_text@, label_count as int);
            }
        }
        let needle = chars_of(lowered.as_str());
        let mut filtered: Vec<usize> = Vec::new();
        let mut i: usize = 0;
        while i < self.labels.len()
            invariant
                needle@ == lowercase_of(self.filter_text@),
                i <= self.labels@.len(),
                filtered@ == matching_indices(string_views(self.labels@), self.filter_text@, i as int),
            decreases self.labels@.len() - i,
        {
            let passes = label_passes(self.labels[i].as_str(), &needle, Ghost(self.filter_text@));
            if passes {
                filtered.push(i);
            }
            i = i + 1;
        }
        self.filtered = filtered;
        if self.filtered.len() == 0 {
            self.selected = None;
        } else {
            let current: usize = match self.selected {
                Some(k) => k,
                None => 0,
            };
            let last = self.filtered.len() - 1;
            self.selected = Some(if current < last { current } else { last });
        }
    }
}

/// A filter that lowercases to nothing keeps every label.
pub proof fn lemma_matching_all(labels: Seq<Seq<char>>, filter: Seq<char>, n: int)
    requires
        0 <= n <= labels.len(),
        labels.len() <= usize::MAX,
        lowercase_of(filter).len() == 0,
    ensures
        matching_indices(labels, filter, n) == Seq::new(n as nat, |i: int| i as usize),
    decreases n,
{
    if n > 0 {
        lemma_matching_all(labels, filter, n - 1);
    }
    assert(matching_indices(labels, filter, n) =~= Seq::new(n as nat, |i: int| i as usize));
}

/// The rows the filter keeps are label indices, in increasing order.
pub proof fn lemma_matching_bounds(labels: Seq<Seq<char>>, filter: Seq<char>, n: int)
    requires
        0 <= n <= labels.len(),
        labels.len() <= usize::MAX,
    ensures
        matching_indices(labels, filter, n).len() <= n,
        forall|j: int| 0 <= j < matching_indices(labels, filter, n).len()
            ==> #[trigger] matching_indices(labels, filter, n)[j] < n,
        forall|i: int, j: int| 0 <= i < j < matching_indices(labels, filter, n).len()
            ==> matching_indices(labels, filter, n)[i] < matching_indices(labels, filter, n)[j],
    decreases n,
{
    if n > 0 {
        lemma_matching_bounds(labels, filter, n - 1);
        let prior = matching_indices(labels, filter, n - 1);
        let all = matching_indices(labels, filter, n);
        assert forall|j: int| 0 <= j < prior.len() implies #[trigger] prior[j] < n - 1 by {}
        assert forall|i: int, j: int| 0 <= i < j < all.len() implies all[i] < all[j] by {
            if !matches_filter(labels[n - 1], filter) {
                assert(all == prior);
                assert(prior[i] < prior[j]);
            } else if j < prior.len() {
                assert(all[i] == prior[i] && all[j] == prior[j]);
                assert(prior[i] < prior[j]);
            } else {
                assert(all[i] == prior[i]);
                assert(prior[i] < n - 1);
            }
        }
    }
}

} // verus!
