//! What holds of the session's state machine across calls: the filter,
//! the selection, the add wizard and removal.
use crate::app::{
    finish_copy_step,
    added_message, copy_selected_step, finish_add_step, finish_remove_step, position_from,
    remove_step, removed_message, selected_label_spec, toggle_reveal_step, cancel_add_step,
    add_request, apply_filter_step, begin_add_step, confirm_label_step, confirm_note_step,
    confirm_secret_step, lemma_matching_bounds, matches_filter, matching_indices, next_step,
    note_of, previous_step, AppView, Mode, copy_request, nothing_selected_message,
};
use crate::entry_map::{lemma_sorted_labels, sorted_labels, strictly_sorted};
use crate::label_order::lemma_label_irreflexive;
use crate::text::{lowercase_of, occurs_in, trimmed};
use crate::vault::EntryView;
use vstd::prelude::*;

verus! {

/// What typing into the input line does: the input becomes `input`.
pub open spec fn with_input(s: AppView, input: Seq<char>) -> AppView {
    AppView { input, ..s }
}

proof fn lemma_matching_members(labels: Seq<Seq<char>>, filter: Seq<char>, n: int)
    requires
        0 <= n <= labels.len(),
        labels.len() <= usize::MAX,
    ensures
        forall|i: int| 0 <= i < n ==> (matching_indices(labels, filter, n).contains(i as usize)
            == matches_filter(#[trigger] labels[i], filter)),
    decreases n,
{
    if n > 0 {
        lemma_matching_members(labels, filter, n - 1);
        lemma_matching_bounds(labels, filter, n - 1);
        let prior = matching_indices(labels, filter, n - 1);
        let all = matching_indices(labels, filter, n);
        assert forall|i: int| 0 <= i < n implies (all.contains(i as usize) == matches_filter(#[trigger] labels[i], filter)) by {
            if matches_filter(labels[n - 1], filter) {
                assert(all == prior.push((n - 1) as usize));
                if i < n - 1 {
                    if all.contains(i as usize) {
                        let m = choose|m: int| 0 <= m < all.len() && all[m] == i as usize;
                        if m < prior.len() {
                            assert(prior[m] == i as usize);
                        }
                    }
                    if prior.contains(i as usize) {
                        let m = choose|m: int| 0 <= m < prior.len() && prior[m] == i as usize;
                        assert(all[m] == i as usize);
                    }
                } else {
                    assert(all[all.len() - 1] == i as usize);
                }
            } else {
                assert(all == prior);
                if i == n - 1 && all.contains(i as usize) {
                    let m = choose|m: int| 0 <= m < all.len() && all[m] == i as usize;
                    assert(prior[m] < n - 1);
                }
            }
        }
    }
}

/// The filter keeps exactly the labels that pass it (their lowercased
/// form holds the lowercased filter text), each once, in label order.
pub proof fn law_filter_keeps_exactly_the_matches(labels: Seq<Seq<char>>, filter: Seq<char>)
    requires
        labels.len() <= usize::MAX,
    ensures
        forall|i: int| 0 <= i < labels.len() ==> (
            matching_indices(labels, filter, labels.len() as int).contains(i as usize)
                == matches_filter(#[trigger] labels[i], filter)),
        forall|j: int| 0 <= j < matching_indices(labels, filter, labels.len() as int).len()
            ==> #[trigger] matching_indices(labels, filter, labels.len() as int)[j] < labels.len(),
        forall|i: int, j: int| 0 <= i < j < matching_indices(labels, filter, labels.len() as int).len()
            ==> matching_indices(labels, filter, labels.len() as int)[i]
                < matching_indices(labels, filter, labels.len() as int)[j],
{
    lemma_matching_members(labels, filter, labels.len() as int);
    lemma_matching_bounds(labels, filter, labels.len() as int);
}

/// After filtering, a row is selected exactly when some row is left, the
/// selected row is one of them, and a selection that is still in range
/// is kept.
pub proof fn law_filter_selection(s: AppView)
    ensures
        (apply_filter_step(s).selected is None) == (apply_filter_step(s).filtered.len() == 0),
        apply_filter_step(s).selected matches Some(row) ==> row < apply_filter_step(s).filtered.len(),
        s.selected matches Some(row) && row < apply_filter_step(s).filtered.len()
            ==> apply_filter_step(s).selected == s.selected,
{
}

/// With a row selected, moving down then up, or up then down, comes back
/// to the same row, and each move keeps the selection among the rows.
pub proof fn law_next_previous_undo(s: AppView)
    requires
        s.selected matches Some(row) && row < s.filtered.len(),
        s.filtered.len() <= usize::MAX,
    ensures
        previous_step(next_step(s)).selected == s.selected,
        next_step(previous_step(s)).selected == s.selected,
        next_step(s).selected matches Some(row) && row < s.filtered.len(),
        previous_step(s).selected matches Some(row) && row < s.filtered.len(),
{
}

/// The add wizard stores what was typed: a label that is not blank and a
/// secret that is not empty, then a note, give the entry under the
/// trimmed label, with the secret as typed, the creation date, and the
/// trimmed note (none when blank); the save asked for is of that label,
/// marked new when the vault did not hold it.
pub proof fn law_add_wizard_stores_the_entry(
    s: AppView,
    label: Seq<char>,
    secret: Seq<char>,
    note: Seq<char>,
    created: Seq<char>,
)
    requires
        trimmed(label).len() > 0,
        secret.len() > 0,
    ensures
        ({
            let at_note = with_input(
                confirm_secret_step(with_input(confirm_label_step(with_input(begin_add_step(s), label)), secret)),
                note,
            );
            let done = confirm_note_step(at_note, created);
            &&& at_note.mode == Mode::AddNote
            &&& add_request(at_note) == Some((trimmed(label), !s.data.contains_key(trimmed(label))))
            &&& done.data == s.data.insert(trimmed(label), EntryView { secret, created, note: note_of(note) })
            &&& done.mode == Mode::Normal
            &&& done.pending_label is None && done.pending_secret is None
        }),
{
}

/// An empty secret cancels the add: back to `Normal`, nothing pending,
/// the entries unchanged and no save asked for.
pub proof fn law_empty_secret_cancels_the_add(s: AppView, label: Seq<char>)
    ensures
        ({
            let after = confirm_secret_step(with_input(confirm_label_step(with_input(begin_add_step(s), label)), Seq::empty()));
            &&& after.mode == Mode::Normal
            &&& after.data == s.data
            &&& after.pending_label is None && after.pending_secret is None
            &&& add_request(after) is None
        }),
{
}

/// A blank label cancels the add: back to `Normal`, nothing pending and
/// the entries unchanged.
pub proof fn law_blank_label_cancels_the_add(s: AppView, label: Seq<char>)
    requires
        trimmed(label).len() == 0,
    ensures
        ({
            let after = confirm_label_step(with_input(begin_add_step(s), label));
            &&& after.mode == Mode::Normal
            &&& after.data == s.data
            &&& after.pending_label is None && after.pending_secret is None
        }),
{
}

/// A map whose labels fit in memory: finitely many, at most `usize::MAX`.
pub open spec fn labels_fit<V>(m: Map<Seq<char>, V>) -> bool {
    m.dom().finite() && m.dom().len() <= usize::MAX
}

/// What holds of every state a session reaches: the labels are in strict
/// label order, the rows are label indices in strictly increasing order,
/// and a row is selected exactly when there are rows, always one of them.
pub open spec fn state_invariant(s: AppView) -> bool {
    &&& labels_fit(s.data)
    &&& strictly_sorted(s.labels)
    &&& s.labels.len() <= usize::MAX
    &&& forall|j: int| 0 <= j < s.filtered.len() ==> #[trigger] s.filtered[j] < s.labels.len()
    &&& forall|i: int, j: int| 0 <= i < j < s.filtered.len() ==> s.filtered[i] < s.filtered[j]
    &&& (s.selected is None) == (s.filtered.len() == 0)
    &&& s.selected matches Some(row) ==> row < s.filtered.len()
}

proof fn lemma_sorted_labels_fit<V>(m: Map<Seq<char>, V>)
    requires
        labels_fit(m),
    ensures
        strictly_sorted(sorted_labels(m)),
        forall|k: Seq<char>| m.contains_key(k) == sorted_labels(m).contains(k),
        sorted_labels(m).len() <= usize::MAX,
{
    lemma_sorted_labels(m);
    let l = sorted_labels(m);
    assert(l.no_duplicates()) by {
        assert forall|i: int, j: int| 0 <= i < l.len() && 0 <= j < l.len() && i != j implies l[i] != l[j] by {
            if i < j {
                lemma_label_irreflexive(l[i]);
            } else {
                lemma_label_irreflexive(l[j]);
            }
        }
    }
    l.unique_seq_to_set();
    assert(l.to_set() =~= m.dom());
}

proof fn lemma_position_from(filtered: Seq<usize>, labels: Seq<Seq<char>>, label: Seq<char>, k: int)
    requires
        0 <= k,
        filtered.len() <= usize::MAX,
    ensures
        position_from(filtered, labels, label, k) matches Some(row) ==> k <= row < filtered.len()
            && labels[filtered[row as int] as int] == label,
        (exists|m: int| k <= m < filtered.len() && #[trigger] labels[filtered[m] as int] == label)
            ==> position_from(filtered, labels, label, k) is Some,
    decreases filtered.len() - k,
{
    if k < filtered.len() {
        lemma_position_from(filtered, labels, label, k + 1);
        if exists|m: int| k <= m < filtered.len() && #[trigger] labels[filtered[m] as int] == label {
            let m = choose|m: int| k <= m < filtered.len() && #[trigger] labels[filtered[m] as int] == label;
            if m > k {
                assert(k + 1 <= m < filtered.len() && labels[filtered[m] as int] == label);
            }
        }
    }
}

/// Filtering a state whose labels are in order and fit in memory meets the
/// state invariant.
proof fn lemma_filtered_meets_invariant(s: AppView)
    requires
        labels_fit(s.data),
        strictly_sorted(s.labels),
        s.labels.len() <= usize::MAX,
    ensures
        state_invariant(apply_filter_step(s)),
{
    lemma_matching_bounds(s.labels, s.filter_text, s.labels.len() as int);
}

/// A new session over entries that fit in memory meets the state
/// invariant.
pub proof fn law_new_session_meets_the_invariant(data: Map<Seq<char>, EntryView>)
    requires
        labels_fit(data),
    ensures
        state_invariant(apply_filter_step(crate::app::unfiltered_view(data))),
{
    lemma_sorted_labels_fit(data);
    lemma_filtered_meets_invariant(crate::app::unfiltered_view(data));
}

/// After a successful save of an added entry the labels are the vault's
/// labels in order, and the added entry is the selected one whenever it
/// passes the filter.
pub proof fn law_saved_entry_is_selected(s: AppView, label: Seq<char>, is_new: bool)
    requires
        labels_fit(s.data),
        s.data.contains_key(label),
    ensures
        ({
            let t = finish_add_step(s, label, is_new, Ok(()));
            &&& t.labels == sorted_labels(s.data)
            &&& t.data == s.data
            &&& t.status == Some(added_message(label, is_new))
            &&& state_invariant(t)
            &&& matches_filter(label, s.filter_text) ==> selected_label_spec(t) == Some(label)
        }),
{
    lemma_sorted_labels_fit(s.data);
    let labels = sorted_labels(s.data);
    let refreshed = apply_filter_step(AppView { status: Some(added_message(label, is_new)), labels, ..s });
    let f = refreshed.filtered;
    law_filter_keeps_exactly_the_matches(labels, s.filter_text);
    lemma_matching_bounds(labels, s.filter_text, labels.len() as int);
    lemma_position_from(f, labels, label, 0);
    if matches_filter(label, s.filter_text) {
        let i = choose|i: int| 0 <= i < labels.len() && labels[i] == label;
        assert(matches_filter(labels[i], s.filter_text));
        assert(f.contains(i as usize));
        let m = choose|m: int| 0 <= m < f.len() && f[m] == i as usize;
        assert(labels[f[m] as int] == label);
    }
}

/// Removing the selected entry and saving it drops it from the entries
/// and from the labels, and hides the revealed secret.
pub proof fn law_removed_entry_is_gone(s: AppView, label: Seq<char>)
    requires
        labels_fit(s.data),
        selected_label_spec(s) == Some(label),
    ensures
        ({
            let t = finish_remove_step(remove_step(s), label, Ok(()));
            &&& t.data == s.data.remove(label)
            &&& t.labels == sorted_labels(s.data.remove(label))
            &&& !t.labels.contains(label)
            &&& t.status == Some(removed_message(label))
            &&& t.revealed is None
            &&& t.mode == Mode::Normal
            &&& state_invariant(t)
        }),
{
    let d = s.data.remove(label);
    assert(d.dom() =~= s.data.dom().remove(label));
    assert(labels_fit(d));
    lemma_sorted_labels_fit(d);
    lemma_matching_bounds(sorted_labels(d), s.filter_text, sorted_labels(d).len() as int);
}

/// Whatever the outcome of a save, the labels afterwards are the labels of
/// the entries, in order: they never fall out of step with the entries.
pub proof fn law_labels_follow_the_entries(s: AppView, label: Seq<char>, is_new: bool, outcome: Result<(), Seq<char>>)
    ensures
        finish_add_step(s, label, is_new, outcome).labels == sorted_labels(s.data),
        finish_add_step(s, label, is_new, outcome).data == s.data,
        finish_remove_step(s, label, outcome).labels == sorted_labels(s.data),
        finish_remove_step(s, label, outcome).data == s.data,
{
}

proof fn lemma_occurs_transitive(a: Seq<char>, b: Seq<char>, c: Seq<char>)
    requires
        occurs_in(a, b),
        occurs_in(b, c),
    ensures
        occurs_in(a, c),
{
    let i = choose|i: int| 0 <= i <= b.len() - a.len() && #[trigger] b.subrange(i, i + a.len()) == a;
    let j = choose|j: int| 0 <= j <= c.len() - b.len() && #[trigger] c.subrange(j, j + b.len()) == b;
    assert(c.subrange(j + i, j + i + a.len()) =~= b.subrange(i, i + a.len()));
}

/// A filter that refines another (its lowercased text holds the other's)
/// keeps no row that the other drops.
pub proof fn law_refined_filter_keeps_a_subset(s: AppView, refined: Seq<char>)
    requires
        s.labels.len() <= usize::MAX,
        occurs_in(lowercase_of(s.filter_text), lowercase_of(refined)),
    ensures
        forall|row: usize|
            #[trigger] apply_filter_step(AppView { filter_text: refined, ..s }).filtered.contains(row)
                ==> apply_filter_step(s).filtered.contains(row),
{
    let labels = s.labels;
    let n = labels.len() as int;
    law_filter_keeps_exactly_the_matches(labels, refined);
    law_filter_keeps_exactly_the_matches(labels, s.filter_text);
    let narrow = matching_indices(labels, refined, n);
    let wide = matching_indices(labels, s.filter_text, n);
    assert forall|row: usize| #[trigger] narrow.contains(row) implies wide.contains(row) by {
        let k = choose|k: int| 0 <= k < narrow.len() && narrow[k] == row;
        assert(narrow[k] < n);
        let i = row as int;
        assert(matches_filter(labels[i], refined));
        let la = lowercase_of(s.filter_text);
        let lb = lowercase_of(refined);
        let ll = lowercase_of(labels[i]);
        if la.len() != 0 {
            if lb.len() == 0 {
                assert(false);
            } else {
                lemma_occurs_transitive(la, lb, ll);
            }
        }
        assert(matches_filter(labels[i], s.filter_text));
    }
}

/// The state invariant holds of every state a session reaches: each step
/// keeps it (a stored entry is assumed to leave room for the map to grow),
/// and so do edits of the filter text, the input line and the revealed
/// label, which the front end makes directly.
pub proof fn law_every_step_keeps_the_invariant(
    s: AppView,
    label: Seq<char>,
    is_new: bool,
    created: Seq<char>,
    outcome: Result<(), Seq<char>>,
    text: Seq<char>,
    revealed: Option<Seq<char>>,
)
    requires
        state_invariant(s),
    ensures
        state_invariant(apply_filter_step(s)),
        state_invariant(next_step(s)),
        state_invariant(previous_step(s)),
        state_invariant(toggle_reveal_step(s)),
        state_invariant(begin_add_step(s)),
        state_invariant(confirm_label_step(s)),
        state_invariant(confirm_secret_step(s)),
        state_invariant(cancel_add_step(s)),
        s.data.dom().len() < usize::MAX ==> state_invariant(confirm_note_step(s, created)),
        state_invariant(finish_add_step(s, label, is_new, outcome)),
        state_invariant(remove_step(s)),
        state_invariant(finish_remove_step(s, label, outcome)),
        state_invariant(copy_selected_step(s)),
        state_invariant(finish_copy_step(s, label, outcome)),
        state_invariant(with_input(s, text)),
        state_invariant(AppView { filter_text: text, ..s }),
        state_invariant(AppView { revealed, ..s }),
        (selected_label_spec(s) is Some) == (s.selected is Some),
{
    lemma_filtered_meets_invariant(s);
    lemma_sorted_labels_fit(s.data);
    let labels = sorted_labels(s.data);
    lemma_filtered_meets_invariant(AppView { status: Some(added_message(label, is_new)), labels, ..s });
    match outcome {
        Ok(()) => {
            let refreshed = apply_filter_step(AppView { status: Some(added_message(label, is_new)), labels, ..s });
            lemma_matching_bounds(labels, s.filter_text, labels.len() as int);
            lemma_position_from(refreshed.filtered, refreshed.labels, label, 0);
            lemma_filtered_meets_invariant(AppView {
                status: Some(crate::app::removed_message(label)),
                labels,
                revealed: None,
                mode: Mode::Normal,
                ..s
            });
        },
        Err(e) => {
            lemma_filtered_meets_invariant(AppView { status: Some(crate::app::save_failed_message(e)), labels, ..s });
            lemma_filtered_meets_invariant(AppView {
                status: Some(crate::app::save_failed_message(e)),
                labels,
                mode: Mode::Normal,
                ..s
            });
        },
    }
    if let Some(l) = selected_label_spec(s) {
        let d = s.data.remove(l);
        assert(d.dom() =~= s.data.dom().remove(l));
    }
    match (s.pending_label, s.pending_secret) {
        (Some(l), Some(secret)) => {
            let d = s.data.insert(l, EntryView { secret, created, note: crate::app::note_of(s.input) });
            assert(d.dom() =~= s.data.dom().insert(l));
        },
        _ => {},
    }
}

/// A label passes a filter when its lowercase form holds the lowercased
/// filter text, or when that text is empty.
pub open spec fn lowercase_holds(label: Seq<char>, filter: Seq<char>) -> bool {
    lowercase_of(filter).len() == 0 || occurs_in(lowercase_of(filter), lowercase_of(label))
}

/// `rows` lists, in strictly increasing order, exactly the indices of
/// `labels` whose lowercase form holds the lowercased `filter` (all of
/// them when the lowercased filter is empty).
pub open spec fn rows_are_the_matches(rows: Seq<usize>, labels: Seq<Seq<char>>, filter: Seq<char>) -> bool {
    &&& forall|j: int| 0 <= j < rows.len() ==> #[trigger] rows[j] < labels.len()
    &&& forall|i: int, j: int| 0 <= i < j < rows.len() ==> rows[i] < rows[j]
    &&& forall|i: int| 0 <= i < labels.len() ==> (rows.contains(i as usize) <==> lowercase_holds(#[trigger] labels[i], filter))
}

/// Filtering keeps exactly the labels whose lowercase form holds the
/// lowercased filter text, in order; case never decides, so two labels
/// with the same lowercase form are kept or dropped together; and a row is
/// selected exactly when some row is kept.
pub proof fn law_filtering_ignores_case(s: AppView)
    requires
        s.labels.len() <= usize::MAX,
    ensures
        rows_are_the_matches(apply_filter_step(s).filtered, s.labels, s.filter_text),
        forall|i: int, j: int|
            0 <= i < s.labels.len() && 0 <= j < s.labels.len() && lowercase_of(#[trigger] s.labels[i])
                == lowercase_of(#[trigger] s.labels[j]) ==> (apply_filter_step(s).filtered.contains(i as usize)
                <==> apply_filter_step(s).filtered.contains(j as usize)),
        (apply_filter_step(s).selected is Some) == (apply_filter_step(s).filtered.len() > 0),
        apply_filter_step(s).labels == s.labels,
        apply_filter_step(s).data == s.data,
{
    law_filter_keeps_exactly_the_matches(s.labels, s.filter_text);
    let rows = apply_filter_step(s).filtered;
    assert(rows == matching_indices(s.labels, s.filter_text, s.labels.len() as int));
    assert forall|j: int| 0 <= j < rows.len() implies #[trigger] rows[j] < s.labels.len() by {}
    assert forall|i: int, j: int| 0 <= i < j < rows.len() implies rows[i] < rows[j] by {}
    let labels = s.labels;
    let filter = s.filter_text;
    assert forall|i: int| 0 <= i < labels.len() implies (rows.contains(i as usize) <==> lowercase_holds(#[trigger] labels[i], filter)) by {
        assert(rows.contains(i as usize) == matches_filter(labels[i], filter));
    }
    assert(rows_are_the_matches(rows, labels, filter));
}

/// After a successful removal the labels are those of the remaining
/// entries, in order; the rows are exactly the remaining labels that pass
/// the filter (every one of them when the lowercased filter is empty);
/// and a row is selected whenever some row remains.
pub proof fn law_removal_lists_the_remaining_matches(s: AppView, label: Seq<char>)
    requires
        labels_fit(s.data),
    ensures
        ({
            let t = finish_remove_step(s, label, Ok(()));
            &&& t.labels == sorted_labels(s.data)
            &&& rows_are_the_matches(t.filtered, t.labels, s.filter_text)
            &&& lowercase_of(s.filter_text).len() == 0 ==> t.filtered.len() == t.labels.len()
            &&& (t.selected is Some) == (t.filtered.len() > 0)
            &&& t.selected matches Some(row) ==> row < t.filtered.len()
        }),
{
    lemma_sorted_labels_fit(s.data);
    let u = AppView {
        status: Some(removed_message(label)),
        labels: sorted_labels(s.data),
        revealed: None,
        mode: Mode::Normal,
        ..s
    };
    law_filtering_ignores_case(u);
    let t = apply_filter_step(u);
    if lowercase_of(s.filter_text).len() == 0 {
        crate::app::lemma_matching_all(u.labels, s.filter_text, u.labels.len() as int);
    }
}

/// The copy command hands out the selected label and the secret stored
/// under that same label; with a selected row whose label is stored, it
/// always does; otherwise it hands out nothing and says so.
pub proof fn law_copy_hands_out_the_selected_entry(s: AppView)
    ensures
        copy_request(s) matches Some((l, secret)) ==> {
            &&& s.selected matches Some(row)
            &&& row < s.filtered.len()
            &&& s.filtered[row as int] < s.labels.len()
            &&& l == s.labels[s.filtered[row as int] as int]
            &&& s.data.contains_key(l)
            &&& secret == s.data[l].secret
        },
        (s.selected matches Some(row) && row < s.filtered.len() && s.filtered[row as int] < s.labels.len()
            && s.data.contains_key(s.labels[s.filtered[row as int] as int])) ==> copy_request(s) is Some,
        copy_request(s) is Some ==> copy_selected_step(s) == s,
        copy_request(s) is None ==> copy_selected_step(s).status == Some(nothing_selected_message()),
{
}

/// With a label selected, a toggle shows it exactly when it was not the
/// one shown, whatever other label was shown, and otherwise hides it;
/// toggling twice restores what was shown when that was nothing or the
/// selected label; without a selected label a toggle changes nothing.
pub proof fn law_toggle_reveal_shows_the_selected_label(s: AppView)
    ensures
        (s.selected matches Some(row) && row < s.filtered.len() && s.filtered[row as int] < s.labels.len()) ==> {
            let l = s.labels[s.filtered[s.selected->0 as int] as int];
            let t = toggle_reveal_step(s);
            &&& (t.revealed == Some(l)) == (s.revealed != Some(l))
            &&& t.revealed is None || t.revealed == Some(l)
            &&& (s.revealed is None || s.revealed == Some(l)) ==> toggle_reveal_step(t).revealed == s.revealed
            &&& t.selected == s.selected && t.filtered == s.filtered && t.labels == s.labels && t.data == s.data
        },
        !(s.selected matches Some(row) && row < s.filtered.len() && s.filtered[row as int] < s.labels.len())
            ==> toggle_reveal_step(s) == s,
{
}

/// Moving down from row `i` of `n` selects row `(i + 1) mod n` and moving
/// up selects row `(i + n - 1) mod n`; with no row selected, down selects
/// the first row and up the last.
pub proof fn law_moves_are_cyclic(s: AppView, i: usize)
    requires
        s.filtered.len() <= usize::MAX,
    ensures
        s.selected == Some(i) && i < s.filtered.len() ==> {
            &&& next_step(s).selected == Some(((i + 1) % (s.filtered.len() as int)) as usize)
            &&& previous_step(s).selected == Some(((i + s.filtered.len() - 1) % (s.filtered.len() as int)) as usize)
        },
        s.selected is None && s.filtered.len() > 0 ==> {
            &&& next_step(s).selected == Some(0usize)
            &&& previous_step(s).selected == Some((s.filtered.len() - 1) as usize)
        },
{
    if s.selected == Some(i) {
        let n = s.filtered.len() as int;
        if i < n {
            if i + 1 < n {
                vstd::arithmetic::div_mod::lemma_small_mod((i + 1) as nat, n as nat);
            } else {
                assert((i + 1) % n == 0) by (nonlinear_arith) requires i + 1 == n, n > 0;
            }
            if i > 0 {
                assert((i + n - 1) % n == i - 1) by (nonlinear_arith) requires 0 < i < n;
            } else {
                vstd::arithmetic::div_mod::lemma_small_mod((n - 1) as nat, n as nat);
            }
        }
    }
}

/// Whatever the outcome of a save, after an add or a removal the rows are
/// exactly the labels of the entries that pass the filter, in order, and
/// a row is selected exactly when some row is listed.
pub proof fn law_saves_list_the_matches(s: AppView, label: Seq<char>, is_new: bool, outcome: Result<(), Seq<char>>)
    requires
        labels_fit(s.data),
    ensures
        ({
            let t = finish_add_step(s, label, is_new, outcome);
            &&& t.labels == sorted_labels(s.data)
            &&& rows_are_the_matches(t.filtered, t.labels, s.filter_text)
            &&& (t.selected is Some) == (t.filtered.len() > 0)
        }),
        ({
            let t = finish_remove_step(s, label, outcome);
            &&& t.labels == sorted_labels(s.data)
            &&& rows_are_the_matches(t.filtered, t.labels, s.filter_text)
            &&& (t.selected is Some) == (t.filtered.len() > 0)
        }),
{
    lemma_sorted_labels_fit(s.data);
    let labels = sorted_labels(s.data);
    match outcome {
        Ok(()) => {
            let u = AppView { status: Some(added_message(label, is_new)), labels, ..s };
            law_filtering_ignores_case(u);
            let refreshed = apply_filter_step(u);
            lemma_matching_bounds(labels, s.filter_text, labels.len() as int);
            lemma_position_from(refreshed.filtered, refreshed.labels, label, 0);
            law_removal_lists_the_remaining_matches(s, label);
        },
        Err(e) => {
            law_filtering_ignores_case(AppView { status: Some(crate::app::save_failed_message(e)), labels, ..s });
            law_filtering_ignores_case(AppView {
                status: Some(crate::app::save_failed_message(e)),
                labels,
                mode: Mode::Normal,
                ..s
            });
        },
    }
}

} // verus!
