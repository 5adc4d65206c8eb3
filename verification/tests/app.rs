use cybervault::app::{App, Mode};
use cybervault::vault::{open, seal, Entry, VaultData};
use serde_json::Value;

/// Writes the entries as the vault file holds them (JSON, sealed under the
/// test password) and reads them back.
fn persist_and_reload(data: &VaultData) -> Value {
    let mut entries = serde_json::Map::new();
    for label in data.entries.keys() {
        let entry = data.entries.get(&label).unwrap();
        let mut fields = serde_json::Map::new();
        fields.insert("secret".to_string(), Value::String(entry.secret.clone()));
        fields.insert("created".to_string(), Value::String(entry.created.clone()));
        let note = match &entry.note {
            Some(n) => Value::String(n.clone()),
            None => Value::Null,
        };
        fields.insert("note".to_string(), note);
        entries.insert(label, Value::Object(fields));
    }
    let mut root = serde_json::Map::new();
    root.insert("entries".to_string(), Value::Object(entries));
    let bytes = serde_json::to_vec(&Value::Object(root)).unwrap();
    let sealed = seal("test-password", &bytes);
    let opened = open("test-password", &sealed).ok().unwrap();
    serde_json::from_slice(&opened).unwrap()
}

fn new_app_with(entries: &[(&str, &str)]) -> App {
    let mut data = VaultData::default();
    for (label, secret) in entries {
        data.entries.insert(
            label.to_string(),
            Entry { secret: secret.to_string(), created: "2026-01-01".to_string(), note: None },
        );
    }
    App::new(data)
}

fn visible(app: &App) -> Vec<&str> {
    app.filtered.iter().map(|&i| app.labels[i].as_str()).collect()
}

#[test]
fn filter_narrows_to_matching_labels_case_insensitively() {
    let mut app = new_app_with(&[("github", "a"), ("gitlab", "b"), ("aws-root", "c")]);

    app.filter_text = "GIT".to_string();
    app.apply_filter();

    let matched: Vec<&str> = app.filtered.iter().map(|&i| app.labels[i].as_str()).collect();
    assert_eq!(matched, vec!["github", "gitlab"]);
}

#[test]
fn filter_with_no_matches_clears_selection() {
    let mut app = new_app_with(&[("github", "a")]);

    app.filter_text = "nonexistent".to_string();
    app.apply_filter();

    assert!(app.filtered.is_empty());
    assert_eq!(app.selected, None);
}

#[test]
fn add_wizard_persists_a_new_entry_to_disk() {
    let mut app = new_app_with(&[]);

    app.begin_add();
    app.input_buffer = "newlabel".to_string();
    app.confirm_label();
    assert_eq!(app.mode, Mode::AddSecret);

    app.input_buffer = "s3cr3t".to_string();
    app.confirm_secret();
    assert_eq!(app.mode, Mode::AddNote);

    app.input_buffer = "test note".to_string();
    let request = app.confirm_note_and_save("2026-01-02".to_string());
    assert_eq!(app.mode, Mode::Normal);
    assert_eq!(request, Some(("newlabel".to_string(), true)));
    app.finish_add("newlabel".to_string(), true, Ok(()));

    let stored = app.data.entries.get("newlabel").unwrap();
    assert_eq!(stored.secret, "s3cr3t");
    assert_eq!(stored.note.as_deref(), Some("test note"));
    assert_eq!(stored.created, "2026-01-02");
    assert_eq!(app.status.as_deref(), Some("added \"newlabel\""));
    assert_eq!(app.labels, vec!["newlabel".to_string()]);
    assert_eq!(app.selected, Some(0));

    // Write the vault and read it back independently, so the entry is
    // checked as stored, not only in the in-memory `data`.
    let reloaded = persist_and_reload(&app.data);
    assert_eq!(reloaded["entries"]["newlabel"]["secret"], "s3cr3t");
    assert_eq!(reloaded["entries"]["newlabel"]["note"], "test note");
}

#[test]
fn add_wizard_cancels_on_empty_secret_without_creating_an_entry() {
    let mut app = new_app_with(&[]);

    app.begin_add();
    app.input_buffer = "willnotbecreated".to_string();
    app.confirm_label();
    app.input_buffer.clear();
    app.confirm_secret();

    assert_eq!(app.mode, Mode::Normal);
    assert!(!app.data.entries.contains_key("willnotbecreated"));
    assert_eq!(app.status.as_deref(), Some("add cancelled: secret can't be empty"));
    assert_eq!(app.confirm_note_and_save("2026-01-01".to_string()), None);
}

#[test]
fn remove_selected_deletes_and_persists() {
    let mut app = new_app_with(&[("github", "a"), ("gitlab", "b")]);
    app.selected = Some(0); // "github", first alphabetically

    let request = app.remove_selected();
    assert_eq!(request.as_deref(), Some("github"));
    app.finish_remove(request.unwrap(), Ok(()));

    assert!(!app.data.entries.contains_key("github"));
    assert!(app.data.entries.contains_key("gitlab"));
    assert_eq!(app.labels, vec!["gitlab".to_string()]);
    assert_eq!(app.status.as_deref(), Some("removed \"github\""));
    assert_eq!(app.mode, Mode::Normal);

    let reloaded = persist_and_reload(&app.data);
    assert!(reloaded["entries"].get("github").is_none());
    assert!(reloaded["entries"].get("gitlab").is_some());
}

#[test]
fn new_lists_labels_in_order_and_selects_the_first() {
    let app = new_app_with(&[("zeta", "1"), ("Alpha", "2"), ("beta", "3"), ("alpha", "4")]);
    assert_eq!(app.labels, vec!["Alpha", "alpha", "beta", "zeta"]);
    assert_eq!(app.filtered, vec![0, 1, 2, 3]);
    assert_eq!(app.selected, Some(0));
    assert_eq!(app.mode, Mode::Normal);
}

#[test]
fn empty_vault_selects_nothing() {
    let app = new_app_with(&[]);
    assert!(app.filtered.is_empty());
    assert_eq!(app.selected, None);
    assert!(app.selected_entry().is_none());
}

#[test]
fn next_and_previous_wrap_around_and_undo_each_other() {
    let mut app = new_app_with(&[("a", "1"), ("b", "2"), ("c", "3")]);
    assert_eq!(app.selected, Some(0));
    app.previous();
    assert_eq!(app.selected, Some(2));
    app.next();
    assert_eq!(app.selected, Some(0));
    app.next();
    app.next();
    assert_eq!(app.selected, Some(2));
    app.next();
    assert_eq!(app.selected, Some(0));
    app.next();
    app.previous();
    assert_eq!(app.selected, Some(0));
}

#[test]
fn moving_hides_the_revealed_secret() {
    let mut app = new_app_with(&[("a", "1"), ("b", "2")]);
    app.toggle_reveal();
    assert_eq!(app.revealed.as_deref(), Some("a"));
    assert!(app.is_revealed("a"));
    app.next();
    assert_eq!(app.revealed, None);
    assert!(!app.is_revealed("a"));
}

#[test]
fn toggle_reveal_shows_then_hides() {
    let mut app = new_app_with(&[("github", "pw")]);
    app.toggle_reveal();
    assert_eq!(app.revealed.as_deref(), Some("github"));
    app.toggle_reveal();
    assert_eq!(app.revealed, None);
}

#[test]
fn filter_keeps_the_selection_in_range() {
    let mut app = new_app_with(&[("a1", "1"), ("a2", "2"), ("b1", "3"), ("b2", "4")]);
    app.selected = Some(3);
    app.filter_text = "a".to_string();
    app.apply_filter();
    assert_eq!(visible(&app), vec!["a1", "a2"]);
    assert_eq!(app.selected, Some(1));
    app.filter_text.clear();
    app.apply_filter();
    assert_eq!(app.selected, Some(1));
}

#[test]
fn selected_entry_follows_the_filtered_rows() {
    let mut app = new_app_with(&[("github", "a"), ("gitlab", "b"), ("aws-root", "c")]);
    app.filter_text = "lab".to_string();
    app.apply_filter();
    let (label, entry) = app.selected_entry().unwrap();
    assert_eq!(label, "gitlab");
    assert_eq!(entry.secret, "b");
}

#[test]
fn blank_label_cancels_the_wizard() {
    let mut app = new_app_with(&[]);
    app.begin_add();
    app.input_buffer = "   \t ".to_string();
    app.confirm_label();
    assert_eq!(app.mode, Mode::Normal);
    assert_eq!(app.pending_label, None);
}

#[test]
fn label_is_trimmed_and_blank_note_stored_as_none() {
    let mut app = new_app_with(&[("keep", "x")]);
    app.begin_add();
    app.input_buffer = "  spaced label \n".to_string();
    app.confirm_label();
    assert_eq!(app.pending_label.as_deref(), Some("spaced label"));
    app.input_buffer = " secret with spaces ".to_string();
    app.confirm_secret();
    app.input_buffer = "   ".to_string();
    let request = app.confirm_note_and_save("today".to_string());
    assert_eq!(request, Some(("spaced label".to_string(), true)));
    let stored = app.data.entries.get("spaced label").unwrap();
    assert_eq!(stored.secret, " secret with spaces ");
    assert_eq!(stored.note, None);
}

#[test]
fn updating_an_existing_label_says_updated_and_selects_it() {
    let mut app = new_app_with(&[("a", "1"), ("b", "2"), ("c", "3")]);
    app.begin_add();
    app.input_buffer = "c".to_string();
    app.confirm_label();
    app.input_buffer = "new".to_string();
    app.confirm_secret();
    app.input_buffer.clear();
    let request = app.confirm_note_and_save("d".to_string());
    assert_eq!(request, Some(("c".to_string(), false)));
    app.finish_add("c".to_string(), false, Ok(()));
    assert_eq!(app.status.as_deref(), Some("updated \"c\""));
    assert_eq!(app.selected, Some(2));
    assert_eq!(app.data.entries.get("c").unwrap().secret, "new");
    assert_eq!(app.data.entries.len(), 3);
}

#[test]
fn failed_save_reports_and_refreshes_the_labels() {
    let mut app = new_app_with(&[("a", "1")]);
    app.begin_add();
    app.input_buffer = "b".to_string();
    app.confirm_label();
    app.input_buffer = "2".to_string();
    app.confirm_secret();
    let request = app.confirm_note_and_save("d".to_string()).unwrap();
    app.finish_add(request.0, request.1, Err("disk full".to_string()));
    assert_eq!(app.status.as_deref(), Some("failed to save: disk full"));
    assert_eq!(app.labels, vec!["a".to_string(), "b".to_string()]);
    assert_eq!(app.filtered, vec![0, 1]);
    assert!(app.data.entries.contains_key("b"));
}

#[test]
fn remove_with_nothing_selected_only_returns_to_normal() {
    let mut app = new_app_with(&[]);
    app.mode = Mode::ConfirmRemove;
    assert_eq!(app.remove_selected(), None);
    assert_eq!(app.mode, Mode::Normal);
}

#[test]
fn failed_removal_save_reports_it() {
    let mut app = new_app_with(&[("a", "1")]);
    let label = app.remove_selected().unwrap();
    app.finish_remove(label, Err("read-only".to_string()));
    assert_eq!(app.status.as_deref(), Some("failed to save: read-only"));
    assert!(app.labels.is_empty());
    assert!(app.filtered.is_empty());
    assert_eq!(app.selected, None);
    assert!(!app.data.entries.contains_key("a"));
}

#[test]
fn copy_hands_out_the_selected_secret_and_reports() {
    let mut app = new_app_with(&[("github", "hunter2")]);
    let request = app.copy_selected();
    assert_eq!(request, Some(("github".to_string(), "hunter2".to_string())));
    app.finish_copy("github", Ok(()));
    assert_eq!(app.status.as_deref(), Some("copied \"github\" to clipboard"));
    app.finish_copy("github", Err("no wl-copy".to_string()));
    assert_eq!(app.status.as_deref(), Some("clipboard error: no wl-copy"));
}

#[test]
fn copy_with_nothing_selected_says_so() {
    let mut app = new_app_with(&[]);
    assert_eq!(app.copy_selected(), None);
    assert_eq!(app.status.as_deref(), Some("nothing selected"));
}

#[test]
fn cancel_add_clears_the_wizard() {
    let mut app = new_app_with(&[]);
    app.begin_add();
    app.input_buffer = "x".to_string();
    app.confirm_label();
    app.input_buffer = "partial".to_string();
    app.cancel_add();
    assert_eq!(app.mode, Mode::Normal);
    assert_eq!(app.pending_label, None);
    assert!(app.input_buffer.is_empty());
}
