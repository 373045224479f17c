use canvas_grader::error::GraderError;
use canvas_grader::inspect::{CheckLine, NamePattern, README_DISCLAIMER};
use canvas_grader::model::{Attachment, FileRecord, Submission, UserProfile, UserSubmission};
use canvas_grader::pipeline::{
    editor_command, shell_command, Action, Batch, EntryPipeline, Event, Stage,
};
use canvas_grader::selection::Selection;

fn entry(name: &str, urls: Option<Vec<&str>>) -> UserSubmission {
    UserSubmission {
        user_profile: UserProfile { sortable_name: name.to_string() },
        submission: Submission {
            user_id: Some(1),
            attachments: urls
                .map(|list| list.iter().map(|u| Attachment { url: u.to_string() }).collect()),
        },
    }
}

fn file(directory: &str, name: &str, contents: Option<&str>) -> FileRecord {
    FileRecord {
        contents: contents.map(|c| c.to_string()),
        path: format!("{}/{}", directory, name),
        name: name.to_string(),
    }
}

#[test]
fn an_entry_walks_through_every_stage() {
    let pattern = NamePattern::new().unwrap();
    let mut pipeline =
        EntryPipeline::new(entry("Smith, John", Some(vec!["https://files/a.zip", "https://files/b.zip"])));
    assert_eq!(pipeline.stage(), Stage::Fetched);
    assert_eq!(pipeline.pending(), Action::Start);

    let action = pipeline.advance(Event::Begin, &pattern);
    assert_eq!(pipeline.stage(), Stage::Downloading);
    assert_eq!(
        action,
        Action::Download {
            url: "https://files/a.zip".to_string(),
            directory: "Smith, John".to_string(),
        }
    );
    assert!(pipeline.downloaded().is_none());

    let action = pipeline.advance(Event::Unpacked, &pattern);
    assert_eq!(pipeline.stage(), Stage::Extracted);
    assert_eq!(action, Action::ListFiles { directory: "Smith, John".to_string() });
    let unpacked = pipeline.downloaded().unwrap();
    assert_eq!(unpacked.path, "Smith, John");
    assert_eq!(unpacked.user_profile.sortable_name, "Smith, John");

    let files = vec![
        file("Smith, John", "main.c", Some("// smith")),
        file("Smith, John", "notes.txt", Some("todo")),
        file("Smith, John", "README.md", Some(README_DISCLAIMER)),
    ];
    let action = pipeline.advance(Event::Listed(files), &pattern);
    assert_eq!(pipeline.stage(), Stage::Inspecting);
    assert_eq!(action, Action::ShowReport);
    assert_eq!(
        pipeline.report().name_lines,
        vec![
            CheckLine { name: "main.c".to_string(), passed: true },
            CheckLine { name: "README.md".to_string(), passed: false },
        ]
    );
    assert_eq!(
        pipeline.report().disclaimer_lines,
        vec![CheckLine { name: "README.md".to_string(), passed: true }]
    );

    let action = pipeline.advance(Event::Acknowledged, &pattern);
    assert_eq!(action, Action::OpenEditor { path: "Smith, John/main.c".to_string() });
    let action = pipeline.advance(Event::EditorClosed, &pattern);
    assert_eq!(action, Action::OpenEditor { path: "Smith, John/README.md".to_string() });
    let action = pipeline.advance(Event::EditorClosed, &pattern);
    assert_eq!(action, Action::OpenShell { directory: "Smith, John".to_string() });
    assert_eq!(pipeline.stage(), Stage::Inspecting);
    let action = pipeline.advance(Event::ShellClosed, &pattern);
    assert_eq!(action, Action::Stop);
    assert_eq!(pipeline.stage(), Stage::Done);
    assert!(pipeline.stage().is_final());
    assert!(pipeline.downloaded().is_some());
}

#[test]
fn an_empty_attachment_list_is_attachment_not_found() {
    let pattern = NamePattern::new().unwrap();
    let mut pipeline = EntryPipeline::new(entry("Smith, John", Some(vec![])));
    let action = pipeline.advance(Event::Begin, &pattern);
    assert_eq!(action, Action::Stop);
    assert_eq!(pipeline.stage(), Stage::Failed(GraderError::AttachmentNotFound));
}

#[test]
fn a_missing_attachment_list_is_attachment_not_found() {
    let pattern = NamePattern::new().unwrap();
    let mut pipeline = EntryPipeline::new(entry("Smith, John", None));
    let action = pipeline.advance(Event::Begin, &pattern);
    assert_eq!(action, Action::Stop);
    assert_eq!(pipeline.stage(), Stage::Failed(GraderError::AttachmentNotFound));
    assert!(pipeline.downloaded().is_none());
}

#[test]
fn a_failure_ends_the_entry_from_any_stage() {
    let pattern = NamePattern::new().unwrap();
    let kinds = [GraderError::Network, GraderError::Archive, GraderError::Filesystem];
    for reached in 0..5usize {
        for kind in kinds {
            let mut pipeline = EntryPipeline::new(entry("Smith, John", Some(vec!["u"])));
            let events = [
                Event::Begin,
                Event::Unpacked,
                Event::Listed(vec![file("Smith, John", "a.c", None)]),
                Event::Acknowledged,
            ];
            for event in events.into_iter().take(reached) {
                pipeline.advance(event, &pattern);
            }
            assert!(!pipeline.stage().is_final());
            let action = pipeline.advance(Event::Failed(kind), &pattern);
            assert_eq!(action, Action::Stop);
            assert_eq!(pipeline.stage(), Stage::Failed(kind));
        }
    }
}

#[test]
fn network_and_archive_failures_are_told_apart() {
    let pattern = NamePattern::new().unwrap();
    let mut first = EntryPipeline::new(entry("A", Some(vec!["u"])));
    first.advance(Event::Begin, &pattern);
    first.advance(Event::Failed(GraderError::Network), &pattern);
    let mut second = EntryPipeline::new(entry("B", Some(vec!["u"])));
    second.advance(Event::Begin, &pattern);
    second.advance(Event::Failed(GraderError::Archive), &pattern);
    assert_eq!(first.stage(), Stage::Failed(GraderError::Network));
    assert_eq!(second.stage(), Stage::Failed(GraderError::Archive));
    assert_ne!(first.stage(), second.stage());
}

#[test]
fn terminal_stages_take_no_event() {
    let pattern = NamePattern::new().unwrap();
    let mut failed = EntryPipeline::new(entry("A", None));
    failed.advance(Event::Begin, &pattern);
    for event in [
        Event::Begin,
        Event::Unpacked,
        Event::Listed(vec![]),
        Event::Acknowledged,
        Event::EditorClosed,
        Event::ShellClosed,
        Event::Failed(GraderError::Network),
    ] {
        assert_eq!(failed.advance(event, &pattern), Action::Stop);
        assert_eq!(failed.stage(), Stage::Failed(GraderError::AttachmentNotFound));
    }
    let mut done = EntryPipeline::new(entry("A", Some(vec!["u"])));
    for event in [
        Event::Begin,
        Event::Unpacked,
        Event::Listed(vec![]),
        Event::Acknowledged,
        Event::ShellClosed,
    ] {
        done.advance(event, &pattern);
    }
    assert_eq!(done.stage(), Stage::Done);
    assert_eq!(done.advance(Event::Failed(GraderError::Network), &pattern), Action::Stop);
    assert_eq!(done.stage(), Stage::Done);
}

#[test]
fn an_event_out_of_turn_changes_nothing() {
    let pattern = NamePattern::new().unwrap();
    let mut pipeline = EntryPipeline::new(entry("A", Some(vec!["u"])));
    assert_eq!(pipeline.advance(Event::Unpacked, &pattern), Action::Start);
    assert_eq!(pipeline.advance(Event::ShellClosed, &pattern), Action::Start);
    assert_eq!(pipeline.stage(), Stage::Fetched);
    pipeline.advance(Event::Begin, &pattern);
    let waiting = pipeline.pending();
    assert_eq!(pipeline.advance(Event::Begin, &pattern), waiting);
    assert_eq!(pipeline.advance(Event::Listed(vec![]), &pattern), waiting);
    assert_eq!(pipeline.stage(), Stage::Downloading);
    pipeline.advance(Event::Unpacked, &pattern);
    pipeline.advance(Event::Listed(vec![file("A", "a.c", None)]), &pattern);
    // The editor does not open before the grader has seen the reports.
    assert_eq!(pipeline.advance(Event::EditorClosed, &pattern), Action::ShowReport);
    assert_eq!(pipeline.advance(Event::ShellClosed, &pattern), Action::ShowReport);
    pipeline.advance(Event::Acknowledged, &pattern);
    // The shell does not open before every file has been reviewed.
    assert_eq!(
        pipeline.advance(Event::ShellClosed, &pattern),
        Action::OpenEditor { path: "A/a.c".to_string() }
    );
    assert_eq!(pipeline.stage(), Stage::Inspecting);
}

#[test]
fn without_files_to_review_the_shell_opens_at_once() {
    let pattern = NamePattern::new().unwrap();
    let mut pipeline = EntryPipeline::new(entry("A", Some(vec!["u"])));
    pipeline.advance(Event::Begin, &pattern);
    pipeline.advance(Event::Unpacked, &pattern);
    pipeline.advance(Event::Listed(vec![file("A", "notes.txt", None)]), &pattern);
    assert_eq!(
        pipeline.advance(Event::Acknowledged, &pattern),
        Action::OpenShell { directory: "A".to_string() }
    );
    assert_eq!(pipeline.advance(Event::EditorClosed, &pattern), Action::OpenShell { directory: "A".to_string() });
}

#[test]
fn a_batch_hands_out_the_chosen_entries_in_order() {
    let selection = Selection::new(vec![
        entry("a", Some(vec!["u"])),
        entry("b", Some(vec!["u"])),
        entry("c", Some(vec!["u"])),
    ]);
    let mut batch = Batch::new(selection, vec![0, 2]);
    assert_eq!(batch.next_entry(), Ok(Some(entry("a", Some(vec!["u"])))));
    batch.entry_ended(Stage::Done);
    assert_eq!(batch.next_entry(), Ok(Some(entry("c", Some(vec!["u"])))));
    batch.entry_ended(Stage::Done);
    assert_eq!(batch.next_entry(), Ok(None));
    assert_eq!(batch.next_entry(), Ok(None));
    assert_eq!(batch.halted(), None);
}

#[test]
fn entries_before_a_failing_one_are_processed() {
    let pattern = NamePattern::new().unwrap();
    let selection = Selection::new(vec![
        entry("a", Some(vec!["https://files/a.zip"])),
        entry("b", Some(vec![])),
        entry("c", Some(vec!["https://files/c.zip"])),
    ]);
    let mut batch = Batch::new(selection, vec![0, 1, 2]);
    let mut processed = vec![];
    let outcome = loop {
        match batch.next_entry() {
            Ok(Some(submission)) => {
                let name = submission.user_profile.sortable_name.clone();
                let mut pipeline = EntryPipeline::new(submission);
                let mut action = pipeline.advance(Event::Begin, &pattern);
                loop {
                    let event = match action {
                        Action::Download { .. } => Event::Unpacked,
                        Action::ListFiles { .. } => Event::Listed(vec![]),
                        Action::ShowReport => Event::Acknowledged,
                        Action::OpenEditor { .. } => Event::EditorClosed,
                        Action::OpenShell { .. } => Event::ShellClosed,
                        Action::Start => Event::Begin,
                        Action::Stop => break,
                    };
                    action = pipeline.advance(event, &pattern);
                }
                processed.push((name, pipeline.stage()));
                batch.entry_ended(pipeline.stage());
            }
            Ok(None) => break Ok(()),
            Err(kind) => break Err(kind),
        }
    };
    assert_eq!(outcome, Err(GraderError::AttachmentNotFound));
    assert_eq!(
        processed,
        vec![
            ("a".to_string(), Stage::Done),
            ("b".to_string(), Stage::Failed(GraderError::AttachmentNotFound)),
        ]
    );
    assert_eq!(batch.halted(), Some(GraderError::AttachmentNotFound));
    assert_eq!(batch.next_entry(), Err(GraderError::AttachmentNotFound));
}

#[test]
fn a_slot_chosen_twice_stops_the_batch() {
    let selection = Selection::new(vec![entry("a", None), entry("b", None)]);
    let mut batch = Batch::new(selection, vec![1, 1, 0]);
    assert_eq!(batch.next_entry(), Ok(Some(entry("b", None))));
    batch.entry_ended(Stage::Done);
    assert_eq!(batch.next_entry(), Err(GraderError::InvalidSelection));
    assert_eq!(batch.halted(), Some(GraderError::InvalidSelection));
    assert_eq!(batch.next_entry(), Err(GraderError::InvalidSelection));
}

#[test]
fn a_slot_past_the_portion_stops_the_batch() {
    let selection = Selection::new(vec![entry("a", None)]);
    let mut batch = Batch::new(selection, vec![3, 0]);
    assert_eq!(batch.next_entry(), Err(GraderError::InvalidSelection));
    assert_eq!(batch.next_entry(), Err(GraderError::InvalidSelection));
}

#[test]
fn only_a_failed_entry_stops_the_batch() {
    let selection = Selection::new(vec![entry("a", None), entry("b", None)]);
    let mut batch = Batch::new(selection, vec![0, 1]);
    assert!(batch.next_entry().is_ok());
    batch.entry_ended(Stage::Inspecting);
    batch.entry_ended(Stage::Done);
    assert_eq!(batch.halted(), None);
    batch.entry_ended(Stage::Failed(GraderError::Network));
    assert_eq!(batch.halted(), Some(GraderError::Network));
    // The first failure is the one that is kept.
    batch.entry_ended(Stage::Failed(GraderError::Archive));
    assert_eq!(batch.halted(), Some(GraderError::Network));
    assert_eq!(batch.next_entry(), Err(GraderError::Network));
}

#[test]
fn the_editor_falls_back_to_vi() {
    assert_eq!(editor_command(None), "vi");
    assert_eq!(editor_command(Some("nano".to_string())), "nano");
    assert_eq!(editor_command(Some(String::new())), "");
}

#[test]
fn the_shell_starts_in_the_directory() {
    assert_eq!(shell_command("Smith, John"), "cd 'Smith, John'; exec ${SHELL:-sh}");
    assert_eq!(shell_command(""), "cd ''; exec ${SHELL:-sh}");
}

#[test]
fn errors_are_shown_by_name() {
    assert_eq!(GraderError::AttachmentNotFound.name(), "AttachmentNotFound");
    assert_eq!(GraderError::InvalidSelection.name(), "InvalidSelection");
    assert_eq!(GraderError::MissingUserId.name(), "MissingUserId");
    assert_eq!(GraderError::Network.name(), "Network");
    assert_eq!(GraderError::Filesystem.name(), "Filesystem");
    assert_eq!(GraderError::Archive.name(), "Archive");
    assert_eq!(GraderError::PatternRejected.name(), "PatternRejected");
}
