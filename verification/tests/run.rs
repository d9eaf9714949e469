use mdreplace::protocol::{Action, Config, Event, Outcome, Rename};
use mdreplace::run::Run;
use std::collections::BTreeMap;
use std::collections::BTreeSet;

/// A disk in memory, and a record of what was done to it.
struct Disk {
    files: BTreeMap<String, String>,
    dirs: BTreeSet<String>,
    log: Vec<String>,
    /// The number of actions after which every action fails.
    fail_after: usize,
    /// Whether a removed directory stays where it is.
    sticky_dirs: bool,
}

fn disk(files: &[(&str, &str)]) -> Disk {
    Disk {
        files: files.iter().map(|(p, t)| (p.to_string(), t.to_string())).collect(),
        dirs: BTreeSet::new(),
        log: Vec::new(),
        fail_after: usize::MAX,
        sticky_dirs: false,
    }
}

fn under(dir: &str, path: &str) -> bool {
    let prefix = if dir.ends_with('/') { dir.to_string() } else { format!("{}/", dir) };
    path.starts_with(&prefix)
}

fn perform(d: &mut Disk, action: &Action) -> Event {
    if d.log.len() >= d.fail_after {
        return Event::Failed;
    }
    d.log.push(format!("{:?}", action));
    match action {
        Action::List { dir } => Event::Listed {
            entries: d.files.keys().filter(|p| under(dir, p)).cloned().collect(),
        },
        Action::Probe { path } => Event::Probed {
            exists: d.files.contains_key(path) || d.dirs.contains(path),
        },
        Action::CreateDir { path } => {
            d.dirs.insert(path.to_string());
            Event::Done
        }
        Action::Read { path } => match d.files.get(path) {
            Some(text) => Event::Text { text: text.to_string() },
            None => Event::Failed,
        },
        Action::Write { path, text } => {
            d.files.insert(path.to_string(), text.to_string());
            Event::Done
        }
        Action::Move { staged, destination, replace } => {
            if !replace && d.files.contains_key(destination) {
                return Event::Failed;
            }
            match d.files.remove(staged) {
                Some(text) => {
                    d.files.insert(destination.to_string(), text);
                    Event::Done
                }
                None => Event::Failed,
            }
        }
        Action::Remove { path } => match d.files.remove(path) {
            Some(_) => Event::Done,
            None => Event::Failed,
        },
        Action::RemoveDir { path } => {
            if d.sticky_dirs {
                return Event::Probed { exists: true };
            }
            d.dirs.remove(path);
            let inside: Vec<String> = d.files.keys().filter(|p| under(path, p)).cloned().collect();
            for p in inside {
                d.files.remove(&p);
            }
            Event::Probed { exists: false }
        }
        Action::Finish { .. } => unreachable!(),
    }
}

fn config(from: &str, to: &str, write: bool) -> Config {
    Config {
        target_dir: "notes".to_string(),
        staging_dir: "./temp/".to_string(),
        from: from.to_string(),
        to: to.to_string(),
        write,
    }
}

fn drive(d: &mut Disk, config: Config) -> Outcome {
    let (mut run, mut action) = Run::start(config);
    for _ in 0..10_000 {
        if let Action::Finish { outcome } = action {
            assert_eq!(run.outcome(), Some(outcome));
            return run.outcome().unwrap();
        }
        assert_eq!(run.outcome(), None);
        let event = perform(d, &action);
        let (next_run, next_action) = run.step(event);
        run = next_run;
        action = next_action;
    }
    panic!("the run did not end");
}

fn files(d: &Disk) -> Vec<(String, String)> {
    d.files.iter().map(|(p, t)| (p.to_string(), t.to_string())).collect()
}

fn pairs(items: &[(&str, &str)]) -> Vec<(String, String)> {
    let mut all: Vec<(String, String)> =
        items.iter().map(|(p, t)| (p.to_string(), t.to_string())).collect();
    all.sort();
    all
}

fn mutations(d: &Disk) -> Vec<&String> {
    d.log
        .iter()
        .filter(|a| !(a.starts_with("List") || a.starts_with("Probe") || a.starts_with("Read")))
        .collect()
}

#[test]
fn renames_and_rewrites_a_note() {
    let mut d = disk(&[("notes/note-alpha.md", "Hello alpha world")]);
    let outcome = drive(&mut d, config("alpha", "beta", true));
    assert_eq!(outcome, Outcome::Success { text_updates: 1, files_moved: 1 });
    assert_eq!(files(&d), pairs(&[("notes/note-beta.md", "Hello beta world")]));
    assert!(d.dirs.is_empty());
    assert_eq!(outcome.exit_code(), 0);
}

#[test]
fn asks_for_the_steps_in_order() {
    let mut d = disk(&[("notes/note-alpha.md", "Hello alpha world")]);
    drive(&mut d, config("alpha", "beta", true));
    let expected = vec![
        format!("{:?}", Action::List { dir: "notes".to_string() }),
        format!("{:?}", Action::Probe { path: "./temp/".to_string() }),
        format!("{:?}", Action::CreateDir { path: "./temp/".to_string() }),
        format!("{:?}", Action::Read { path: "notes/note-alpha.md".to_string() }),
        format!(
            "{:?}",
            Action::Write {
                path: "./temp/note-alpha.md".to_string(),
                text: "Hello beta world".to_string()
            }
        ),
        format!("{:?}", Action::Probe { path: "notes/note-beta.md".to_string() }),
        format!(
            "{:?}",
            Action::Move {
                staged: "./temp/note-alpha.md".to_string(),
                destination: "notes/note-beta.md".to_string(),
                replace: false
            }
        ),
        format!("{:?}", Action::Remove { path: "notes/note-alpha.md".to_string() }),
        format!("{:?}", Action::RemoveDir { path: "./temp/".to_string() }),
    ];
    assert_eq!(d.log, expected);
}

#[test]
fn dry_run_changes_nothing_and_reports_the_same_counts() {
    let start = [
        ("notes/note-alpha.md", "Hello alpha world"),
        ("notes/plain.md", "alpha here\nand alpha there\n"),
        ("notes/other.md", "nothing"),
        ("notes/alpha.txt", "alpha"),
    ];
    let mut dry = disk(&start);
    let reported = drive(&mut dry, config("alpha", "beta", false));
    assert_eq!(reported, Outcome::Success { text_updates: 2, files_moved: 1 });
    assert_eq!(files(&dry), pairs(&start));
    assert!(dry.dirs.is_empty());
    assert!(mutations(&dry).is_empty());
    assert_eq!(reported.exit_code(), 0);

    let mut wet = disk(&start);
    let done = drive(&mut wet, config("alpha", "beta", true));
    assert_eq!(done, reported);
    assert_eq!(
        files(&wet),
        pairs(&[
            ("notes/alpha.txt", "alpha"),
            ("notes/note-beta.md", "Hello beta world"),
            ("notes/other.md", "nothing"),
            ("notes/plain.md", "beta here\nand beta there"),
        ])
    );
}

#[test]
fn a_file_without_the_string_is_neither_updated_nor_moved() {
    let mut d = disk(&[("notes/other.md", "line one\nline two")]);
    let outcome = drive(&mut d, config("alpha", "beta", true));
    assert_eq!(outcome, Outcome::Success { text_updates: 0, files_moved: 0 });
    assert_eq!(files(&d), pairs(&[("notes/other.md", "line one\nline two")]));
    assert!(d.log.iter().all(|a| !a.starts_with("Remove {")));
    assert!(d.log.contains(&format!(
        "{:?}",
        Action::Move {
            staged: "./temp/other.md".to_string(),
            destination: "notes/other.md".to_string(),
            replace: true
        }
    )));
}

#[test]
fn a_file_counts_once_however_many_lines_match() {
    let mut d = disk(&[("notes/many.md", "alpha\nalpha alpha\nx\nalpha")]);
    let outcome = drive(&mut d, config("alpha", "beta", true));
    assert_eq!(outcome, Outcome::Success { text_updates: 1, files_moved: 0 });
    assert_eq!(files(&d), pairs(&[("notes/many.md", "beta\nbeta beta\nx\nbeta")]));
}

#[test]
fn a_taken_destination_stops_the_run_before_anything_moves() {
    let start = [("notes/a-alpha.md", "alpha"), ("notes/a-beta.md", "kept")];
    let mut d = disk(&start);
    let outcome = drive(&mut d, config("alpha", "beta", true));
    assert_eq!(
        outcome,
        Outcome::Collision {
            source: "notes/a-alpha.md".to_string(),
            destination: "notes/a-beta.md".to_string(),
            staging_left: false
        }
    );
    assert_eq!(files(&d), pairs(&start));
    assert!(d.dirs.is_empty());
    assert!(d.log.iter().all(|a| !a.starts_with("Move") && !a.starts_with("Remove {")));
    assert_eq!(d.log.last().unwrap(), &format!("{:?}", Action::RemoveDir { path: "./temp/".to_string() }));
    assert_eq!(outcome.exit_code(), 1);
}

#[test]
fn a_taken_destination_stops_a_dry_run_too() {
    let start = [("notes/a-alpha.md", "alpha"), ("notes/a-beta.md", "kept")];
    let mut d = disk(&start);
    let outcome = drive(&mut d, config("alpha", "beta", false));
    assert_eq!(
        outcome,
        Outcome::Collision {
            source: "notes/a-alpha.md".to_string(),
            destination: "notes/a-beta.md".to_string(),
            staging_left: false
        }
    );
    assert_eq!(files(&d), pairs(&start));
    assert!(mutations(&d).is_empty());
}

#[test]
fn two_sources_with_one_destination_stop_the_run() {
    let start = [("notes/abb.md", "one"), ("notes/bba.md", "two")];
    let mut d = disk(&start);
    let outcome = drive(&mut d, config("a", "bb", true));
    assert_eq!(
        outcome,
        Outcome::Collision {
            source: "notes/bba.md".to_string(),
            destination: "notes/bbbb.md".to_string(),
            staging_left: false
        }
    );
    assert_eq!(files(&d), pairs(&start));
    assert!(d.dirs.is_empty());
    assert!(d.log.iter().all(|a| !a.starts_with("Move") && !a.starts_with("Remove {")));
}

#[test]
fn a_staging_directory_left_behind_stops_the_run_at_once() {
    let start = [("notes/note-alpha.md", "Hello alpha world")];
    for write in [false, true] {
        let mut d = disk(&start);
        d.dirs.insert("./temp/".to_string());
        let outcome = drive(&mut d, config("alpha", "beta", write));
        assert_eq!(outcome, Outcome::StagingExists);
        assert_eq!(files(&d), pairs(&start));
        assert!(d.dirs.contains("./temp/"));
        assert_eq!(d.log.len(), 2);
        assert_eq!(outcome.exit_code(), 1);
    }
}

#[test]
fn there_and_back_restores_names_and_text() {
    let start = [
        ("notes/note-alpha.md", "Hello alpha world\nalpha"),
        ("notes/other.md", "nothing\nhere"),
    ];
    let mut d = disk(&start);
    let there = drive(&mut d, config("alpha", "beta", true));
    assert_eq!(there, Outcome::Success { text_updates: 1, files_moved: 1 });
    let back = drive(&mut d, config("beta", "alpha", true));
    assert_eq!(back, Outcome::Success { text_updates: 1, files_moved: 1 });
    assert_eq!(files(&d), pairs(&start));
}

#[test]
fn a_failed_step_stops_the_run_and_names_what_was_completed() {
    let start = [("notes/a-alpha.md", "alpha"), ("notes/b-alpha.md", "alpha"), ("notes/c.md", "c")];
    let mut d = disk(&start);
    // list, probe, create, 3 x (read, write), 2 probes, move a, remove a, move b
    d.fail_after = 14;
    let outcome = drive(&mut d, config("alpha", "beta", true));
    assert_eq!(outcome, Outcome::Failed { completed: vec!["notes/a-alpha.md".to_string()] });
    assert_eq!(outcome.exit_code(), 1);
    assert!(d.files.contains_key("notes/a-beta.md"));
    assert!(d.files.contains_key("notes/b-beta.md"));
    assert!(d.files.contains_key("notes/b-alpha.md"));
    assert!(d.dirs.contains("./temp/"));
}

#[test]
fn a_directory_that_cannot_be_listed_fails_the_run() {
    let mut d = disk(&[]);
    d.fail_after = 0;
    let outcome = drive(&mut d, config("alpha", "beta", true));
    assert_eq!(outcome, Outcome::Failed { completed: vec![] });
    assert!(d.log.is_empty());
}

#[test]
fn an_event_of_the_wrong_kind_stops_the_run() {
    let (run, action) = Run::start(config("alpha", "beta", true));
    assert_eq!(action, Action::List { dir: "notes".to_string() });
    let (run, action) = run.step(Event::Done);
    assert_eq!(action, Action::Finish { outcome: Outcome::Failed { completed: vec![] } });
    assert_eq!(run.outcome(), Some(Outcome::Failed { completed: vec![] }));
}

#[test]
fn a_run_that_has_ended_stays_ended() {
    let (run, _) = Run::start(config("alpha", "beta", false));
    let (run, _) = run.step(Event::Listed { entries: vec![] });
    let (run, action) = run.step(Event::Probed { exists: false });
    let done = Action::Finish { outcome: Outcome::Success { text_updates: 0, files_moved: 0 } };
    assert_eq!(action, done);
    let (run, action) = run.step(Event::Done);
    assert_eq!(action, done);
    let (run, action) = run.step(Event::Failed);
    assert_eq!(action, done);
    assert_eq!(run.pending(), done);
}

#[test]
fn staging_that_cannot_be_removed_fails_a_completed_run() {
    let mut d = disk(&[("notes/note-alpha.md", "Hello alpha world")]);
    d.sticky_dirs = true;
    let outcome = drive(&mut d, config("alpha", "beta", true));
    assert_eq!(outcome, Outcome::CleanupFailed { text_updates: 1, files_moved: 1 });
    assert_eq!(outcome.exit_code(), 1);
    assert!(d.files.contains_key("notes/note-beta.md"));
}

#[test]
fn staging_that_cannot_be_removed_is_told_with_the_collision() {
    let mut d = disk(&[("notes/a-alpha.md", "alpha"), ("notes/a-beta.md", "kept")]);
    d.sticky_dirs = true;
    let outcome = drive(&mut d, config("alpha", "beta", true));
    assert_eq!(
        outcome,
        Outcome::Collision {
            source: "notes/a-alpha.md".to_string(),
            destination: "notes/a-beta.md".to_string(),
            staging_left: true
        }
    );
}

#[test]
fn replacement_reaches_the_directory_part_of_the_path() {
    let mut d = disk(&[("notes/x.md", "text")]);
    d.fail_after = 6;
    let outcome = drive(&mut d, config("notes", "books", true));
    assert_eq!(outcome, Outcome::Failed { completed: vec![] });
    assert_eq!(d.log[5], format!("{:?}", Action::Probe { path: "books/x.md".to_string() }));
}

#[test]
fn only_markdown_entries_are_read() {
    let mut d = disk(&[
        ("notes/a.md", "alpha"),
        ("notes/b.txt", "alpha"),
        ("notes/.md", "alpha"),
        ("notes/c.md.bak", "alpha"),
        ("elsewhere/d.md", "alpha"),
    ]);
    let outcome = drive(&mut d, config("alpha", "beta", false));
    assert_eq!(outcome, Outcome::Success { text_updates: 1, files_moved: 0 });
    let reads: Vec<&String> = d.log.iter().filter(|a| a.starts_with("Read")).collect();
    assert_eq!(reads, vec![&format!("{:?}", Action::Read { path: "notes/a.md".to_string() })]);
}

#[test]
fn says_which_actions_change_the_disk() {
    let p = || "p".to_string();
    assert!(!Action::List { dir: p() }.mutates());
    assert!(!Action::Probe { path: p() }.mutates());
    assert!(!Action::Read { path: p() }.mutates());
    assert!(!Action::Finish { outcome: Outcome::StagingExists }.mutates());
    assert!(Action::CreateDir { path: p() }.mutates());
    assert!(Action::Write { path: p(), text: p() }.mutates());
    assert!(Action::Move { staged: p(), destination: p(), replace: false }.mutates());
    assert!(Action::Remove { path: p() }.mutates());
    assert!(Action::RemoveDir { path: p() }.mutates());
}

#[test]
fn lists_the_files_that_go_to_another_path() {
    let (run, _) = Run::start(config("alpha", "beta", false));
    assert_eq!(run.renames(), vec![]);
    let entries = vec![
        "notes/note-alpha.md".to_string(),
        "notes/other.md".to_string(),
        "notes/alpha.txt".to_string(),
        "notes/alpha-alpha.md".to_string(),
    ];
    let (run, _) = run.step(Event::Listed { entries });
    assert_eq!(
        run.renames(),
        vec![
            Rename {
                source: "notes/note-alpha.md".to_string(),
                destination: "notes/note-beta.md".to_string()
            },
            Rename {
                source: "notes/alpha-alpha.md".to_string(),
                destination: "notes/beta-beta.md".to_string()
            },
        ]
    );
}

#[test]
fn counts_as_many_moves_as_it_lists() {
    let mut d = disk(&[
        ("notes/a-alpha.md", "x"),
        ("notes/b-alpha.md", "x"),
        ("notes/c.md", "alpha"),
    ]);
    let (mut run, mut action) = Run::start(config("alpha", "beta", false));
    while !matches!(action, Action::Finish { .. }) {
        let event = perform(&mut d, &action);
        (run, action) = run.step(event);
    }
    assert_eq!(action, Action::Finish { outcome: Outcome::Success { text_updates: 1, files_moved: 2 } });
    assert_eq!(run.renames().len(), 2);
}

#[test]
fn replacing_a_string_by_itself_updates_but_moves_nothing() {
    let start = [("notes/note-alpha.md", "Hello alpha world")];
    let mut d = disk(&start);
    let outcome = drive(&mut d, config("alpha", "alpha", true));
    assert_eq!(outcome, Outcome::Success { text_updates: 1, files_moved: 0 });
    assert_eq!(files(&d), pairs(&start));
}
