use rss_core::persist::{
    after_primary, after_temp, next_persist_action, temp_name, temp_needed, write_target, Loaded,
    LoadStep, PersistAction, PersistNext, WriteTarget, ARTICLES_FILE, FEEDS_FILE, READ_FILE,
    SEEN_FILE,
};

fn run(outcomes: &[bool]) -> (Vec<PersistAction>, PersistNext) {
    let mut done = None;
    let mut taken = Vec::new();
    let mut outcomes = outcomes.iter();
    loop {
        match next_persist_action(done) {
            PersistNext::Take(action) => match outcomes.next() {
                Some(ok) => {
                    taken.push(action);
                    done = Some((action, *ok));
                }
                None => return (taken, PersistNext::Take(action)),
            },
            end => return (taken, end),
        }
    }
}

#[test]
fn a_store_is_written_to_the_temp_file_and_then_renamed() {
    let (taken, end) = run(&[true, true, true]);
    assert_eq!(
        taken,
        vec![PersistAction::CreateParent, PersistAction::WriteTemp, PersistAction::Rename]
    );
    assert_eq!(end, PersistNext::Written);
    assert_eq!(next_persist_action(None), PersistNext::Take(PersistAction::CreateParent));
    assert_eq!(
        next_persist_action(Some((PersistAction::Rename, true))),
        PersistNext::Written
    );
}

#[test]
fn a_failed_temp_write_is_never_renamed() {
    assert_eq!(
        next_persist_action(Some((PersistAction::WriteTemp, false))),
        PersistNext::GivenUp(PersistAction::WriteTemp)
    );
    assert_eq!(
        next_persist_action(Some((PersistAction::WriteTemp, true))),
        PersistNext::Take(PersistAction::Rename)
    );
    for first in [true, false] {
        for last in [true, false] {
            let (taken, end) = run(&[first, false, last]);
            assert_eq!(taken, vec![PersistAction::CreateParent, PersistAction::WriteTemp]);
            assert_eq!(end, PersistNext::GivenUp(PersistAction::WriteTemp));
        }
    }
}

#[test]
fn a_failed_rename_ends_the_write_as_given_up() {
    let (taken, end) = run(&[true, true, false]);
    assert_eq!(
        taken,
        vec![PersistAction::CreateParent, PersistAction::WriteTemp, PersistAction::Rename]
    );
    assert_eq!(end, PersistNext::GivenUp(PersistAction::Rename));
}

#[test]
fn a_directory_that_cannot_be_made_does_not_end_the_write() {
    assert_eq!(
        next_persist_action(Some((PersistAction::CreateParent, false))),
        PersistNext::Take(PersistAction::WriteTemp)
    );
    let (taken, end) = run(&[false, true, true]);
    assert_eq!(taken.len(), 3);
    assert_eq!(end, PersistNext::Written);
}

#[test]
fn write_target_names_the_temp_file_beside_the_store() {
    let target = write_target("/cfg/readrss/seen_store.json");
    assert_eq!(target.path, "/cfg/readrss/seen_store.json");
    assert_eq!(target.temp_path, "/cfg/readrss/seen_store.json.tmp");
    assert_eq!(
        write_target("seen"),
        WriteTarget { path: "seen".to_string(), temp_path: "seen.tmp".to_string() }
    );
}

#[test]
fn temp_file_is_read_only_behind_a_corrupt_store_file() {
    assert!(temp_needed(&Loaded::<u8>::Corrupt));
    assert!(!temp_needed(&Loaded::<u8>::Missing));
    assert!(!temp_needed(&Loaded::Parsed(1u8)));
}

fn recover(primary: Loaded<&'static str>, temp: Loaded<&'static str>) -> Option<&'static str> {
    match after_primary(primary) {
        LoadStep::Done(value) => value,
        LoadStep::ReadTemp => after_temp(temp),
    }
}

#[test]
fn an_interrupted_write_recovers_the_old_or_the_new_state() {
    let old = Loaded::Parsed("old");
    assert_eq!(recover(old, Loaded::Missing), Some("old"));
    assert_eq!(recover(old, Loaded::Corrupt), Some("old"));
    assert_eq!(recover(old, Loaded::Parsed("new")), Some("old"));
    assert_eq!(recover(Loaded::Parsed("new"), Loaded::Missing), Some("new"));
}

#[test]
fn an_interrupted_first_write_recovers_the_default_or_the_new_state() {
    assert_eq!(recover(Loaded::Missing, Loaded::Missing), None);
    assert_eq!(recover(Loaded::Missing, Loaded::Corrupt), None);
    assert_eq!(recover(Loaded::Missing, Loaded::Parsed("new")), None);
    assert_eq!(recover(Loaded::Parsed("new"), Loaded::Missing), Some("new"));
}

#[test]
fn temp_file_stands_beside_the_store_file() {
    assert_eq!(FEEDS_FILE, "feeds.json");
    assert_eq!(READ_FILE, "read_store.json");
    assert_eq!(ARTICLES_FILE, "articles_store.json");
    assert_eq!(SEEN_FILE, "seen_store.json");
    assert_eq!(temp_name(FEEDS_FILE), "feeds.json.tmp");
    assert_eq!(temp_name(READ_FILE), "read_store.json.tmp");
    assert_eq!(temp_name(""), ".tmp");
}
