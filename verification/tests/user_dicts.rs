use karukan::user_dicts::{check_due, FileStamp, UserDictWatcher, USER_DICT_CHECK_INTERVAL_MS};

fn stamp(mtime: i128, size: u64) -> FileStamp {
    FileStamp { mtime_nanos: mtime, size }
}

fn scan(entries: &[(&str, FileStamp)]) -> Vec<(String, FileStamp)> {
    entries.iter().map(|(p, s)| (p.to_string(), *s)).collect()
}

/// Loads what the plan asks for from `contents` (`None` = a broken file).
fn load(
    watcher: &UserDictWatcher<String>,
    current: &Vec<(String, FileStamp)>,
    contents: &[Option<&str>],
) -> Vec<Option<String>> {
    let plan = watcher.plan(current);
    plan.iter()
        .zip(contents)
        .map(|(need, c)| if *need { c.map(|s| s.to_string()) } else { None })
        .collect()
}

fn dicts(watcher: &UserDictWatcher<String>) -> Vec<Option<String>> {
    watcher.files().iter().map(|f| f.dict.clone()).collect()
}

#[test]
fn first_scan_loads_every_file_in_scan_order() {
    let mut w: UserDictWatcher<String> = UserDictWatcher::new("/u".to_string());
    let current = scan(&[("/u/a.tsv", stamp(1, 10)), ("/u/b.tsv", stamp(2, 20))]);
    assert_eq!(w.plan(&current), vec![true, true]);
    let loads = load(&w, &current, &[Some("わせだ 早稲田"), Some("めいだい 明大")]);
    assert!(w.refresh(current, loads), "first refresh is a change");
    assert_eq!(dicts(&w), vec![Some("わせだ 早稲田".to_string()), Some("めいだい 明大".to_string())]);
    assert_eq!(w.dir(), "/u");
}

#[test]
fn same_scan_is_no_change() {
    let mut w: UserDictWatcher<String> = UserDictWatcher::new("/u".to_string());
    let current = scan(&[("/u/a.tsv", stamp(1, 10))]);
    let loads = load(&w, &current, &[Some("a")]);
    assert!(w.refresh(current.clone(), loads));
    assert_eq!(w.plan(&current), vec![false]);
    let loads = load(&w, &current, &[Some("ignored")]);
    assert!(!w.refresh(current, loads), "no files changed");
    assert_eq!(dicts(&w), vec![Some("a".to_string())]);
}

#[test]
fn moved_stamp_reloads_the_file() {
    let mut w: UserDictWatcher<String> = UserDictWatcher::new("/u".to_string());
    let current = scan(&[("/u/a.tsv", stamp(1, 10))]);
    let loads = load(&w, &current, &[Some("old")]);
    w.refresh(current, loads);
    let current = scan(&[("/u/a.tsv", stamp(2, 12))]);
    assert_eq!(w.plan(&current), vec![true]);
    let loads = load(&w, &current, &[Some("new")]);
    assert!(w.refresh(current, loads), "edit detected");
    assert_eq!(dicts(&w), vec![Some("new".to_string())]);
}

#[test]
fn vanished_files_leave_the_watcher() {
    let mut w: UserDictWatcher<String> = UserDictWatcher::new("/u".to_string());
    let current = scan(&[("/u/a.tsv", stamp(1, 10)), ("/u/b.tsv", stamp(1, 10))]);
    let loads = load(&w, &current, &[Some("a"), Some("b")]);
    w.refresh(current, loads);
    let current = scan(&[("/u/b.tsv", stamp(1, 10))]);
    let loads = load(&w, &current, &[None]);
    assert!(w.refresh(current, loads), "removal detected");
    assert_eq!(dicts(&w), vec![Some("b".to_string())]);
    assert!(w.refresh(Vec::new(), Vec::new()), "removal detected");
    assert!(w.files().is_empty());
}

#[test]
fn failed_reload_keeps_the_last_good_dictionary() {
    let mut w: UserDictWatcher<String> = UserDictWatcher::new("/u".to_string());
    let current = scan(&[("/u/a.tsv", stamp(1, 10))]);
    let loads = load(&w, &current, &[Some("good")]);
    w.refresh(current, loads);
    let current = scan(&[("/u/a.tsv", stamp(2, 7))]);
    let loads = load(&w, &current, &[None]);
    assert!(w.refresh(current.clone(), loads), "change detected");
    assert_eq!(dicts(&w), vec![Some("good".to_string())], "last good is kept");
    // The stamp advanced: the broken file is not retried until it changes.
    assert_eq!(w.plan(&current), vec![false]);
    let current = scan(&[("/u/a.tsv", stamp(3, 9))]);
    let loads = load(&w, &current, &[Some("fixed")]);
    assert!(w.refresh(current, loads));
    assert_eq!(dicts(&w), vec![Some("fixed".to_string())]);
}

#[test]
fn broken_new_file_serves_nothing() {
    let mut w: UserDictWatcher<String> = UserDictWatcher::new("/u".to_string());
    let current = scan(&[("/u/a.tsv", stamp(1, 10))]);
    let loads = load(&w, &current, &[None]);
    assert!(w.refresh(current, loads));
    assert_eq!(dicts(&w), vec![None]);
}

#[test]
fn empty_scan_is_no_change_until_files_appear() {
    let mut w: UserDictWatcher<String> = UserDictWatcher::new("/not-yet".to_string());
    assert!(!w.refresh(Vec::new(), Vec::new()), "nothing to load, no change");
    let current = scan(&[("/not-yet/a.tsv", stamp(1, 1))]);
    let loads = load(&w, &current, &[Some("a")]);
    assert!(w.refresh(current, loads), "new files detected");
}

#[test]
fn loads_for_unplanned_files_are_ignored() {
    let mut w: UserDictWatcher<String> = UserDictWatcher::new("/u".to_string());
    let first = scan(&[("/u/a.tsv", stamp(1, 10)), ("/u/b.tsv", stamp(2, 20))]);
    assert!(w.refresh(first, vec![Some("a".to_string()), Some("b".to_string())]));
    let second = scan(&[("/u/a.tsv", stamp(1, 10)), ("/u/b.tsv", stamp(3, 20)), ("/u/c.tsv", stamp(1, 1))]);
    assert_eq!(w.plan(&second), vec![false, true, true]);
    assert!(w.refresh(second, vec![Some("ignored".to_string()), None, Some("c".to_string())]));
    assert_eq!(dicts(&w), vec![Some("a".to_string()), Some("b".to_string()), Some("c".to_string())]);
}

#[test]
fn checks_are_throttled() {
    // A check that just ran suppresses the next one for the interval.
    assert!(check_due(None));
    assert!(!check_due(Some(0)));
    assert!(!check_due(Some(1999)));
    assert!(check_due(Some(USER_DICT_CHECK_INTERVAL_MS)));
    assert!(check_due(Some(60_000)));
    assert_eq!(USER_DICT_CHECK_INTERVAL_MS, 2000);
}

#[test]
fn files_stay_in_path_order() {
    // The scan comes in path order and the watcher keeps it: the merge
    // gives earlier paths priority, alphabetically as the one-shot loader did.
    let mut w: UserDictWatcher<String> = UserDictWatcher::new("/u".to_string());
    let current = scan(&[("/u/a.tsv", stamp(1, 1)), ("/u/b.tsv", stamp(1, 1)), ("/u/c.tsv", stamp(1, 1))]);
    let loads = load(&w, &current, &[Some("a"), Some("b"), Some("c")]);
    w.refresh(current, loads);
    let current = scan(&[("/u/a.tsv", stamp(1, 1)), ("/u/ab.tsv", stamp(1, 1)), ("/u/c.tsv", stamp(2, 1))]);
    let loads = load(&w, &current, &[None, Some("ab"), Some("c2")]);
    assert!(w.refresh(current, loads));
    let paths: Vec<&str> = w.files().iter().map(|f| f.path.as_str()).collect();
    assert_eq!(paths, vec!["/u/a.tsv", "/u/ab.tsv", "/u/c.tsv"]);
    assert_eq!(dicts(&w), vec![Some("a".to_string()), Some("ab".to_string()), Some("c2".to_string())]);
}
