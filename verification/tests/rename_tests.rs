use file_tools::rename::apply_modification;
use file_tools::rename::file_name_of;
use file_tools::rename::plan_renames;
use file_tools::rename::rename_target;
use file_tools::rename::replace_all;
use file_tools::rename::select_modification;
use file_tools::rename::ConfigError;
use file_tools::rename::Modification;

#[test]
fn start_prepends_the_text() {
    let new = apply_modification("report.txt", &Modification::Start, "2024_");
    assert_eq!(new, "2024_report.txt");
}

#[test]
fn replacement_substitutes_the_pattern() {
    let m = Modification::Replacement("report".to_string());
    let new = apply_modification("report.txt", &m, "summary");
    assert_eq!(new, "summary.txt");
}

#[test]
fn end_appends_the_text() {
    let new = apply_modification("report.txt", &Modification::End, ".bak");
    assert_eq!(new, "report.txt.bak");
}

#[test]
fn absent_pattern_leaves_the_name_unchanged() {
    let m = Modification::Replacement("draft".to_string());
    let new = apply_modification("report.txt", &m, "summary");
    assert_eq!(new, "report.txt");
}

#[test]
fn empty_pattern_leaves_the_name_unchanged() {
    let m = Modification::Replacement(String::new());
    let new = apply_modification("report.txt", &m, "x");
    assert_eq!(new, "report.txt");
}

#[test]
fn replacement_is_left_to_right_and_non_overlapping() {
    assert_eq!(replace_all("aaa", "aa", "b"), "ba");
    assert_eq!(replace_all("one_one_one", "one", "1"), "1_1_1");
    assert_eq!(replace_all("report.txt", "port", ""), "re.txt");
    assert_eq!(replace_all("ab", "abc", "x"), "ab");
}

#[test]
fn conflicting_flags_are_rejected() {
    let r = select_modification(Some("a".to_string()), true, false, None);
    assert_eq!(r, Err(ConfigError::ConflictingModes));
    let r = select_modification(None, true, true, Some("x".to_string()));
    assert_eq!(r, Err(ConfigError::ConflictingModes));
    let r = select_modification(Some("a".to_string()), true, true, Some("x".to_string()));
    assert_eq!(r, Err(ConfigError::ConflictingModes));
}

#[test]
fn no_strategy_is_rejected() {
    let r = select_modification(None, false, false, Some("x".to_string()));
    assert_eq!(r, Err(ConfigError::NoModification));
}

#[test]
fn start_and_end_need_the_companion_text() {
    let r = select_modification(None, true, false, None);
    assert_eq!(r, Err(ConfigError::MissingWith));
    let r = select_modification(None, false, true, None);
    assert_eq!(r, Err(ConfigError::MissingWith));
}

#[test]
fn each_single_flag_selects_its_strategy() {
    let r = select_modification(Some("pat".to_string()), false, false, Some("w".to_string()));
    assert_eq!(
        r,
        Ok((Modification::Replacement("pat".to_string()), "w".to_string()))
    );
    // the replacement text may be left out: occurrences are then deleted
    let r = select_modification(Some("pat".to_string()), false, false, None);
    assert_eq!(
        r,
        Ok((Modification::Replacement("pat".to_string()), String::new()))
    );
    let r = select_modification(None, true, false, Some("w".to_string()));
    assert_eq!(r, Ok((Modification::Start, "w".to_string())));
    let r = select_modification(None, false, true, Some("w".to_string()));
    assert_eq!(r, Ok((Modification::End, "w".to_string())));
}

#[test]
fn file_name_is_the_part_after_the_last_separator() {
    assert_eq!(file_name_of("dir/sub/report.txt"), "report.txt");
    assert_eq!(file_name_of("report.txt"), "report.txt");
    assert_eq!(file_name_of("dir/"), "");
}

#[test]
fn rename_target_keeps_the_directory_part() {
    let new = rename_target("dir/sub/report.txt", &Modification::Start, "x_");
    assert_eq!(new, "dir/sub/x_report.txt");
    let m = Modification::Replacement("sub".to_string());
    let new = rename_target("sub/sub.txt", &m, "top");
    assert_eq!(new, "sub/top.txt");
    let new = rename_target("report.txt", &Modification::End, "~");
    assert_eq!(new, "report.txt~");
}

#[test]
fn one_job_is_planned_per_file() {
    let paths = vec![
        "d/a.txt".to_string(),
        "d/e/b.txt".to_string(),
        "d/c.txt".to_string(),
    ];
    let jobs = plan_renames(&paths, &Modification::Start, "n_");
    assert_eq!(jobs.len(), 3);
    assert_eq!(jobs[0].old_path, "d/a.txt");
    assert_eq!(jobs[0].new_path, "d/n_a.txt");
    assert_eq!(jobs[1].old_path, "d/e/b.txt");
    assert_eq!(jobs[1].new_path, "d/e/n_b.txt");
    assert_eq!(jobs[2].old_path, "d/c.txt");
    assert_eq!(jobs[2].new_path, "d/n_c.txt");
}
