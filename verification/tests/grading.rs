use kasm::args::GradeCmd;
use kasm::config::{Grade, Grades, MasterCfg, Source, Structure};
use kasm::error::KasmError;
use kasm::grade::{apply_grade, grade, infer_target, resolve_target};
use kasm::gradingtable::GradingRecord;
use kasm::pattern::{belongs_to, PatternMatcher};

const FIRST_PARENS: &str = r"\(([0-9]+)\)";

fn entry(target: &str, grade: &str) -> Grade {
    Grade { target: target.to_string(), internal_id: None, members: None, grade: grade.to_string() }
}

fn ledger(entries: Vec<Grade>) -> Grades {
    Grades {
        location: "unpack_12/grades.toml".to_string(),
        assign_id: None,
        source: Source::CsvAndZip,
        sheet_id: "12".to_string(),
        map: entries,
    }
}

fn master(regex: &str) -> MasterCfg {
    MasterCfg {
        location: "kasm.toml".to_string(),
        moodle_token: String::new(),
        moodle_course_id: None,
        groups_regex: regex.to_string(),
        group: Some("12".to_string()),
        recursive_unzip: false,
        repack_filter: None,
        unpack_structure: Structure::Groups,
        repack_structure: Structure::Groups,
    }
}

fn path(segments: &[&str]) -> Vec<String> {
    segments.iter().map(|s| s.to_string()).collect()
}

fn pairs(grades: &Grades) -> Vec<(&str, &str)> {
    grades.map.iter().map(|g| (g.target.as_str(), g.grade.as_str())).collect()
}

#[test]
fn target_that_classifies_to_no_entry_is_refused() {
    let before = ledger(vec![entry("(12)TeamA(07)", "1,0"), entry("(12)TeamB(07)", "1,3")]);
    let cmd = GradeCmd { grade: "2,0".to_string(), target: Some("TeamA".to_string()) };
    let r = grade(&master(FIRST_PARENS), &cmd, &before, &path(&["/", "home", "unpack_12", "x"]));
    assert_eq!(r.unwrap_err(), KasmError::NoMatchingGroup);
    assert_eq!(KasmError::NoMatchingGroup.message(), "no matching group found!");
    assert_eq!(pairs(&before), vec![("(12)TeamA(07)", "1,0"), ("(12)TeamB(07)", "1,3")]);
}

#[test]
fn first_entry_of_the_target_is_overwritten_and_the_rest_kept() {
    let reg = PatternMatcher::new(r"Team ([0-9]+)").unwrap();
    let mut first = entry("Gruppe 12 -- Team 07", "1,0");
    first.internal_id = Some("4711".to_string());
    first.members = Some(vec!["1".to_string(), "2".to_string()]);
    let before = ledger(vec![
        entry("Gruppe 12 -- Team 03", "5,0"),
        first,
        entry("Gruppe 12 -- Team 07", "3,0"),
        entry("Gruppe 12 -- Team 09", "4,0"),
    ]);
    let after = apply_grade(&before, &reg, "07", "2,0").unwrap();
    assert_eq!(
        pairs(&after),
        vec![
            ("Gruppe 12 -- Team 03", "5,0"),
            ("Gruppe 12 -- Team 07", "2,0"),
            ("Gruppe 12 -- Team 07", "3,0"),
            ("Gruppe 12 -- Team 09", "4,0"),
        ]
    );
    assert_eq!(after.map[1].internal_id.as_deref(), Some("4711"));
    assert_eq!(after.map[1].members, Some(vec!["1".to_string(), "2".to_string()]));
    assert_eq!(after.location, before.location);
    assert_eq!(after.sheet_id, before.sheet_id);
    assert_eq!(after.source, before.source);
    assert_eq!(after.assign_id, before.assign_id);
    // reading back
    assert_eq!(after.find_grade_for_target("Gruppe 12 -- Team 07").as_deref(), Some("2,0"));
    let with_grade = after
        .map
        .iter()
        .filter(|g| reg.classify(&g.target).as_deref() == Some("07") && g.grade == "2,0")
        .count();
    assert_eq!(with_grade, 1);
}

#[test]
fn grading_twice_keeps_only_the_last_grade() {
    let reg = PatternMatcher::new(r"Team ([0-9]+)").unwrap();
    let before = ledger(vec![entry("Team 07", "1,0")]);
    let once = apply_grade(&before, &reg, "07", "2,0").unwrap();
    let twice = apply_grade(&once, &reg, "07", "3,7").unwrap();
    assert_eq!(pairs(&twice), vec![("Team 07", "3,7")]);
}

#[test]
fn grade_is_free_text() {
    let reg = PatternMatcher::new(r"Team ([0-9]+)").unwrap();
    let before = ledger(vec![entry("Team 07", "1,0")]);
    let after = apply_grade(&before, &reg, "07", "not a number").unwrap();
    assert_eq!(pairs(&after), vec![("Team 07", "not a number")]);
}

#[test]
fn empty_ledger_has_no_entry_to_grade() {
    let reg = PatternMatcher::new(r"Team ([0-9]+)").unwrap();
    let r = apply_grade(&ledger(Vec::new()), &reg, "07", "2,0");
    assert_eq!(r.unwrap_err(), KasmError::NoMatchingGroup);
}

#[test]
fn target_is_read_off_the_innermost_segment_that_names_one() {
    let reg = PatternMatcher::new(r"Team ([0-9]+)").unwrap();
    let cwd = path(&["/", "Team 01", "unpack_04", "Gruppe 12 -- Team 07", "src"]);
    assert_eq!(infer_target(&reg, &cwd).as_deref(), Some("07"));
    assert_eq!(infer_target(&reg, &path(&["/", "home", "me"])), None);
    assert_eq!(infer_target(&reg, &Vec::new()), None);
    assert_eq!(resolve_target(&reg, &None, &cwd).unwrap(), "07");
    assert_eq!(resolve_target(&reg, &Some("09".to_string()), &cwd).unwrap(), "09");
    assert_eq!(
        resolve_target(&reg, &None, &path(&["/", "home"])).unwrap_err(),
        KasmError::TargetNotInferred
    );
}

#[test]
fn grade_infers_the_target_where_none_is_given() {
    let before = ledger(vec![entry("Team 03", "5,0"), entry("Team 07", "1,0")]);
    let cmd = GradeCmd { grade: "2,3".to_string(), target: None };
    let cwd = path(&["/", "work", "unpack_04", "Team 07"]);
    let after = grade(&master(r"Team ([0-9]+)"), &cmd, &before, &cwd).unwrap();
    assert_eq!(pairs(&after), vec![("Team 03", "5,0"), ("Team 07", "2,3")]);
    let nowhere = path(&["/", "work"]);
    assert_eq!(
        grade(&master(r"Team ([0-9]+)"), &cmd, &before, &nowhere).unwrap_err(),
        KasmError::TargetNotInferred
    );
}

#[test]
fn grade_refuses_a_malformed_classifier() {
    let before = ledger(vec![entry("Team 07", "1,0")]);
    let cmd = GradeCmd { grade: "2,3".to_string(), target: Some("07".to_string()) };
    let r = grade(&master("Team ([0-9]+"), &cmd, &before, &Vec::new());
    assert_eq!(r.unwrap_err(), KasmError::BadPattern);
}

#[test]
fn classifier_reads_the_first_capture_group() {
    let reg = PatternMatcher::new(r"([0-9]{1,3})").unwrap();
    assert_eq!(reg.classify("Gruppe 12 -- Team 07").as_deref(), Some("12"));
    assert_eq!(reg.classify("no digits"), None);
    assert_eq!(reg.classify("1234").as_deref(), Some("123"));
    let optional = PatternMatcher::new(r"x(a)?y").unwrap();
    assert_eq!(optional.classify("xy"), None);
    let without_group = PatternMatcher::new(r"[0-9]+").unwrap();
    assert_eq!(without_group.classify("12"), None);
    assert!(without_group.is_match("a12"));
    assert!(!without_group.is_match("abc"));
    assert!(PatternMatcher::new("").unwrap().is_match("anything"));
    assert!(PatternMatcher::new("(").is_err());
}

#[test]
fn belonging_needs_a_classification_and_a_unit() {
    assert!(belongs_to(&Some("12".to_string()), Some("12")));
    assert!(!belongs_to(&Some("12".to_string()), Some("012")));
    assert!(!belongs_to(&None, Some("12")));
    assert!(!belongs_to(&Some("12".to_string()), None));
    assert!(!belongs_to(&None, None));
}

#[test]
fn ledger_lookup_finds_the_first_entry_by_exact_target() {
    let grades = ledger(vec![entry("A", "1,0"), entry("B", "2,0"), entry("A", "3,0")]);
    assert_eq!(grades.find_grade_for_target("A").as_deref(), Some("1,0"));
    assert_eq!(grades.find_grade_for_target("B").as_deref(), Some("2,0"));
    assert_eq!(grades.find_grade_for_target("a"), None);
    assert_eq!(grades.find_target("A"), Some(0));
    assert_eq!(grades.find_target("C"), None);
    assert!(grades.with_grade_at(3, "1,0").is_none());
    let regraded = grades.with_grade_at(2, "4,0").unwrap();
    assert_eq!(pairs(&regraded), vec![("A", "1,0"), ("B", "2,0"), ("A", "4,0")]);
}

#[test]
fn students_of_a_group_get_the_groups_grade() {
    let row = |name: &str, group: &str, grade: &str| GradingRecord {
        internal_id: format!("Teilnehmer/in{name}"),
        name: name.to_string(),
        uni_id: "1".to_string(),
        status: String::new(),
        group: group.to_string(),
        grade: grade.to_string(),
        best_grade: "10".to_string(),
        grade_locked: String::new(),
        last_change_submission: String::new(),
        last_change_grade: String::new(),
        feedback_comment: String::new(),
    };
    let table = vec![row("a", "G1", "9"), row("b", "G2", "8"), row("c", "G1", "")];
    let grades = ledger(vec![entry("G1", "2,0")]);
    let got = grades.collect_students_for_group(&table, "G1");
    let seen: Vec<(&str, &str, &str)> =
        got.iter().map(|r| (r.name.as_str(), r.group.as_str(), r.grade.as_str())).collect();
    assert_eq!(seen, vec![("a", "G1", "2,0"), ("c", "G1", "2,0")]);
    assert_eq!(got[0].best_grade, "10");
    assert_eq!(got[0].internal_id, "Teilnehmer/ina");
    assert!(grades.collect_students_for_group(&table, "G2").is_empty());
    assert!(grades.collect_students_for_group(&table, "G3").is_empty());
}
