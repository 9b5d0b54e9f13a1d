use kasm::args::UnpackFiles;
use kasm::config::{MasterCfg, Source, Structure};
use kasm::error::KasmError;
use kasm::gradingtable::GradingRecord;
use kasm::pattern::PatternMatcher;
use kasm::unpack::{
    destination_of, file_name_of, filter_records, gen_grading_files, unit_label_of, unpack,
    unzip_filter_main, ArchiveEntry,
};

const FIRST_PARENS: &str = r"\(([0-9]+)\)";

fn row(id: &str, name: &str, uni_id: &str, group: &str, best_grade: &str) -> GradingRecord {
    GradingRecord {
        internal_id: id.to_string(),
        name: name.to_string(),
        uni_id: uni_id.to_string(),
        status: "Abgegeben".to_string(),
        group: group.to_string(),
        grade: String::new(),
        best_grade: best_grade.to_string(),
        grade_locked: "Nein".to_string(),
        last_change_submission: "-".to_string(),
        last_change_grade: "-".to_string(),
        feedback_comment: String::new(),
    }
}

fn master(regex: &str, group: Option<&str>, structure: Structure) -> MasterCfg {
    MasterCfg {
        location: "kasm.toml".to_string(),
        moodle_token: String::new(),
        moodle_course_id: None,
        groups_regex: regex.to_string(),
        group: group.map(|g| g.to_string()),
        recursive_unzip: false,
        repack_filter: None,
        unpack_structure: structure,
        repack_structure: Structure::Groups,
    }
}

fn files(sheet: &str) -> UnpackFiles {
    UnpackFiles {
        sheet_id: sheet.to_string(),
        moodle_zip: "all.zip".to_string(),
        moodle_csv: "all.csv".to_string(),
    }
}

fn entry(name: &str) -> ArchiveEntry {
    ArchiveEntry { name: name.to_string(), enclosed_name: Some(name.to_string()) }
}

#[test]
fn two_teams_of_one_group_are_kept_and_entered() {
    let rows = vec![
        row("Teilnehmer/in1", "A", "100", "(12)TeamA(07)", "1,0"),
        row("Teilnehmer/in2", "B", "200", "(12)TeamB(07)", "1,3"),
    ];
    let out = unpack(
        &master(FIRST_PARENS, Some("12"), Structure::Groups),
        &files("04"),
        false,
        &rows,
        &Vec::new(),
    )
    .unwrap();
    assert_eq!(out.records.len(), 2);
    assert_eq!(out.records[0].group, "(12)TeamA(07)");
    assert_eq!(out.records[1].group, "(12)TeamB(07)");
    assert_eq!(out.grades.map.len(), 2);
    assert_eq!(out.grades.map[0].target, "(12)TeamA(07)");
    assert_eq!(out.grades.map[0].grade, "1,0");
    assert_eq!(out.grades.map[1].target, "(12)TeamB(07)");
    assert_eq!(out.grades.map[1].grade, "1,3");
    assert_eq!(out.grades.map[0].internal_id, None);
    assert_eq!(out.grades.map[0].members, None);
    assert_eq!(out.grades.source, Source::CsvAndZip);
    assert_eq!(out.grades.assign_id, None);
    assert_eq!(out.grades.sheet_id, "04");
    assert_eq!(out.grades.location, "unpack_04/grades.toml");
    assert_eq!(out.unpack_path, "unpack_04");
    assert_eq!(out.nested_csv_path, "unpack_04/.filtered.csv");
    assert!(out.files.is_empty());
}

#[test]
fn rows_are_kept_exactly_when_their_group_classifies_to_the_unit() {
    let reg = PatternMatcher::new(FIRST_PARENS).unwrap();
    let rows = vec![
        row("Teilnehmer/in1", "A", "100", "(12)TeamA(07)", "1,0"),
        row("Teilnehmer/in2", "B", "200", "(13)TeamB(07)", "1,3"),
        row("Teilnehmer/in3", "C", "300", "no group", "2,0"),
        row("Teilnehmer/in4", "D", "400", "(12)TeamC(12)", "2,3"),
        row("Teilnehmer/in5", "E", "500", "(120)TeamD", "2,7"),
    ];
    let kept = filter_records(&rows, &reg, Some("12"));
    let names: Vec<&str> = kept.iter().map(|r| r.name.as_str()).collect();
    assert_eq!(names, vec!["A", "D"]);
    let expected = rows
        .iter()
        .filter(|r| reg.classify(&r.group).as_deref() == Some("12"))
        .count();
    assert_eq!(kept.len(), expected);
}

#[test]
fn unit_comparison_is_exact() {
    let reg = PatternMatcher::new(FIRST_PARENS).unwrap();
    let rows = vec![row("Teilnehmer/in1", "A", "100", "(012)TeamA", "1,0")];
    assert_eq!(filter_records(&rows, &reg, Some("12")).len(), 0);
    assert_eq!(filter_records(&rows, &reg, Some("012")).len(), 1);
}

#[test]
fn no_unit_keeps_no_row() {
    let reg = PatternMatcher::new(FIRST_PARENS).unwrap();
    let rows = vec![
        row("Teilnehmer/in1", "A", "100", "(12)TeamA", "1,0"),
        row("Teilnehmer/in2", "B", "200", "unclassified", "1,0"),
    ];
    assert_eq!(filter_records(&rows, &reg, None).len(), 0);
}

#[test]
fn existing_working_directory_is_refused() {
    let rows = vec![row("Teilnehmer/in1", "A", "100", "(12)TeamA(07)", "1,0")];
    let r = unpack(
        &master(FIRST_PARENS, Some("12"), Structure::Groups),
        &files("04"),
        true,
        &rows,
        &Vec::new(),
    );
    assert_eq!(r.unwrap_err(), KasmError::AlreadyExists);
    assert_eq!(KasmError::AlreadyExists.message(), "unpack path already exists!");
}

#[test]
fn malformed_classifier_is_refused_first() {
    let rows = vec![row("Teilnehmer/in1", "A", "100", "(12)TeamA(07)", "1,0")];
    let r = unpack(
        &master("([0-9]+", Some("12"), Structure::Groups),
        &files("04"),
        true,
        &rows,
        &Vec::new(),
    );
    assert_eq!(r.unwrap_err(), KasmError::BadPattern);
}

#[test]
fn roster_without_the_unit_is_refused() {
    let rows = vec![row("Teilnehmer/in1", "A", "100", "(13)TeamA(07)", "1,0")];
    let r = unpack(
        &master(FIRST_PARENS, Some("12"), Structure::Groups),
        &files("04"),
        false,
        &rows,
        &Vec::new(),
    );
    assert_eq!(r.unwrap_err(), KasmError::NoMatchingRecords);
    let r = unpack(
        &master(FIRST_PARENS, None, Structure::Groups),
        &files("04"),
        false,
        &rows,
        &Vec::new(),
    );
    assert_eq!(r.unwrap_err(), KasmError::NoMatchingRecords);
}

#[test]
fn ledger_has_one_entry_for_each_group_from_its_first_row() {
    let rows = vec![
        row("Teilnehmer/in1", "A", "100", "G1", "1,0"),
        row("Teilnehmer/in2", "B", "200", "G2", "1,3"),
        row("Teilnehmer/in3", "C", "300", "G1", "5,0"),
        row("Teilnehmer/in4", "D", "400", "G3", "2,0"),
        row("Teilnehmer/in5", "E", "500", "G2", "4,0"),
    ];
    let grades = gen_grading_files(Structure::Groups, "07", &rows);
    let entries: Vec<(&str, &str)> =
        grades.map.iter().map(|g| (g.target.as_str(), g.grade.as_str())).collect();
    assert_eq!(entries, vec![("G1", "1,0"), ("G2", "1,3"), ("G3", "2,0")]);
    assert_eq!(grades.location, "unpack_07/grades.toml");
}

#[test]
fn ledger_has_one_entry_for_each_submitter_where_submitters_are_graded() {
    let rows = vec![
        row("Teilnehmer/in1", "A", "100", "G1", "1,0"),
        row("Teilnehmer/in2", "B", "200", "G1", "1,3"),
        row("Teilnehmer/in3", "A again", "100", "G2", "5,0"),
    ];
    let grades = gen_grading_files(Structure::Individuals, "07", &rows);
    let entries: Vec<(&str, &str)> =
        grades.map.iter().map(|g| (g.target.as_str(), g.grade.as_str())).collect();
    assert_eq!(entries, vec![("100", "1,0"), ("200", "1,3")]);
}

#[test]
fn entries_of_the_unit_are_rerooted_under_their_label() {
    let reg = PatternMatcher::new("Gruppe ([0-9]+)").unwrap();
    let archive = vec![
        entry("Gruppe 12 -- Team 07_4711_assignsubmission_file_/sheet.pdf"),
        entry("Gruppe 13 -- Team 01_4712_assignsubmission_file_/sheet.pdf"),
        entry("Gruppe 12 -- Team 07_4711_assignsubmission_file_/src/deep/main.rs"),
        entry("Gruppe 12 -- Team 09_4713_assignsubmission_file_/notes.txt"),
    ];
    let plan = unzip_filter_main(&archive, &reg, Some("12")).unwrap();
    let got: Vec<(usize, &str, &str)> =
        plan.iter().map(|x| (x.index, x.unit.as_str(), x.file.as_str())).collect();
    assert_eq!(
        got,
        vec![
            (0, "Gruppe 12 -- Team 07", "sheet.pdf"),
            (2, "Gruppe 12 -- Team 07", "main.rs"),
            (3, "Gruppe 12 -- Team 09", "notes.txt"),
        ]
    );
}

#[test]
fn entry_of_the_unit_without_destination_fails_the_stage() {
    let reg = PatternMatcher::new("Gruppe ([0-9]+)").unwrap();
    let no_delimiter = vec![entry("Gruppe 12/sheet.pdf")];
    assert_eq!(
        unzip_filter_main(&no_delimiter, &reg, Some("12")).unwrap_err(),
        KasmError::MalformedEntry
    );
    let escaping = vec![ArchiveEntry {
        name: "../Gruppe 12_x/sheet.pdf".to_string(),
        enclosed_name: None,
    }];
    assert_eq!(
        unzip_filter_main(&escaping, &reg, Some("12")).unwrap_err(),
        KasmError::MalformedEntry
    );
    // the same entries are no obstacle where they belong to another unit
    assert!(unzip_filter_main(&no_delimiter, &reg, Some("13")).unwrap().is_empty());
    assert!(unzip_filter_main(&escaping, &reg, Some("13")).unwrap().is_empty());
}

#[test]
fn unpack_reports_a_malformed_entry() {
    let rows = vec![row("Teilnehmer/in1", "A", "100", "Gruppe 12 -- Team 07", "1,0")];
    let archive = vec![entry("Gruppe 12 without delimiter/sheet.pdf")];
    let r = unpack(
        &master("Gruppe ([0-9]+)", Some("12"), Structure::Groups),
        &files("04"),
        false,
        &rows,
        &archive,
    );
    assert_eq!(r.unwrap_err(), KasmError::MalformedEntry);
}

#[test]
fn label_is_what_precedes_the_first_delimiter_of_the_first_segment() {
    assert_eq!(unit_label_of("Team A_12_file/x.pdf").as_deref(), Some("Team A"));
    assert_eq!(unit_label_of("a_b_c").as_deref(), Some("a"));
    assert_eq!(unit_label_of("_rest/x").as_deref(), Some(""));
    assert_eq!(unit_label_of("plain/with_delimiter.pdf"), None);
    assert_eq!(unit_label_of("./a_b/x"), None);
    assert_eq!(unit_label_of("/a_b/x"), None);
    assert_eq!(unit_label_of(""), None);
}

#[test]
fn file_name_is_the_last_segment_that_names_something() {
    assert_eq!(file_name_of("a/b/c.txt").as_deref(), Some("c.txt"));
    assert_eq!(file_name_of("c.txt").as_deref(), Some("c.txt"));
    assert_eq!(file_name_of("a/b/").as_deref(), Some("b"));
    assert_eq!(file_name_of("a/b/.").as_deref(), Some("b"));
    assert_eq!(file_name_of("a//b").as_deref(), Some("b"));
    assert_eq!(file_name_of("a/.."), None);
    assert_eq!(file_name_of("."), None);
    assert_eq!(file_name_of("/"), None);
    assert_eq!(file_name_of(""), None);
    assert_eq!(file_name_of("a/.hidden").as_deref(), Some(".hidden"));
}

#[test]
fn destination_needs_an_enclosed_path_a_label_and_a_file() {
    assert_eq!(
        destination_of(&entry("T_1/x.pdf")),
        Some(("T".to_string(), "x.pdf".to_string()))
    );
    assert_eq!(destination_of(&entry("T_1/..")), None);
    assert_eq!(destination_of(&entry("T/x.pdf")), None);
    assert_eq!(
        destination_of(&ArchiveEntry { name: "T_1/x.pdf".to_string(), enclosed_name: None }),
        None
    );
}
