use kasm::args::RepackDir;
use kasm::config::{working_dir, Grade, Grades, MasterCfg, Source, Structure};
use kasm::error::KasmError;
use kasm::gradingtable::GradingRecord;
use kasm::pattern::PatternMatcher;
use kasm::plan::{
    make_group_folder_name, make_individual_folder_name, plan_g2g, plan_g2i, PackedFolder,
    SkipReason, UnitDir,
};
use kasm::repack::{
    allowed_files, filter_tree, make_feedback_zip_name, make_grading_csv_name, repack, repack_g2g,
    repack_g2i, strategy, Strategy, Unpacked,
};
use kasm::text::{decimal_text, split_text, strip_prefix_text};

fn row(number: &str, name: &str, group: &str, grade: &str) -> GradingRecord {
    GradingRecord {
        internal_id: format!("Teilnehmer/in{number}"),
        name: name.to_string(),
        uni_id: format!("9{number}"),
        status: "Abgegeben".to_string(),
        group: group.to_string(),
        grade: grade.to_string(),
        best_grade: "10,0".to_string(),
        grade_locked: "Nein".to_string(),
        last_change_submission: "-".to_string(),
        last_change_grade: "-".to_string(),
        feedback_comment: String::new(),
    }
}

fn entry(target: &str, id: Option<&str>, grade: &str) -> Grade {
    Grade {
        target: target.to_string(),
        internal_id: id.map(|s| s.to_string()),
        members: None,
        grade: grade.to_string(),
    }
}

fn ledger(source: Source, entries: Vec<Grade>) -> Grades {
    Grades {
        location: "unpack_04/grades.toml".to_string(),
        assign_id: None,
        source,
        sheet_id: "04".to_string(),
        map: entries,
    }
}

fn dir(name: &str, files: &[&str]) -> UnitDir {
    UnitDir {
        name: name.to_string(),
        is_dir: true,
        files: files.iter().map(|f| f.to_string()).collect(),
    }
}

fn file(name: &str) -> UnitDir {
    UnitDir { name: name.to_string(), is_dir: false, files: Vec::new() }
}

fn master(filter: Option<&str>, unpacked: Structure, repacked: Structure) -> MasterCfg {
    MasterCfg {
        location: "kasm.toml".to_string(),
        moodle_token: String::new(),
        moodle_course_id: None,
        groups_regex: "Team ([0-9]+)".to_string(),
        group: Some("12".to_string()),
        recursive_unzip: false,
        repack_filter: filter.map(|f| f.to_string()),
        unpack_structure: unpacked,
        repack_structure: repacked,
    }
}

fn sheet() -> RepackDir {
    RepackDir { sheet_id: "04".to_string() }
}

fn folders(plan: &[PackedFolder]) -> Vec<(&str, &str, Vec<&str>)> {
    plan.iter()
        .map(|f| (f.unit.as_str(), f.name.as_str(), f.files.iter().map(|s| s.as_str()).collect()))
        .collect()
}

fn standard_dir(source: Source) -> Unpacked {
    Unpacked {
        is_dir: true,
        grades: Some(ledger(
            source,
            vec![entry("Team 01", Some("501"), "1,3"), entry("Team 02", Some("502"), "2,7")],
        )),
        grading_table: Some(vec![
            row("11", "Ada", "Team 01", ""),
            row("12", "Bob", "Team 02", "5,0"),
            row("13", "Cyd", "Team 01", "4,0"),
        ]),
        entries: vec![
            dir("Team 01", &["feedback.pdf", "notes.txt"]),
            file("grades.toml"),
            file(".filtered.csv"),
            dir("Team 02", &["feedback.pdf"]),
        ],
    }
}

#[test]
fn groups_keep_their_folder_under_label_and_platform_id() {
    let out = repack(
        &master(None, Structure::Groups, Structure::Groups),
        &sheet(),
        &standard_dir(Source::CsvAndZip),
        1700000000123,
    )
    .unwrap();
    assert_eq!(out.zip_name, "feedback_04_1700000000123.zip");
    assert_eq!(out.grading_csv_name.as_deref(), Some("grades_04_1700000000123.csv"));
    assert_eq!(
        folders(&out.plan.folders),
        vec![
            ("Team 01", "Team 01_501_assignsubmission_file", vec!["feedback.pdf", "notes.txt"]),
            ("Team 02", "Team 02_502_assignsubmission_file", vec!["feedback.pdf"]),
        ]
    );
    let rows: Vec<(&str, &str)> =
        out.plan.records.iter().map(|r| (r.name.as_str(), r.grade.as_str())).collect();
    assert_eq!(rows, vec![("Ada", "1,3"), ("Cyd", "1,3"), ("Bob", "2,7")]);
    assert!(out.plan.skipped.is_empty());
    assert_eq!(
        out.plan.folders[0].entry_name("feedback.pdf"),
        "Team 01_501_assignsubmission_file/feedback.pdf"
    );
}

#[test]
fn units_that_the_ledger_cannot_name_are_left_out_with_a_reason() {
    let units = vec![
        dir("Team 01", &["a.pdf"]),
        dir("Team 02", &["b.pdf"]),
        dir("Team 03", &["c.pdf"]),
    ];
    let grades = ledger(
        Source::CsvAndZip,
        vec![entry("Team 01", Some("501"), "1,3"), entry("Team 03", None, "2,0")],
    );
    let table = vec![
        row("11", "Ada", "Team 01", ""),
        row("12", "Bob", "Team 02", ""),
        row("13", "Cyd", "Team 03", ""),
    ];
    let plan = plan_g2g(&units, &table, &grades, true);
    assert_eq!(
        folders(&plan.folders),
        vec![("Team 01", "Team 01_501_assignsubmission_file", vec!["a.pdf"])]
    );
    let rows: Vec<&str> = plan.records.iter().map(|r| r.name.as_str()).collect();
    assert_eq!(rows, vec!["Ada"]);
    let skipped: Vec<(&str, SkipReason)> =
        plan.skipped.iter().map(|s| (s.unit.as_str(), s.reason)).collect();
    assert_eq!(
        skipped,
        vec![("Team 02", SkipReason::NoLedgerEntry), ("Team 03", SkipReason::NoInternalId)]
    );
}

#[test]
fn every_known_unit_appears_once() {
    let units =
        vec![dir("Team 02", &[]), dir("Team 01", &["a"]), dir("Team 04", &[]), dir("Team 03", &[])];
    let grades = ledger(
        Source::CsvAndZip,
        vec![
            entry("Team 01", Some("1"), "1"),
            entry("Team 02", Some("2"), "2"),
            entry("Team 03", Some("3"), "3"),
            entry("Team 01", Some("9"), "9"),
        ],
    );
    let plan = plan_g2g(&units, &[], &grades, true);
    for unit in ["Team 01", "Team 02", "Team 03"] {
        assert_eq!(plan.folders.iter().filter(|f| f.unit == unit).count(), 1);
        assert_eq!(plan.skipped.iter().filter(|s| s.unit == unit).count(), 0);
    }
    assert_eq!(plan.folders.iter().filter(|f| f.unit == "Team 04").count(), 0);
    assert_eq!(plan.skipped.iter().filter(|s| s.unit == "Team 04").count(), 1);
    assert_eq!(plan.folders[1].name, "Team 01_1_assignsubmission_file");
}

#[test]
fn no_roster_rows_where_no_roster_is_written() {
    let out = repack(
        &master(None, Structure::Groups, Structure::Groups),
        &sheet(),
        &standard_dir(Source::Autofetch),
        5,
    )
    .unwrap();
    assert_eq!(out.zip_name, "feedback_04_5.zip");
    assert_eq!(out.grading_csv_name, None);
    assert!(out.plan.records.is_empty());
    assert_eq!(out.plan.folders.len(), 2);
    let mut without_roster = standard_dir(Source::Autofetch);
    without_roster.grading_table = None;
    let out = repack(
        &master(None, Structure::Groups, Structure::Groups),
        &sheet(),
        &without_roster,
        5,
    )
    .unwrap();
    assert_eq!(out.plan.folders.len(), 2);
}

#[test]
fn every_submitter_gets_a_folder_with_the_groups_files_and_grade() {
    let out = repack(
        &master(None, Structure::Groups, Structure::Individuals),
        &sheet(),
        &standard_dir(Source::CsvAndZip),
        42,
    )
    .unwrap();
    assert_eq!(
        folders(&out.plan.folders),
        vec![
            ("Team 01", "Team 01_Ada_11_assignsubmission_file_", vec!["feedback.pdf", "notes.txt"]),
            ("Team 01", "Team 01_Cyd_13_assignsubmission_file_", vec!["feedback.pdf", "notes.txt"]),
            ("Team 02", "Team 02_Bob_12_assignsubmission_file_", vec!["feedback.pdf"]),
        ]
    );
    let rows: Vec<(&str, &str)> =
        out.plan.records.iter().map(|r| (r.name.as_str(), r.grade.as_str())).collect();
    assert_eq!(rows, vec![("Ada", "1,3"), ("Cyd", "1,3"), ("Bob", "2,7")]);
    assert_eq!(out.grading_csv_name.as_deref(), Some("grades_04_42.csv"));
}

#[test]
fn submitter_folders_count_the_rows_of_known_units() {
    let units = vec![dir("Team 01", &["a"]), dir("Team 02", &["b"]), dir("Team 03", &["c"])];
    let grades = ledger(
        Source::CsvAndZip,
        vec![entry("Team 01", None, "1,0"), entry("Team 03", None, "3,0")],
    );
    let table = vec![
        row("1", "A", "Team 01", "x"),
        row("2", "B", "Team 02", "x"),
        row("3", "C", "Team 03", "x"),
        row("4", "D", "Team 01", "x"),
        row("5", "E", "Team 09", "x"),
    ];
    let plan = plan_g2i(&units, &table, &grades).unwrap();
    let expected = table
        .iter()
        .filter(|r| grades.find_grade_for_target(&r.group).is_some())
        .count();
    assert_eq!(plan.folders.len(), expected);
    assert_eq!(plan.folders.len(), 3);
    assert_eq!(plan.records.len(), 3);
    for (folder, record) in plan.folders.iter().zip(plan.records.iter()) {
        assert_eq!(folder.unit, record.group);
        assert_eq!(Some(record.grade.clone()), grades.find_grade_for_target(&record.group));
    }
    let skipped: Vec<(&str, SkipReason)> =
        plan.skipped.iter().map(|s| (s.unit.as_str(), s.reason)).collect();
    assert_eq!(skipped, vec![("Team 02", SkipReason::NoLedgerEntry)]);
}

#[test]
fn submitter_id_without_prefix_is_refused() {
    let units = vec![dir("Team 01", &["a"])];
    let grades = ledger(Source::CsvAndZip, vec![entry("Team 01", None, "1,0")]);
    let mut odd = row("1", "A", "Team 01", "");
    odd.internal_id = "Participant 1".to_string();
    let r = plan_g2i(&units, &[row("2", "B", "Team 01", ""), odd.clone()], &grades);
    assert_eq!(r.unwrap_err(), KasmError::MalformedSubmitterId);
    // a row that gets no folder is no obstacle
    let elsewhere = GradingRecord { group: "Team 02".to_string(), ..odd };
    assert!(plan_g2i(&units, &[elsewhere], &grades).is_ok());
}

#[test]
fn files_that_fail_the_filter_are_never_packed() {
    let reg = PatternMatcher::new("Team ([0-9]+)").unwrap();
    let pdf = PatternMatcher::new(r"\.pdf$").unwrap();
    let entries = vec![
        dir("Team 01", &["feedback.pdf", "notes.txt", "pdf.txt"]),
        dir("Team 02", &["main.rs"]),
        dir("lost+found", &["x.pdf"]),
    ];
    let grades = ledger(
        Source::CsvAndZip,
        vec![entry("Team 01", Some("501"), "1,3"), entry("Team 02", Some("502"), "2,7")],
    );
    let table = vec![row("11", "Ada", "Team 01", ""), row("12", "Bob", "Team 02", "")];
    let groups = repack_g2g(&entries, &table, &grades, &reg, &pdf, true).unwrap();
    assert_eq!(
        folders(&groups.folders),
        vec![
            ("Team 01", "Team 01_501_assignsubmission_file", vec!["feedback.pdf"]),
            ("Team 02", "Team 02_502_assignsubmission_file", vec![]),
        ]
    );
    let singles = repack_g2i(&entries, &table, &grades, &reg, &pdf, true).unwrap();
    for folder in groups.folders.iter().chain(singles.folders.iter()) {
        for f in &folder.files {
            assert!(pdf.is_match(f));
        }
    }
    assert_eq!(
        allowed_files(&vec!["a.pdf".to_string(), "b.txt".to_string(), "c.pdf".to_string()], &pdf),
        vec!["a.pdf".to_string(), "c.pdf".to_string()]
    );
}

#[test]
fn configured_filter_is_applied_and_a_missing_one_lets_all_through() {
    let with =
        repack(
            &master(Some("^feedback"), Structure::Groups, Structure::Groups),
            &sheet(),
            &standard_dir(Source::CsvAndZip),
            1,
        )
        .unwrap();
    assert_eq!(with.plan.folders[0].files, vec!["feedback.pdf".to_string()]);
    let without = repack(
        &master(None, Structure::Groups, Structure::Groups),
        &sheet(),
        &standard_dir(Source::CsvAndZip),
        1,
    )
    .unwrap();
    assert_eq!(
        without.plan.folders[0].files,
        vec!["feedback.pdf".to_string(), "notes.txt".to_string()]
    );
}

#[test]
fn only_matching_directories_are_units() {
    let reg = PatternMatcher::new("Team ([0-9]+)").unwrap();
    let all = PatternMatcher::new("").unwrap();
    let entries = vec![
        file("Team 05"),
        dir("Team 01", &["a"]),
        dir("misc", &["b"]),
        UnitDir { name: "Team 07".to_string(), is_dir: false, files: vec!["c".to_string()] },
    ];
    let units = filter_tree(&entries, &reg, &all);
    let names: Vec<&str> = units.iter().map(|u| u.name.as_str()).collect();
    assert_eq!(names, vec!["Team 01"]);
    assert_eq!(units[0].files, vec!["a".to_string()]);
}

#[test]
fn repack_refuses_in_order() {
    let good = master(None, Structure::Groups, Structure::Groups);
    let mut bad_classifier = master(None, Structure::Individuals, Structure::Groups);
    bad_classifier.groups_regex = "(".to_string();
    let mut gone = standard_dir(Source::CsvAndZip);
    gone.is_dir = false;
    gone.grades = None;
    gone.grading_table = None;
    assert_eq!(repack(&bad_classifier, &sheet(), &gone, 1).unwrap_err(), KasmError::BadPattern);
    let bad_filter = master(Some("["), Structure::Individuals, Structure::Groups);
    assert_eq!(repack(&bad_filter, &sheet(), &gone, 1).unwrap_err(), KasmError::BadPattern);
    for (unpacked, repacked) in [
        (Structure::Individuals, Structure::Groups),
        (Structure::Individuals, Structure::Individuals),
    ] {
        let unsupported = master(None, unpacked, repacked);
        assert_eq!(
            repack(&unsupported, &sheet(), &gone, 1).unwrap_err(),
            KasmError::UnsupportedStructure
        );
    }
    assert_eq!(repack(&good, &sheet(), &gone, 1).unwrap_err(), KasmError::MissingDirectory);
    gone.is_dir = true;
    assert_eq!(repack(&good, &sheet(), &gone, 1).unwrap_err(), KasmError::MissingGrades);
    gone.grades = Some(ledger(Source::CsvAndZip, Vec::new()));
    assert_eq!(repack(&good, &sheet(), &gone, 1).unwrap_err(), KasmError::MissingRoster);
    gone.grades = Some(ledger(Source::Autofetch, Vec::new()));
    assert!(repack(&good, &sheet(), &gone, 1).is_ok());
}

#[test]
fn fetched_ledger_cannot_be_exploded_to_submitters() {
    let r = repack(
        &master(None, Structure::Groups, Structure::Individuals),
        &sheet(),
        &standard_dir(Source::Autofetch),
        1,
    );
    assert_eq!(r.unwrap_err(), KasmError::UnsupportedSource);
    let reg = PatternMatcher::new("Team ([0-9]+)").unwrap();
    let all = PatternMatcher::new("").unwrap();
    let grades = ledger(Source::CsvAndZip, Vec::new());
    assert_eq!(
        repack_g2i(&Vec::new(), &[], &grades, &reg, &all, false).unwrap_err(),
        KasmError::UnsupportedSource
    );
}

#[test]
fn strategies_for_the_pairs_of_structures() {
    assert_eq!(strategy(Structure::Groups, Structure::Groups), Ok(Strategy::GroupsToGroups));
    assert_eq!(
        strategy(Structure::Groups, Structure::Individuals),
        Ok(Strategy::GroupsToIndividuals)
    );
    assert_eq!(
        strategy(Structure::Individuals, Structure::Groups),
        Err(KasmError::UnsupportedStructure)
    );
    assert_eq!(
        strategy(Structure::Individuals, Structure::Individuals),
        Err(KasmError::UnsupportedStructure)
    );
}

#[test]
fn names_are_put_together_from_their_parts() {
    assert_eq!(make_group_folder_name("T", "7"), "T_7_assignsubmission_file");
    assert_eq!(make_group_folder_name("", ""), "__assignsubmission_file");
    assert_eq!(
        make_individual_folder_name("T", "Doe, Jo", "7"),
        "T_Doe, Jo_7_assignsubmission_file_"
    );
    assert_eq!(make_feedback_zip_name("04", 0), "feedback_04_0.zip");
    assert_eq!(make_grading_csv_name("04", 1234567890), "grades_04_1234567890.csv");
    assert_eq!(working_dir("04"), "unpack_04");
    assert_ne!(make_feedback_zip_name("04", 1), make_feedback_zip_name("04", 2));
}

#[test]
fn numbers_are_written_in_decimal() {
    assert_eq!(decimal_text(0), "0");
    assert_eq!(decimal_text(7), "7");
    assert_eq!(decimal_text(10), "10");
    assert_eq!(decimal_text(1700000000123), "1700000000123");
    assert_eq!(decimal_text(u128::MAX), u128::MAX.to_string());
}

#[test]
fn texts_split_at_every_separator() {
    assert_eq!(split_text("a/b/c", '/'), vec!["a", "b", "c"]);
    assert_eq!(split_text("", '/'), vec![""]);
    assert_eq!(split_text("/", '/'), vec!["", ""]);
    assert_eq!(split_text("a//b/", '/'), vec!["a", "", "b", ""]);
    assert_eq!(split_text("Übung 1_x", '_'), vec!["Übung 1", "x"]);
}

#[test]
fn prefix_is_stripped_only_where_it_stands() {
    assert_eq!(strip_prefix_text("Teilnehmer/in42", "Teilnehmer/in").as_deref(), Some("42"));
    assert_eq!(strip_prefix_text("Teilnehmer/in", "Teilnehmer/in").as_deref(), Some(""));
    assert_eq!(strip_prefix_text("Teilnehmer", "Teilnehmer/in"), None);
    assert_eq!(strip_prefix_text("xTeilnehmer/in1", "Teilnehmer/in"), None);
    assert_eq!(strip_prefix_text("abc", "").as_deref(), Some("abc"));
}
