use kasm::config::{Grade, Grades, MasterCfg, Source, Structure};
use kasm::error::KasmError;
use kasm::fetch::{
    gen_grading_files, group_mappings, make_download_dir, make_download_path, make_moodle_grade,
    plan_download, push_grades, read_sheet_id, select_groups, submission_files, FetchedFile,
    FetchedGroup, GroupFiles, Participant, SubmissionFileMap,
};
use kasm::pattern::PatternMatcher;

fn participant(user: &str, gid: &str, gname: &str, status: &str) -> Participant {
    Participant {
        user_id: user.to_string(),
        group_id: gid.to_string(),
        group_name: gname.to_string(),
        status: status.to_string(),
    }
}

fn listed(url: Option<&str>, name: Option<&str>) -> FetchedFile {
    FetchedFile { url: url.map(|s| s.to_string()), name: name.map(|s| s.to_string()) }
}

fn group(id: &str, name: &str, members: &[&str]) -> FetchedGroup {
    FetchedGroup {
        id: id.to_string(),
        name: name.to_string(),
        members: members.iter().map(|m| m.to_string()).collect(),
    }
}

fn shape(groups: &[FetchedGroup]) -> Vec<(&str, &str, Vec<&str>)> {
    groups
        .iter()
        .map(|g| (g.id.as_str(), g.name.as_str(), g.members.iter().map(|m| m.as_str()).collect()))
        .collect()
}

fn paths(files: &[SubmissionFileMap]) -> Vec<(&str, &str, &str, &str)> {
    files
        .iter()
        .map(|f| (f.dl_path.as_str(), f.dl_url.as_str(), f.group_id.as_str(), f.group_name.as_str()))
        .collect()
}

fn master(group: Option<&str>) -> MasterCfg {
    MasterCfg {
        groups_regex: "Gruppe ([0-9]+)".to_string(),
        group: group.map(|g| g.to_string()),
        ..MasterCfg::default()
    }
}

#[test]
fn participants_who_handed_in_are_gathered_by_group() {
    let participants = vec![
        participant("1", "70", "Gruppe 12 -- Team 01", "submitted"),
        participant("2", "71", "Gruppe 12 -- Team 02", "new"),
        participant("3", "72", "Gruppe 13 -- Team 01", "submitted"),
        participant("4", "70", "renamed meanwhile", "submitted"),
        participant("5", "70", "Gruppe 12 -- Team 01", "draft"),
        participant("6", "72", "Gruppe 13 -- Team 01", "submitted"),
    ];
    let groups = group_mappings(&participants);
    assert_eq!(
        shape(&groups),
        vec![
            ("70", "Gruppe 12 -- Team 01", vec!["1", "4"]),
            ("72", "Gruppe 13 -- Team 01", vec!["3", "6"]),
        ]
    );
    assert!(group_mappings(&Vec::new()).is_empty());
}

#[test]
fn groups_of_the_unit_are_selected() {
    let reg = PatternMatcher::new("Gruppe ([0-9]+)").unwrap();
    let groups = vec![
        group("70", "Gruppe 12 -- Team 01", &["1"]),
        group("72", "Gruppe 13 -- Team 01", &["3"]),
        group("73", "Gruppe 12 -- Team 04", &["7", "8"]),
        group("74", "no number", &["9"]),
    ];
    let mine = select_groups(&groups, &reg, Some("12"));
    assert_eq!(
        shape(&mine),
        vec![
            ("70", "Gruppe 12 -- Team 01", vec!["1"]),
            ("73", "Gruppe 12 -- Team 04", vec!["7", "8"]),
        ]
    );
    assert!(select_groups(&groups, &reg, None).is_empty());
}

#[test]
fn fetched_ledger_names_groups_and_members() {
    let groups = vec![group("70", "Team 01", &["1", "4"]), group("73", "Team 04", &[])];
    let grades = gen_grading_files("05", "9001", &groups);
    assert_eq!(grades.location, "unpack_05/grades.toml");
    assert_eq!(grades.assign_id.as_deref(), Some("9001"));
    assert_eq!(grades.source, Source::Autofetch);
    assert_eq!(grades.sheet_id, "05");
    assert_eq!(grades.map.len(), 2);
    assert_eq!(grades.map[0].target, "Team 01");
    assert_eq!(grades.map[0].internal_id.as_deref(), Some("70"));
    assert_eq!(grades.map[0].members, Some(vec!["1".to_string(), "4".to_string()]));
    assert_eq!(grades.map[0].grade, "0");
    assert_eq!(grades.map[1].members, Some(Vec::new()));
}

#[test]
fn sheet_and_directory_are_read_off_the_assignments_name() {
    assert_eq!(read_sheet_id("Abgabe Blatt 05"), "05");
    assert_eq!(read_sheet_id("Blatt"), "Blatt");
    assert_eq!(read_sheet_id(""), "");
    assert_eq!(read_sheet_id("trailing "), "");
    let numbers = PatternMatcher::new("([0-9]{1,2})").unwrap();
    assert_eq!(make_download_dir(&numbers, "Abgabe Blatt 05").unwrap(), "unpack_05");
    assert_eq!(make_download_dir(&numbers, "Blatt 123").unwrap(), "unpack_12");
    assert_eq!(
        make_download_dir(&numbers, "Probeklausur").unwrap_err(),
        KasmError::SheetNotNumbered
    );
}

#[test]
fn complete_files_of_each_group_are_downloaded_under_its_name() {
    let groups = vec![group("70", "Team 01", &["1"]), group("73", "Team 04", &["7"])];
    let submissions = vec![
        GroupFiles {
            group_id: "73".to_string(),
            files: vec![listed(Some("https://m/x"), Some("x.pdf"))],
        },
        GroupFiles {
            group_id: "70".to_string(),
            files: vec![
                listed(Some("https://m/a"), Some("a.pdf")),
                listed(None, Some("b.pdf")),
                listed(Some("https://m/c"), None),
                listed(Some("https://m/d"), Some("d.zip")),
            ],
        },
    ];
    let files = submission_files("unpack_05", &groups, &submissions).unwrap();
    assert_eq!(
        paths(&files),
        vec![
            ("unpack_05/Team 01/a.pdf", "https://m/a", "70", "Team 01"),
            ("unpack_05/Team 01/d.zip", "https://m/d", "70", "Team 01"),
            ("unpack_05/Team 04/x.pdf", "https://m/x", "73", "Team 04"),
        ]
    );
    // of two submissions of one group the later counts
    let mut twice = submissions;
    twice.push(GroupFiles {
        group_id: "70".to_string(),
        files: vec![listed(Some("https://m/late"), Some("late.pdf"))],
    });
    assert_eq!(
        paths(&submission_files("unpack_05", &groups, &twice).unwrap()),
        vec![
            ("unpack_05/Team 01/late.pdf", "https://m/late", "70", "Team 01"),
            ("unpack_05/Team 04/x.pdf", "https://m/x", "73", "Team 04"),
        ]
    );
    let copy = files[0].clone();
    assert_eq!(copy.dl_path, files[0].dl_path);
    assert_eq!(copy.dl_url, files[0].dl_url);
    assert_eq!(make_download_path("b", "g", "f"), "b/g/f");
}

#[test]
fn group_without_submission_fails_the_listing() {
    let groups = vec![group("70", "Team 01", &["1"]), group("73", "Team 04", &["7"])];
    let submissions = vec![GroupFiles { group_id: "70".to_string(), files: Vec::new() }];
    assert_eq!(
        submission_files("unpack_05", &groups, &submissions).unwrap_err(),
        KasmError::MissingSubmission
    );
    assert!(submission_files("unpack_05", &Vec::new(), &submissions).unwrap().is_empty());
}

#[test]
fn download_is_planned_for_the_configured_unit() {
    let participants = vec![
        participant("1", "70", "Gruppe 12 -- Team 01", "submitted"),
        participant("3", "72", "Gruppe 13 -- Team 01", "submitted"),
        participant("4", "70", "Gruppe 12 -- Team 01", "submitted"),
    ];
    let submissions = vec![GroupFiles {
        group_id: "70".to_string(),
        files: vec![listed(Some("https://m/a"), Some("a.pdf"))],
    }];
    let plan =
        plan_download(&master(Some("12")), "Abgabe Blatt 05", "9001", &participants, &submissions)
            .unwrap();
    assert_eq!(plan.base_path, "unpack_05");
    assert_eq!(plan.grades.map.len(), 1);
    assert_eq!(plan.grades.map[0].target, "Gruppe 12 -- Team 01");
    assert_eq!(plan.grades.map[0].members, Some(vec!["1".to_string(), "4".to_string()]));
    assert_eq!(plan.grades.sheet_id, "05");
    assert_eq!(
        paths(&plan.files),
        vec![("unpack_05/Gruppe 12 -- Team 01/a.pdf", "https://m/a", "70", "Gruppe 12 -- Team 01")]
    );
    assert_eq!(
        plan_download(&master(Some("13")), "Abgabe Blatt 05", "9001", &participants, &submissions)
            .unwrap_err(),
        KasmError::MissingSubmission
    );
    assert_eq!(
        plan_download(&master(Some("12")), "Abgabe", "9001", &participants, &submissions)
            .unwrap_err(),
        KasmError::SheetNotNumbered
    );
    let mut broken = master(Some("12"));
    broken.groups_regex = "(".to_string();
    assert_eq!(
        plan_download(&broken, "Abgabe Blatt 05", "9001", &participants, &submissions).unwrap_err(),
        KasmError::BadPattern
    );
}

#[test]
fn grades_are_pushed_through_the_first_member_with_a_point() {
    let entry = |target: &str, members: Option<Vec<&str>>, grade: &str| Grade {
        target: target.to_string(),
        internal_id: Some("1".to_string()),
        members: members.map(|m| m.iter().map(|s| s.to_string()).collect()),
        grade: grade.to_string(),
    };
    let mut grades = Grades {
        location: "unpack_05/grades.toml".to_string(),
        assign_id: Some("9001".to_string()),
        source: Source::Autofetch,
        sheet_id: "05".to_string(),
        map: vec![
            entry("Team 01", Some(vec!["11", "12"]), "10,5"),
            entry("Team 02", Some(vec!["21"]), "7"),
        ],
    };
    let pushes = push_grades(&grades).unwrap();
    let got: Vec<(&str, &str, &str, &str)> = pushes
        .iter()
        .map(|p| (p.assign_id.as_str(), p.user_id.as_str(), p.grade.as_str(), p.adjusted.as_str()))
        .collect();
    assert_eq!(got, vec![("9001", "11", "10,5", "10.5"), ("9001", "21", "7", "7")]);
    grades.map.push(entry("Team 03", Some(Vec::new()), "1"));
    assert_eq!(push_grades(&grades).unwrap_err(), KasmError::MissingMembers);
    grades.map[2] = entry("Team 03", None, "1");
    assert_eq!(push_grades(&grades).unwrap_err(), KasmError::MissingMembers);
    grades.assign_id = None;
    assert_eq!(push_grades(&grades).unwrap_err(), KasmError::MissingAssignment);
    assert_eq!(make_moodle_grade("1,0,5"), "1.0.5");
    assert_eq!(make_moodle_grade(""), "");
}

#[test]
fn defaults_are_empty() {
    let master = MasterCfg::default();
    assert_eq!(master.groups_regex, "");
    assert_eq!(master.group, None);
    assert_eq!(master.unpack_structure, Structure::Groups);
    assert_eq!(master.repack_structure, Structure::default());
    let grades = Grades::default();
    assert_eq!(grades.source, Source::default());
    assert_eq!(grades.source, Source::CsvAndZip);
    assert!(grades.map.is_empty());
    assert_eq!(Grade::default().grade, "");
    assert_eq!(Structure::Individuals.name(), "Individuals");
    assert_eq!(Structure::Groups.name(), "Groups");
    let copy = master.clone();
    assert_eq!(copy.groups_regex, master.groups_regex);
}
