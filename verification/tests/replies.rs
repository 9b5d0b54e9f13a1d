use kasm::error::KasmError;
use kasm::fetch::{group_mappings, FetchedFile, GroupFiles};
use kasm::reply::{find_assignment, read_assignments, read_participants, read_submissions};

fn files(group: &GroupFiles) -> Vec<(Option<&str>, Option<&str>)> {
    group.files.iter().map(|f: &FetchedFile| (f.url.as_deref(), f.name.as_deref())).collect()
}

#[test]
fn assignments_are_read_with_name_and_written_id() {
    let reply = r#"{"courses":[{"id":7,"assignments":[
        {"id":9001,"name":"Abgabe Blatt 05","cmid":3},
        {"id":"x9","name":"Abgabe Blatt 06"},
        {"id":9003,"name":"Abgabe Blatt 05"}
    ]},{"id":8,"assignments":[{"id":1,"name":"other course"}]}],"warnings":[]}"#;
    let list = read_assignments(reply).unwrap();
    let got: Vec<(&str, &str)> = list.iter().map(|a| (a.name.as_str(), a.id.as_str())).collect();
    assert_eq!(
        got,
        vec![
            ("Abgabe Blatt 05", "9001"),
            ("Abgabe Blatt 06", "\"x9\""),
            ("Abgabe Blatt 05", "9003"),
        ]
    );
    assert_eq!(find_assignment(&list, "Abgabe Blatt 05").as_deref(), Some("9003"));
    assert_eq!(find_assignment(&list, "Abgabe Blatt 06").as_deref(), Some("\"x9\""));
    assert_eq!(find_assignment(&list, "Abgabe Blatt 07"), None);
}

#[test]
fn replies_of_another_shape_are_refused() {
    for reply in [
        "not json",
        "[]",
        r#"{"courses":[]}"#,
        r#"{"courses":{}}"#,
        r#"{"courses":[{"assignments":7}]}"#,
        r#"{"courses":[{"assignments":[{"id":1}]}]}"#,
        r#"{"courses":[{"assignments":[{"name":"n"}]}]}"#,
        r#"{"courses":[{"assignments":[{"id":1,"name":5}]}]}"#,
    ] {
        assert_eq!(read_assignments(reply).unwrap_err(), KasmError::UnexpectedReply);
    }
    assert!(read_assignments(r#"{"courses":[{"assignments":[]}]}"#).unwrap().is_empty());
    for reply in ["{", "{}", r#""text""#] {
        assert_eq!(read_participants(reply).unwrap_err(), KasmError::UnexpectedReply);
    }
    for reply in [
        "",
        "{}",
        r#"{"assignments":[]}"#,
        r#"{"assignments":[{"submissions":{}}]}"#,
        r#"{"assignments":[{"submissions":[{"groupid":1,"plugins":{}}]}]}"#,
        r#"{"assignments":[{"submissions":[{"groupid":1,"plugins":[{"fileareas":[{}]}]}]}]}"#,
    ] {
        assert_eq!(read_submissions(reply).unwrap_err(), KasmError::UnexpectedReply);
    }
}

#[test]
fn participants_with_all_four_fields_are_read() {
    let reply = r#"[
        {"id":11,"groupname":"Gruppe 12 -- Team 01","groupid":70,"submissionstatus":"submitted"},
        {"id":12,"groupid":70,"submissionstatus":"submitted"},
        {"id":13,"groupname":"Gruppe 12 -- Team 02","groupid":71,"submissionstatus":"new"},
        {"id":14,"groupname":null,"groupid":72,"submissionstatus":"new"},
        {"id":15,"groupname":"Gruppe 12 -- Team 01","groupid":70,"submissionstatus":"submitted"}
    ]"#;
    let list = read_participants(reply).unwrap();
    let got: Vec<(&str, &str, &str, &str)> = list
        .iter()
        .map(|p| (p.user_id.as_str(), p.group_id.as_str(), p.group_name.as_str(), p.status.as_str()))
        .collect();
    assert_eq!(
        got,
        vec![
            ("11", "70", "Gruppe 12 -- Team 01", "submitted"),
            ("13", "71", "Gruppe 12 -- Team 02", "new"),
            ("14", "72", "", "new"),
            ("15", "70", "Gruppe 12 -- Team 01", "submitted"),
        ]
    );
    let groups = group_mappings(&list);
    assert_eq!(groups.len(), 1);
    assert_eq!(groups[0].id, "70");
    assert_eq!(groups[0].members, vec!["11".to_string(), "15".to_string()]);
    assert!(read_participants("[]").unwrap().is_empty());
}

#[test]
fn participant_whose_status_or_counting_name_is_no_text_is_refused() {
    let no_status = r#"[{"id":1,"groupname":"g","groupid":2,"submissionstatus":3}]"#;
    assert_eq!(read_participants(no_status).unwrap_err(), KasmError::UnexpectedReply);
    let no_name = r#"[{"id":1,"groupname":null,"groupid":2,"submissionstatus":"submitted"}]"#;
    assert_eq!(read_participants(no_name).unwrap_err(), KasmError::UnexpectedReply);
}

#[test]
fn files_handed_in_are_read_from_the_submission_areas() {
    let reply = r#"{"assignments":[{"assignmentid":9001,"submissions":[
        {"userid":0,"groupid":70,"plugins":[
            {"type":"file","fileareas":[
                {"area":"submission_files","files":[
                    {"filename":"a.pdf","fileurl":"https://m/a"},
                    {"filename":"b.pdf"},
                    {"fileurl":"https://m/c","filename":7}
                ]},
                {"area":"other","files":[{"filename":"skip.pdf","fileurl":"https://m/skip"}]},
                {"area":"submission_files"},
                {"area":"submission_files","files":"none"}
            ]},
            {"type":"comments"},
            {"type":"onlinetext","fileareas":"none"},
            {"type":"more","fileareas":[
                {"area":"submission_files","files":[{"filename":"d.zip","fileurl":"https://m/d"}]}
            ]}
        ]},
        {"groupid":71},
        {"plugins":[]},
        {"groupid":"g72","plugins":[]}
    ]},{"assignmentid":9002,"submissions":[{"groupid":99,"plugins":[]}]}]}"#;
    let list = read_submissions(reply).unwrap();
    assert_eq!(list.len(), 2);
    assert_eq!(list[0].group_id, "70");
    assert_eq!(
        files(&list[0]),
        vec![
            (Some("https://m/a"), Some("a.pdf")),
            (None, Some("b.pdf")),
            (Some("https://m/c"), None),
            (Some("https://m/d"), Some("d.zip")),
        ]
    );
    assert_eq!(list[1].group_id, "\"g72\"");
    assert!(list[1].files.is_empty());
}
