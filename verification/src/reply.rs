use serde_json::Value;
use vstd::prelude::*;

use crate::error::KasmError;
use crate::fetch::{
    FetchedFile, FetchedFileView, GroupFiles, GroupFilesView, Participant, ParticipantView,
    SUBMITTED,
};
use crate::json::{
    items, json_items, json_member, json_parse, json_rendered, json_text, member, parse, rendered,
    text,
};
use crate::text::same_text;

verus! {

/// The area of a submission that holds the files handed in.
pub const SUBMISSION_FILES_AREA: &'static str = "submission_files";

/// The elements of the array that is the member `key` of `value`.
pub open spec fn member_items(value: Value, key: Seq<char>) -> Option<Seq<Value>> {
    match json_member(value, key) {
        Some(found) => json_items(found),
        None => None,
    }
}

/// The text of the string that is the member `key` of `value`.
pub open spec fn member_text(value: Value, key: Seq<char>) -> Option<Seq<char>> {
    match json_member(value, key) {
        Some(found) => json_text(found),
        None => None,
    }
}

/// What a reader gives where it gives something.
pub open spec fn unwrapped<A>(read: spec_fn(Value) -> Option<A>) -> spec_fn(Value) -> A {
    |value: Value| read(value)->0
}

/// Whether `read` gives something for every element of `list` that `keep`
/// keeps.
pub open spec fn all_readable<A>(
    list: Seq<Value>,
    keep: spec_fn(Value) -> bool,
    read: spec_fn(Value) -> Option<A>,
) -> bool {
    forall|i: int| 0 <= i < list.len() && keep(#[trigger] list[i]) ==> read(list[i]) is Some
}

/// What `read` gives for the elements of `list` that `keep` keeps, in the
/// list's order.
pub open spec fn read_each<A>(
    list: Seq<Value>,
    keep: spec_fn(Value) -> bool,
    read: spec_fn(Value) -> Option<A>,
) -> Seq<A> {
    list.filter(keep).map_values(unwrapped(read))
}

/// Every element.
pub open spec fn any_value() -> spec_fn(Value) -> bool {
    |value: Value| true
}

/// The array under `key`.
pub fn items_under<'a>(value: &'a Value, key: &str) -> (r: Option<&'a Vec<Value>>)
    ensures
        match r {
            Some(elements) => member_items(*value, key@) == Some(elements@),
            None => member_items(*value, key@) is None,
        },
{
    match member(value, key) {
        Some(found) => items(found),
        None => None,
    }
}

/// The text under `key`.
pub fn text_under<'a>(value: &'a Value, key: &str) -> (r: Option<&'a str>)
    ensures
        match r {
            Some(content) => member_text(*value, key@) == Some(content@),
            None => member_text(*value, key@) is None,
        },
{
    match member(value, key) {
        Some(found) => text(found),
        None => None,
    }
}

/// An assignment of the course.
#[derive(Debug)]
pub struct Assignment {
    pub name: String,
    /// The platform's id of the assignment.
    pub id: String,
}

/// An `Assignment` as plain values.
pub struct AssignmentView {
    pub name: Seq<char>,
    pub id: Seq<char>,
}

impl View for Assignment {
    type V = AssignmentView;

    open spec fn view(&self) -> AssignmentView {
        AssignmentView { name: self.name@, id: self.id@ }
    }
}

impl DeepView for Assignment {
    type V = AssignmentView;

    open spec fn deep_view(&self) -> AssignmentView {
        self@
    }
}

/// The assignment that a value lists: its name, which is a text, and its
/// id as it is written.
pub open spec fn assignment_of() -> spec_fn(Value) -> Option<AssignmentView> {
    |value: Value|
        match (member_text(value, "name"@), json_member(value, "id"@)) {
            (Some(name), Some(id)) => Some(AssignmentView { name, id: json_rendered(id) }),
            _ => None,
        }
}

/// The values that list the assignments of the first course of a reply.
pub open spec fn listed_assignments(reply: Value) -> Option<Seq<Value>> {
    match member_items(reply, "courses"@) {
        Some(courses) => if courses.len() > 0 {
            member_items(courses[0], "assignments"@)
        } else {
            None
        },
        None => None,
    }
}

/// The assignments that a reply lists. A failure where the reply is no
/// JSON, lists no course with assignments, or lists an assignment without
/// name or id.
pub open spec fn assignments_in(reply: Seq<char>) -> Result<Seq<AssignmentView>, KasmError> {
    match json_parse(reply) {
        None => Err(KasmError::UnexpectedReply),
        Some(value) => match listed_assignments(value) {
            None => Err(KasmError::UnexpectedReply),
            Some(list) => if all_readable(list, any_value(), assignment_of()) {
                Ok(read_each(list, any_value(), assignment_of()))
            } else {
                Err(KasmError::UnexpectedReply)
            },
        },
    }
}

/// Reads the assignment that a value lists.
pub fn read_assignment(value: &Value) -> (r: Option<Assignment>)
    ensures
        r.deep_view() == assignment_of()(*value),
{
    match (text_under(value, "name"), member(value, "id")) {
        (Some(name), Some(id)) => Some(Assignment { name: name.to_owned(), id: rendered(id) }),
        _ => None,
    }
}

/// Reads the assignments of the course off the platform's reply.
pub fn read_assignments(reply: &str) -> (r: Result<Vec<Assignment>, KasmError>)
    ensures
        match r {
            Ok(list) => assignments_in(reply@) == Ok::<Seq<AssignmentView>, KasmError>(
                list.deep_view(),
            ),
            Err(e) => assignments_in(reply@) == Err::<Seq<AssignmentView>, KasmError>(e),
        },
{
    let value = match parse(reply) {
        Ok(value) => value,
        Err(_) => { return Err(KasmError::UnexpectedReply); },
    };
    let courses = match items_under(&value, "courses") {
        Some(courses) => courses,
        None => { return Err(KasmError::UnexpectedReply); },
    };
    if courses.len() == 0 {
        return Err(KasmError::UnexpectedReply);
    }
    let list = match items_under(&courses[0], "assignments") {
        Some(list) => list,
        None => { return Err(KasmError::UnexpectedReply); },
    };
    let ghost all = list@;
    let ghost keep = any_value();
    let ghost read = assignment_of();
    let mut out: Vec<Assignment> = Vec::new();
    let mut i: usize = 0;
    proof {
        reveal(Seq::filter);
        assert(all.take(0) =~= Seq::<Value>::empty());
        assert(out.deep_view() =~= read_each(all.take(0), keep, read));
    }
    while i < list.len()
        invariant
            i <= list.len(),
            all == list@,
            keep == any_value(),
            read == assignment_of(),
            listed_assignments(value) == Some(all),
            json_parse(reply@) == Some(value),
            all_readable(all.take(i as int), keep, read),
            out.deep_view() == read_each(all.take(i as int), keep, read),
        decreases list.len() - i,
    {
        let ghost done = all.take(i as int);
        let ghost before = out.deep_view();
        proof {
            assert(all.take(i as int + 1) =~= done.push(all[i as int]));
            Seq::lemma_filter_push(done, all[i as int], keep);
        }
        match read_assignment(&list[i]) {
            None => {
                assert(keep(all[i as int]) && read(all[i as int]) is None);
                return Err(KasmError::UnexpectedReply);
            },
            Some(assignment) => {
                out.push(assignment);
                proof {
                    assert(out.deep_view() =~= before.push(unwrapped(read)(all[i as int])));
                    assert(done.push(all[i as int]).filter(keep).map_values(unwrapped(read))
                        =~= done.filter(keep).map_values(unwrapped(read)).push(
                        unwrapped(read)(all[i as int]),
                    ));
                    assert forall|j: int|
                        0 <= j < done.push(all[i as int]).len() && keep(
                            #[trigger] done.push(all[i as int])[j],
                        ) implies read(done.push(all[i as int])[j]) is Some by {
                        if j < done.len() {
                            assert(done.push(all[i as int])[j] == done[j]);
                        }
                    }
                }
            },
        }
        i += 1;
    }
    assert(all.take(list.len() as int) =~= all);
    Ok(out)
}

/// The id of the assignment named `name`: that of the last one listed
/// under this name.
pub open spec fn assignment_id(list: Seq<AssignmentView>, name: Seq<char>) -> Option<Seq<char>> {
    if exists|i: int| is_last_named(list, name, i) {
        Some(list[choose|i: int| is_last_named(list, name, i)].id)
    } else {
        None
    }
}

/// `i` is the last position of `list` that holds an assignment named
/// `name`.
pub open spec fn is_last_named(list: Seq<AssignmentView>, name: Seq<char>, i: int) -> bool {
    &&& 0 <= i < list.len()
    &&& list[i].name == name
    &&& forall|j: int| i < j < list.len() ==> (#[trigger] list[j]).name != name
}

/// Finds the id of the assignment named `name`.
pub fn find_assignment(list: &Vec<Assignment>, name: &str) -> (r: Option<String>)
    ensures
        r.deep_view() == assignment_id(list.deep_view(), name@),
{
    let ghost all = list.deep_view();
    let mut left: usize = list.len();
    while left > 0
        invariant
            left <= list.len(),
            all == list.deep_view(),
            forall|j: int| left <= j < list.len() ==> (#[trigger] all[j]).name != name@,
        decreases left,
    {
        left -= 1;
        if same_text(list[left].name.as_str(), name) {
            proof {
                assert(is_last_named(all, name@, left as int));
                let c = choose|c: int| is_last_named(all, name@, c);
                assert(is_last_named(all, name@, c));
                if c < left {
                    assert(all[left as int].name == name@);
                }
                if left < c {
                    assert(all[c].name == name@);
                }
            }
            return Some(list[left].id.clone());
        }
    }
    proof {
        assert forall|c: int| !is_last_named(all, name@, c) by {
            if 0 <= c < all.len() {
                assert(all[c].name != name@);
            }
        }
    }
    None
}

/// The values that list a participant: those with an id, a group's name, a
/// group's id and a status.
pub open spec fn is_listed() -> spec_fn(Value) -> bool {
    |value: Value|
        json_member(value, "id"@) is Some && json_member(value, "groupname"@) is Some
            && json_member(value, "groupid"@) is Some && json_member(value, "submissionstatus"@)
            is Some
}

/// The participant that a value lists: the ids as they are written, the
/// status, which is a text, and the group's name. The name of the group of
/// one who handed in is a text; that of another is taken as empty where it
/// is none.
pub open spec fn participant_of() -> spec_fn(Value) -> Option<ParticipantView> {
    |value: Value|
        match (
            json_member(value, "id"@),
            json_member(value, "groupid"@),
            member_text(value, "submissionstatus"@),
        ) {
            (Some(user), Some(group), Some(status)) => {
                let name = member_text(value, "groupname"@);
                if status == SUBMITTED@ && name is None {
                    None
                } else {
                    Some(
                        ParticipantView {
                            user_id: json_rendered(user),
                            group_id: json_rendered(group),
                            group_name: match name {
                                Some(name) => name,
                                None => Seq::empty(),
                            },
                            status,
                        },
                    )
                }
            },
            _ => None,
        }
}

/// The participants that a reply lists. A failure where the reply is no
/// JSON array, or lists a participant whose status, or whose group's name
/// where it counts, is no text.
pub open spec fn participants_in(reply: Seq<char>) -> Result<Seq<ParticipantView>, KasmError> {
    match json_parse(reply) {
        None => Err(KasmError::UnexpectedReply),
        Some(value) => match json_items(value) {
            None => Err(KasmError::UnexpectedReply),
            Some(list) => if all_readable(list, is_listed(), participant_of()) {
                Ok(read_each(list, is_listed(), participant_of()))
            } else {
                Err(KasmError::UnexpectedReply)
            },
        },
    }
}

/// Whether a value lists a participant.
pub fn lists_participant(value: &Value) -> (r: bool)
    ensures
        r == is_listed()(*value),
{
    member(value, "id").is_some() && member(value, "groupname").is_some() && member(
        value,
        "groupid",
    ).is_some() && member(value, "submissionstatus").is_some()
}

/// Reads the participant that a value lists.
pub fn read_participant(value: &Value) -> (r: Option<Participant>)
    ensures
        r.deep_view() == participant_of()(*value),
{
    match (member(value, "id"), member(value, "groupid"), text_under(value, "submissionstatus")) {
        (Some(user), Some(group), Some(status)) => {
            let group_name = match text_under(value, "groupname") {
                Some(name) => name.to_owned(),
                None => {
                    if same_text(status, SUBMITTED) {
                        return None;
                    }
                    String::new()
                },
            };
            Some(
                Participant {
                    user_id: rendered(user),
                    group_id: rendered(group),
                    group_name,
                    status: status.to_owned(),
                },
            )
        },
        _ => None,
    }
}

/// Reads the participants of an assignment off the platform's reply.
pub fn read_participants(reply: &str) -> (r: Result<Vec<Participant>, KasmError>)
    ensures
        match r {
            Ok(list) => participants_in(reply@) == Ok::<Seq<ParticipantView>, KasmError>(
                list.deep_view(),
            ),
            Err(e) => participants_in(reply@) == Err::<Seq<ParticipantView>, KasmError>(e),
        },
{
    let value = match parse(reply) {
        Ok(value) => value,
        Err(_) => { return Err(KasmError::UnexpectedReply); },
    };
    let list = match items(&value) {
        Some(list) => list,
        None => { return Err(KasmError::UnexpectedReply); },
    };
    let ghost all = list@;
    let ghost keep = is_listed();
    let ghost read = participant_of();
    let mut out: Vec<Participant> = Vec::new();
    let mut i: usize = 0;
    proof {
        reveal(Seq::filter);
        assert(all.take(0) =~= Seq::<Value>::empty());
        assert(out.deep_view() =~= read_each(all.take(0), keep, read));
    }
    while i < list.len()
        invariant
            i <= list.len(),
            all == list@,
            keep == is_listed(),
            read == participant_of(),
            json_items(value) == Some(all),
            json_parse(reply@) == Some(value),
            all_readable(all.take(i as int), keep, read),
            out.deep_view() == read_each(all.take(i as int), keep, read),
        decreases list.len() - i,
    {
        let ghost done = all.take(i as int);
        let ghost before = out.deep_view();
        proof {
            assert(all.take(i as int + 1) =~= done.push(all[i as int]));
            Seq::lemma_filter_push(done, all[i as int], keep);
            assert forall|j: int| 0 <= j < done.len() implies #[trigger] done.push(
                all[i as int],
            )[j] == done[j] by {}
        }
        if lists_participant(&list[i]) {
            match read_participant(&list[i]) {
                None => {
                    assert(keep(all[i as int]) && read(all[i as int]) is None);
                    return Err(KasmError::UnexpectedReply);
                },
                Some(participant) => {
                    out.push(participant);
                    proof {
                        assert(out.deep_view() =~= before.push(unwrapped(read)(all[i as int])));
                        assert(done.push(all[i as int]).filter(keep).map_values(unwrapped(read))
                            =~= done.filter(keep).map_values(unwrapped(read)).push(
                            unwrapped(read)(all[i as int]),
                        ));
                    }
                },
            }
        }
        proof {
            assert forall|j: int|
                0 <= j < done.push(all[i as int]).len() && keep(
                    #[trigger] done.push(all[i as int])[j],
                ) implies read(done.push(all[i as int])[j]) is Some by {
                if j < done.len() {
                    assert(done.push(all[i as int])[j] == done[j]);
                }
            }
        }
        i += 1;
    }
    assert(all.take(list.len() as int) =~= all);
    Ok(out)
}

/// The file that a value lists: its address and its name, where they are
/// texts.
pub open spec fn file_of() -> spec_fn(Value) -> FetchedFileView {
    |value: Value|
        FetchedFileView {
            url: member_text(value, "fileurl"@),
            name: member_text(value, "filename"@),
        }
}

/// The files that an area of a submission lists.
pub open spec fn area_files() -> spec_fn(Value) -> Seq<FetchedFileView> {
    |area: Value|
        match member_items(area, "files"@) {
            Some(files) => files.map_values(file_of()),
            None => Seq::empty(),
        }
}

/// The areas that hold the files handed in.
pub open spec fn is_submission_area() -> spec_fn(Value) -> bool {
    |area: Value| member_text(area, "area"@) == Some(SUBMISSION_FILES_AREA@)
}

/// The areas of a plugin of a submission.
pub open spec fn plugin_areas(plugin: Value) -> Seq<Value> {
    match member_items(plugin, "fileareas"@) {
        Some(areas) => areas,
        None => Seq::empty(),
    }
}

/// Whether every area of a plugin says which area it is.
pub open spec fn areas_named(plugin: Value) -> bool {
    forall|i: int|
        0 <= i < plugin_areas(plugin).len() ==> json_member(
            #[trigger] plugin_areas(plugin)[i],
            "area"@,
        ) is Some
}

/// The files handed in that a plugin of a submission lists.
pub open spec fn plugin_files() -> spec_fn(Value) -> Seq<FetchedFileView> {
    |plugin: Value|
        plugin_areas(plugin).filter(is_submission_area()).map_values(area_files()).flatten()
}

/// The values that list a group's submission: those with a group's id and
/// plugins.
pub open spec fn has_files() -> spec_fn(Value) -> bool {
    |value: Value| json_member(value, "groupid"@) is Some && json_member(value, "plugins"@) is Some
}

/// The files of a group that a value lists. `None` where the plugins are no
/// array or an area does not say which it is.
pub open spec fn group_files_of() -> spec_fn(Value) -> Option<GroupFilesView> {
    |value: Value|
        match (json_member(value, "groupid"@), member_items(value, "plugins"@)) {
            (Some(group), Some(plugins)) => if forall|i: int|
                0 <= i < plugins.len() ==> areas_named(#[trigger] plugins[i]) {
                Some(
                    GroupFilesView {
                        group_id: json_rendered(group),
                        files: plugins.map_values(plugin_files()).flatten(),
                    },
                )
            } else {
                None
            },
            _ => None,
        }
}

/// The values that list the submissions of the first assignment of a
/// reply.
pub open spec fn listed_submissions(reply: Value) -> Option<Seq<Value>> {
    match member_items(reply, "assignments"@) {
        Some(assignments) => if assignments.len() > 0 {
            member_items(assignments[0], "submissions"@)
        } else {
            None
        },
        None => None,
    }
}

/// The submissions that a reply lists. A failure where the reply is no
/// JSON, lists no assignment with submissions, or lists a submission that
/// cannot be read.
pub open spec fn submissions_in(reply: Seq<char>) -> Result<Seq<GroupFilesView>, KasmError> {
    match json_parse(reply) {
        None => Err(KasmError::UnexpectedReply),
        Some(value) => match listed_submissions(value) {
            None => Err(KasmError::UnexpectedReply),
            Some(list) => if all_readable(list, has_files(), group_files_of()) {
                Ok(read_each(list, has_files(), group_files_of()))
            } else {
                Err(KasmError::UnexpectedReply)
            },
        },
    }
}

/// Reads the files that an area of a submission lists.
pub fn read_area_files(area: &Value) -> (r: Vec<FetchedFile>)
    ensures
        r.deep_view() == area_files()(*area),
{
    let mut out: Vec<FetchedFile> = Vec::new();
    let files = match items_under(area, "files") {
        Some(files) => files,
        None => {
            assert(out.deep_view() =~= Seq::<FetchedFileView>::empty());
            return out;
        },
    };
    let ghost all = files@;
    let mut i: usize = 0;
    assert(out.deep_view() =~= all.take(0).map_values(file_of()));
    while i < files.len()
        invariant
            i <= files.len(),
            all == files@,
            out.deep_view() == all.take(i as int).map_values(file_of()),
        decreases files.len() - i,
    {
        let ghost before = out.deep_view();
        let url = match text_under(&files[i], "fileurl") {
            Some(url) => Some(url.to_owned()),
            None => None,
        };
        let name = match text_under(&files[i], "filename") {
            Some(name) => Some(name.to_owned()),
            None => None,
        };
        out.push(FetchedFile { url, name });
        proof {
            assert(out.deep_view() =~= before.push(file_of()(all[i as int])));
            assert(all.take(i as int + 1).map_values(file_of()) =~= all.take(i as int).map_values(
                file_of(),
            ).push(file_of()(all[i as int])));
        }
        i += 1;
    }
    assert(all.take(files.len() as int) =~= all);
    out
}

/// Reads the files handed in that a plugin of a submission lists. `None`
/// where an area does not say which area it is.
pub fn read_plugin_files(plugin: &Value) -> (r: Option<Vec<FetchedFile>>)
    ensures
        match r {
            Some(files) => areas_named(*plugin) && files.deep_view() == plugin_files()(*plugin),
            None => !areas_named(*plugin),
        },
{
    let mut out: Vec<FetchedFile> = Vec::new();
    let areas = match items_under(plugin, "fileareas") {
        Some(areas) => areas,
        None => {
            proof {
                let none = Seq::<Value>::empty();
                reveal(Seq::filter);
                assert(none.filter(is_submission_area()).map_values(area_files()) =~= Seq::<
                    Seq<FetchedFileView>,
                >::empty());
                assert(out.deep_view() =~= plugin_files()(*plugin));
            }
            return Some(out);
        },
    };
    let ghost all = areas@;
    let ghost keep = is_submission_area();
    let mut i: usize = 0;
    proof {
        reveal(Seq::filter);
        assert(all.take(0) =~= Seq::<Value>::empty());
        assert(all.take(0).filter(keep).map_values(area_files()) =~= Seq::<
            Seq<FetchedFileView>,
        >::empty());
        assert(out.deep_view() =~= all.take(0).filter(keep).map_values(area_files()).flatten());
    }
    while i < areas.len()
        invariant
            i <= areas.len(),
            all == areas@,
            all == plugin_areas(*plugin),
            keep == is_submission_area(),
            forall|j: int| 0 <= j < i ==> json_member(#[trigger] all[j], "area"@) is Some,
            out.deep_view() == all.take(i as int).filter(keep).map_values(area_files()).flatten(),
        decreases areas.len() - i,
    {
        let ghost done = all.take(i as int);
        let ghost before = out.deep_view();
        proof {
            assert(all.take(i as int + 1) =~= done.push(all[i as int]));
            Seq::lemma_filter_push(done, all[i as int], keep);
        }
        let area = &areas[i];
        let kind = match member(area, "area") {
            Some(kind) => kind,
            None => {
                assert(json_member(plugin_areas(*plugin)[i as int], "area"@) is None);
                return None;
            },
        };
        let is_wanted = match text(kind) {
            Some(kind) => same_text(kind, SUBMISSION_FILES_AREA),
            None => false,
        };
        if is_wanted {
            let mut files = read_area_files(area);
            let ghost added = files.deep_view();
            out.append(&mut files);
            proof {
                assert(out.deep_view() =~= before + added);
                assert(done.push(all[i as int]).filter(keep).map_values(area_files())
                    =~= done.filter(keep).map_values(area_files()).push(
                    area_files()(all[i as int]),
                ));
                done.filter(keep).map_values(area_files()).lemma_flatten_push(
                    area_files()(all[i as int]),
                );
            }
        }
        i += 1;
    }
    assert(all.take(areas.len() as int) =~= all);
    Some(out)
}

/// Reads the files of a group that a value lists.
pub fn read_group_files(value: &Value) -> (r: Option<GroupFiles>)
    ensures
        r.deep_view() == group_files_of()(*value),
{
    let group = match member(value, "groupid") {
        Some(group) => group,
        None => { return None; },
    };
    let plugins = match items_under(value, "plugins") {
        Some(plugins) => plugins,
        None => { return None; },
    };
    let ghost all = plugins@;
    let mut files: Vec<FetchedFile> = Vec::new();
    let mut i: usize = 0;
    proof {
        assert(all.take(0).map_values(plugin_files()) =~= Seq::<Seq<FetchedFileView>>::empty());
        assert(files.deep_view() =~= all.take(0).map_values(plugin_files()).flatten());
    }
    while i < plugins.len()
        invariant
            i <= plugins.len(),
            all == plugins@,
            member_items(*value, "plugins"@) == Some(all),
            json_member(*value, "groupid"@) == Some(*group),
            forall|j: int| 0 <= j < i ==> areas_named(#[trigger] all[j]),
            files.deep_view() == all.take(i as int).map_values(plugin_files()).flatten(),
        decreases plugins.len() - i,
    {
        let ghost done = all.take(i as int);
        let ghost before = files.deep_view();
        let mut found = match read_plugin_files(&plugins[i]) {
            Some(found) => found,
            None => {
                assert(!areas_named(all[i as int]));
                return None;
            },
        };
        let ghost added = found.deep_view();
        files.append(&mut found);
        proof {
            assert(files.deep_view() =~= before + added);
            assert(all.take(i as int + 1) =~= done.push(all[i as int]));
            assert(done.push(all[i as int]).map_values(plugin_files()) =~= done.map_values(
                plugin_files(),
            ).push(plugin_files()(all[i as int])));
            done.map_values(plugin_files()).lemma_flatten_push(plugin_files()(all[i as int]));
        }
        i += 1;
    }
    assert(all.take(plugins.len() as int) =~= all);
    Some(GroupFiles { group_id: rendered(group), files })
}

/// Whether a value lists a group's submission.
pub fn lists_files(value: &Value) -> (r: bool)
    ensures
        r == has_files()(*value),
{
    member(value, "groupid").is_some() && member(value, "plugins").is_some()
}

/// Reads the submissions of an assignment off the platform's reply.
pub fn read_submissions(reply: &str) -> (r: Result<Vec<GroupFiles>, KasmError>)
    ensures
        match r {
            Ok(list) => submissions_in(reply@) == Ok::<Seq<GroupFilesView>, KasmError>(
                list.deep_view(),
            ),
            Err(e) => submissions_in(reply@) == Err::<Seq<GroupFilesView>, KasmError>(e),
        },
{
    let value = match parse(reply) {
        Ok(value) => value,
        Err(_) => { return Err(KasmError::UnexpectedReply); },
    };
    let assignments = match items_under(&value, "assignments") {
        Some(assignments) => assignments,
        None => { return Err(KasmError::UnexpectedReply); },
    };
    if assignments.len() == 0 {
        return Err(KasmError::UnexpectedReply);
    }
    let list = match items_under(&assignments[0], "submissions") {
        Some(list) => list,
        None => { return Err(KasmError::UnexpectedReply); },
    };
    let ghost all = list@;
    let ghost keep = has_files();
    let ghost read = group_files_of();
    let mut out: Vec<GroupFiles> = Vec::new();
    let mut i: usize = 0;
    proof {
        reveal(Seq::filter);
        assert(all.take(0) =~= Seq::<Value>::empty());
        assert(out.deep_view() =~= read_each(all.take(0), keep, read));
    }
    while i < list.len()
        invariant
            i <= list.len(),
            all == list@,
            keep == has_files(),
            read == group_files_of(),
            listed_submissions(value) == Some(all),
            json_parse(reply@) == Some(value),
            all_readable(all.take(i as int), keep, read),
            out.deep_view() == read_each(all.take(i as int), keep, read),
        decreases list.len() - i,
    {
        let ghost done = all.take(i as int);
        let ghost before = out.deep_view();
        proof {
            assert(all.take(i as int + 1) =~= done.push(all[i as int]));
            Seq::lemma_filter_push(done, all[i as int], keep);
        }
        if lists_files(&list[i]) {
            match read_group_files(&list[i]) {
                None => {
                    assert(keep(all[i as int]) && read(all[i as int]) is None);
                    return Err(KasmError::UnexpectedReply);
                },
                Some(group) => {
                    out.push(group);
                    proof {
                        assert(out.deep_view() =~= before.push(unwrapped(read)(all[i as int])));
                        assert(done.push(all[i as int]).filter(keep).map_values(unwrapped(read))
                            =~= done.filter(keep).map_values(unwrapped(read)).push(
                            unwrapped(read)(all[i as int]),
                        ));
                    }
                },
            }
        }
        proof {
            assert forall|j: int|
                0 <= j < done.push(all[i as int]).len() && keep(
                    #[trigger] done.push(all[i as int])[j],
                ) implies read(done.push(all[i as int])[j]) is Some by {
                if j < done.len() {
                    assert(done.push(all[i as int])[j] == done[j]);
                }
            }
        }
        i += 1;
    }
    assert(all.take(list.len() as int) =~= all);
    Ok(out)
}

} // verus!
