use vstd::prelude::*;
use vstd::string::*;

use crate::config::{
    unpack_path, working_dir, Grade, GradeView, Grades, GradesView, MasterCfg, MasterCfgView,
    Source, UNPACK_GRADES_FILENAME,
};
use crate::error::{outcome, KasmError};
use crate::pattern::{belongs_to, is_unit_id, PatternMatcher};
use crate::seqs::{first_where, is_first_where, lemma_first_where_absent, lemma_first_where_found};
use crate::text::{chars_of, clone_texts, contains_text, same_text, split, split_text};
use crate::unpack::numbered;

verus! {

/// The status of a participant who handed something in.
pub const SUBMITTED: &'static str = "submitted";

/// The grade that a fetched group starts with.
pub const INITIAL_GRADE: &'static str = "0";

/// The expression that finds the sheet's number in an assignment's name.
pub const SHEET_NUMBER_REGEX: &'static str = "([0-9]{1,2})";

/// One participant of an assignment, as the platform lists them.
#[derive(Debug)]
pub struct Participant {
    pub user_id: String,
    pub group_id: String,
    pub group_name: String,
    pub status: String,
}

/// A `Participant` as plain values.
pub struct ParticipantView {
    pub user_id: Seq<char>,
    pub group_id: Seq<char>,
    pub group_name: Seq<char>,
    pub status: Seq<char>,
}

impl View for Participant {
    type V = ParticipantView;

    open spec fn view(&self) -> ParticipantView {
        ParticipantView {
            user_id: self.user_id@,
            group_id: self.group_id@,
            group_name: self.group_name@,
            status: self.status@,
        }
    }
}

impl DeepView for Participant {
    type V = ParticipantView;

    open spec fn deep_view(&self) -> ParticipantView {
        self@
    }
}

/// A group that handed something in, with its members.
#[derive(Debug)]
pub struct FetchedGroup {
    pub id: String,
    pub name: String,
    /// The platform's ids of the members who handed in, in listing order.
    pub members: Vec<String>,
}

/// A `FetchedGroup` as plain values.
pub struct FetchedGroupView {
    pub id: Seq<char>,
    pub name: Seq<char>,
    pub members: Seq<Seq<char>>,
}

impl View for FetchedGroup {
    type V = FetchedGroupView;

    open spec fn view(&self) -> FetchedGroupView {
        FetchedGroupView { id: self.id@, name: self.name@, members: self.members.deep_view() }
    }
}

impl DeepView for FetchedGroup {
    type V = FetchedGroupView;

    open spec fn deep_view(&self) -> FetchedGroupView {
        self@
    }
}

/// The participants who handed something in.
pub open spec fn has_submitted() -> spec_fn(ParticipantView) -> bool {
    |p: ParticipantView| p.status == SUBMITTED@
}

/// The participants of the group `id`.
pub open spec fn is_member_of(id: Seq<char>) -> spec_fn(ParticipantView) -> bool {
    |p: ParticipantView| p.group_id == id
}

/// A participant's id.
pub open spec fn user_id() -> spec_fn(ParticipantView) -> Seq<char> {
    |p: ParticipantView| p.user_id
}

/// The numbered participants before whom none is of the same group.
pub open spec fn opens_group(submitted: Seq<ParticipantView>) -> spec_fn(
    (int, ParticipantView),
) -> bool {
    |p: (int, ParticipantView)|
        forall|j: int|
            0 <= j < p.0 && j < submitted.len() ==> (#[trigger] submitted[j]).group_id
                != p.1.group_id
}

/// The group that a participant opens: named as the participant names it,
/// with all who handed in for it as members.
pub open spec fn group_opened(submitted: Seq<ParticipantView>) -> spec_fn(
    (int, ParticipantView),
) -> FetchedGroupView {
    |p: (int, ParticipantView)|
        FetchedGroupView {
            id: p.1.group_id,
            name: p.1.group_name,
            members: submitted.filter(is_member_of(p.1.group_id)).map_values(user_id()),
        }
}

/// The groups that handed something in, in the order in which they first
/// appear among the participants.
pub open spec fn groups_of(participants: Seq<ParticipantView>) -> Seq<FetchedGroupView> {
    let submitted = participants.filter(has_submitted());
    numbered(submitted).filter(opens_group(submitted)).map_values(group_opened(submitted))
}

/// Keeps the participants who handed something in.
pub fn submitted_only(participants: &Vec<Participant>) -> (r: Vec<Participant>)
    ensures
        r.deep_view() == participants.deep_view().filter(has_submitted()),
{
    let ghost all = participants.deep_view();
    let mut out: Vec<Participant> = Vec::new();
    let mut i: usize = 0;
    proof {
        reveal(Seq::filter);
        assert(all.take(0) =~= Seq::<ParticipantView>::empty());
        assert(out.deep_view() =~= all.take(0).filter(has_submitted()));
    }
    while i < participants.len()
        invariant
            i <= participants.len(),
            all == participants.deep_view(),
            out.deep_view() == all.take(i as int).filter(has_submitted()),
        decreases participants.len() - i,
    {
        proof {
            assert(all.take(i as int + 1) =~= all.take(i as int).push(all[i as int]));
            Seq::lemma_filter_push(all.take(i as int), all[i as int], has_submitted());
        }
        let p = &participants[i];
        if same_text(p.status.as_str(), SUBMITTED) {
            let ghost before = out.deep_view();
            out.push(
                Participant {
                    user_id: p.user_id.clone(),
                    group_id: p.group_id.clone(),
                    group_name: p.group_name.clone(),
                    status: p.status.clone(),
                },
            );
            assert(out.deep_view() =~= before.push(all[i as int]));
        }
        i += 1;
    }
    assert(all.take(participants.len() as int) =~= all);
    out
}

/// The ids of the participants of the group `id`, in listing order.
pub fn members_of(submitted: &Vec<Participant>, id: &str) -> (r: Vec<String>)
    ensures
        r.deep_view() == submitted.deep_view().filter(is_member_of(id@)).map_values(user_id()),
{
    let ghost all = submitted.deep_view();
    let ghost of = is_member_of(id@);
    let mut out: Vec<String> = Vec::new();
    let mut i: usize = 0;
    proof {
        reveal(Seq::filter);
        assert(all.take(0) =~= Seq::<ParticipantView>::empty());
        assert(out.deep_view() =~= all.take(0).filter(of).map_values(user_id()));
    }
    while i < submitted.len()
        invariant
            i <= submitted.len(),
            all == submitted.deep_view(),
            of == is_member_of(id@),
            out.deep_view() == all.take(i as int).filter(of).map_values(user_id()),
        decreases submitted.len() - i,
    {
        proof {
            assert(all.take(i as int + 1) =~= all.take(i as int).push(all[i as int]));
            Seq::lemma_filter_push(all.take(i as int), all[i as int], of);
        }
        if same_text(submitted[i].group_id.as_str(), id) {
            let ghost before = out.deep_view();
            out.push(submitted[i].user_id.clone());
            proof {
                assert(out.deep_view() =~= before.push(user_id()(all[i as int])));
                assert(all.take(i as int + 1).filter(of).map_values(user_id()) =~= all.take(
                    i as int,
                ).filter(of).map_values(user_id()).push(user_id()(all[i as int])));
            }
        }
        i += 1;
    }
    assert(all.take(submitted.len() as int) =~= all);
    out
}

/// A participant's group, as the participant names it.
pub open spec fn group_key() -> spec_fn(ParticipantView) -> Seq<char> {
    |p: ParticipantView| p.group_id
}

/// Gathers the participants who handed something in into their groups.
pub fn group_mappings(participants: &Vec<Participant>) -> (r: Vec<FetchedGroup>)
    ensures
        r.deep_view() == groups_of(participants.deep_view()),
{
    let submitted = submitted_only(participants);
    let ghost rows = submitted.deep_view();
    let ghost first = opens_group(rows);
    let ghost open = group_opened(rows);
    let ghost key = group_key();
    let mut groups: Vec<FetchedGroup> = Vec::new();
    let mut seen: Vec<String> = Vec::new();
    let mut i: usize = 0;
    proof {
        reveal(Seq::filter);
        assert(numbered(rows).take(0) =~= Seq::<(int, ParticipantView)>::empty());
        assert(groups.deep_view() =~= numbered(rows).take(0).filter(first).map_values(open));
    }
    while i < submitted.len()
        invariant
            i <= submitted.len(),
            rows == submitted.deep_view(),
            first == opens_group(rows),
            open == group_opened(rows),
            key == group_key(),
            forall|j: int| 0 <= j < i ==> seen.deep_view().contains(key(#[trigger] rows[j])),
            forall|m: int|
                0 <= m < seen.len() ==> exists|j: int|
                    0 <= j < i && key(#[trigger] rows[j]) == (#[trigger] seen.deep_view()[m]),
            groups.deep_view() == numbered(rows).take(i as int).filter(first).map_values(open),
        decreases submitted.len() - i,
    {
        let ghost done = numbered(rows).take(i as int);
        let ghost here = (i as int, rows[i as int]);
        let ghost before = groups.deep_view();
        let ghost old_seen = seen.deep_view();
        proof {
            assert(numbered(rows).take(i as int + 1) =~= done.push(here));
            Seq::lemma_filter_push(done, here, first);
        }
        let p = &submitted[i];
        assert(p.group_id@ == key(rows[i as int]));
        if !contains_text(&seen, p.group_id.as_str()) {
            proof {
                assert forall|j: int| 0 <= j < i && j < rows.len() implies (
                #[trigger] rows[j]).group_id != here.1.group_id by {
                    assert(old_seen.contains(key(rows[j])));
                }
                assert(first(here));
            }
            seen.push(p.group_id.clone());
            groups.push(
                FetchedGroup {
                    id: p.group_id.clone(),
                    name: p.group_name.clone(),
                    members: members_of(&submitted, p.group_id.as_str()),
                },
            );
            proof {
                assert(seen.deep_view() =~= old_seen.push(p.group_id@));
                assert(groups.deep_view() =~= before.push(open(here)));
                assert(done.push(here).filter(first).map_values(open) =~= done.filter(
                    first,
                ).map_values(open).push(open(here)));
                assert forall|j: int| 0 <= j < i + 1 implies seen.deep_view().contains(
                    key(#[trigger] rows[j]),
                ) by {
                    if j < i {
                        let at = choose|at: int|
                            0 <= at < old_seen.len() && old_seen[at] == key(rows[j]);
                        assert(seen.deep_view()[at] == key(rows[j]));
                    } else {
                        assert(seen.deep_view()[old_seen.len() as int] == key(rows[j]));
                    }
                }
                assert forall|m: int| 0 <= m < seen.len() implies exists|j: int|
                    0 <= j < i + 1 && key(#[trigger] rows[j]) == (#[trigger] seen.deep_view()[m]) by {
                    if m < old_seen.len() {
                        let j = choose|j: int|
                            0 <= j < i && key(#[trigger] rows[j]) == old_seen[m];
                        assert(key(rows[j]) == seen.deep_view()[m]);
                    } else {
                        assert(key(rows[i as int]) == seen.deep_view()[m]);
                    }
                }
            }
        } else {
            proof {
                let at = choose|at: int| 0 <= at < old_seen.len() && old_seen[at] == p.group_id@;
                let j = choose|j: int| 0 <= j < i && key(#[trigger] rows[j]) == old_seen[at];
                assert(rows[j].group_id == here.1.group_id);
                assert(!first(here));
            }
        }
        i += 1;
    }
    assert(numbered(rows).take(submitted.len() as int) =~= numbered(rows));
    groups
}

/// The groups that belong to `unit`: those out of whose name the matcher
/// reads it.
pub open spec fn is_selected(reg: PatternMatcher, unit: Option<Seq<char>>) -> spec_fn(
    FetchedGroupView,
) -> bool {
    |g: FetchedGroupView| is_unit_id(reg.unit_of(g.name), unit)
}

/// Keeps the groups that belong to `unit`.
pub fn select_groups(groups: &Vec<FetchedGroup>, reg: &PatternMatcher, unit: Option<&str>) -> (r:
    Vec<FetchedGroup>)
    ensures
        r.deep_view() == groups.deep_view().filter(is_selected(*reg, unit.deep_view())),
{
    let ghost all = groups.deep_view();
    let ghost keep = is_selected(*reg, unit.deep_view());
    let mut out: Vec<FetchedGroup> = Vec::new();
    let mut i: usize = 0;
    proof {
        reveal(Seq::filter);
        assert(all.take(0) =~= Seq::<FetchedGroupView>::empty());
        assert(out.deep_view() =~= all.take(0).filter(keep));
    }
    while i < groups.len()
        invariant
            i <= groups.len(),
            all == groups.deep_view(),
            keep == is_selected(*reg, unit.deep_view()),
            out.deep_view() == all.take(i as int).filter(keep),
        decreases groups.len() - i,
    {
        proof {
            assert(all.take(i as int + 1) =~= all.take(i as int).push(all[i as int]));
            Seq::lemma_filter_push(all.take(i as int), all[i as int], keep);
        }
        let group = &groups[i];
        let class = reg.classify(group.name.as_str());
        if belongs_to(&class, unit) {
            let ghost before = out.deep_view();
            out.push(
                FetchedGroup {
                    id: group.id.clone(),
                    name: group.name.clone(),
                    members: clone_texts(&group.members),
                },
            );
            assert(out.deep_view() =~= before.push(all[i as int]));
        }
        i += 1;
    }
    assert(all.take(groups.len() as int) =~= all);
    out
}

/// The ledger entry that a fetched group opens.
pub open spec fn fetched_entry() -> spec_fn(FetchedGroupView) -> GradeView {
    |g: FetchedGroupView|
        GradeView {
            target: g.name,
            internal_id: Some(g.id),
            members: Some(g.members),
            grade: INITIAL_GRADE@,
        }
}

/// The ledger of a sheet whose files were fetched: one entry for each
/// group, with the platform's ids of the group and of its members.
pub open spec fn fetched_grades(
    sheet_id: Seq<char>,
    assign_id: Seq<char>,
    groups: Seq<FetchedGroupView>,
) -> GradesView {
    GradesView {
        location: unpack_path(sheet_id) + "/"@ + UNPACK_GRADES_FILENAME@,
        assign_id: Some(assign_id),
        source: Source::Autofetch,
        sheet_id,
        map: groups.map_values(fetched_entry()),
    }
}

/// Builds the ledger of a sheet whose files are fetched.
pub fn gen_grading_files(sheet_id: &str, assign_id: &str, groups: &Vec<FetchedGroup>) -> (r: Grades)
    ensures
        r@ == fetched_grades(sheet_id@, assign_id@, groups.deep_view()),
{
    let ghost all = groups.deep_view();
    let mut grades_arr: Vec<Grade> = Vec::new();
    let mut i: usize = 0;
    assert(grades_arr.deep_view() =~= all.take(0).map_values(fetched_entry()));
    while i < groups.len()
        invariant
            i <= groups.len(),
            all == groups.deep_view(),
            grades_arr.deep_view() == all.take(i as int).map_values(fetched_entry()),
        decreases groups.len() - i,
    {
        let ghost before = grades_arr.deep_view();
        let group = &groups[i];
        grades_arr.push(
            Grade {
                target: group.name.clone(),
                internal_id: Some(group.id.clone()),
                members: Some(clone_texts(&group.members)),
                grade: INITIAL_GRADE.to_owned(),
            },
        );
        proof {
            assert(grades_arr.deep_view() =~= before.push(fetched_entry()(all[i as int])));
            assert(all.take(i as int + 1).map_values(fetched_entry()) =~= all.take(
                i as int,
            ).map_values(fetched_entry()).push(fetched_entry()(all[i as int])));
        }
        i += 1;
    }
    assert(all.take(groups.len() as int) =~= all);
    let mut location = working_dir(sheet_id);
    location.append("/");
    location.append(UNPACK_GRADES_FILENAME);
    Grades {
        location,
        assign_id: Some(assign_id.to_owned()),
        source: Source::Autofetch,
        sheet_id: sheet_id.to_owned(),
        map: grades_arr,
    }
}

/// The sheet that an assignment is for: the last word of its name.
pub open spec fn sheet_id_of(selected: Seq<char>) -> Seq<char> {
    split(selected, ' ').last()
}

/// Reads the sheet off an assignment's name.
pub fn read_sheet_id(selected: &str) -> (r: String)
    ensures
        r@ == sheet_id_of(selected@),
{
    let words = split_text(selected, ' ');
    words[words.len() - 1].clone()
}

/// Where the files of an assignment are put: the working directory of the
/// sheet whose number the matcher reads out of the assignment's name.
pub open spec fn download_dir(numbers: PatternMatcher, selected: Seq<char>) -> Option<Seq<char>> {
    match numbers.unit_of(selected) {
        Some(number) => Some(unpack_path(number)),
        None => None,
    }
}

/// Settles where the files of an assignment are put.
pub fn make_download_dir(numbers: &PatternMatcher, selected: &str) -> (r: Result<String, KasmError>)
    ensures
        match r {
            Ok(dir) => download_dir(*numbers, selected@) == Some(dir@),
            Err(e) => e == KasmError::SheetNotNumbered && download_dir(*numbers, selected@) is None,
        },
{
    match numbers.classify(selected) {
        Some(number) => Ok(working_dir(number.as_str())),
        None => Err(KasmError::SheetNotNumbered),
    }
}

/// One file of a submission, as the platform lists it.
#[derive(Debug)]
pub struct FetchedFile {
    pub url: Option<String>,
    pub name: Option<String>,
}

/// A `FetchedFile` as plain values.
pub struct FetchedFileView {
    pub url: Option<Seq<char>>,
    pub name: Option<Seq<char>>,
}

impl View for FetchedFile {
    type V = FetchedFileView;

    open spec fn view(&self) -> FetchedFileView {
        FetchedFileView { url: self.url.deep_view(), name: self.name.deep_view() }
    }
}

impl DeepView for FetchedFile {
    type V = FetchedFileView;

    open spec fn deep_view(&self) -> FetchedFileView {
        self@
    }
}

/// The files that a group handed in.
#[derive(Debug)]
pub struct GroupFiles {
    pub group_id: String,
    pub files: Vec<FetchedFile>,
}

/// A `GroupFiles` as plain values.
pub struct GroupFilesView {
    pub group_id: Seq<char>,
    pub files: Seq<FetchedFileView>,
}

impl View for GroupFiles {
    type V = GroupFilesView;

    open spec fn view(&self) -> GroupFilesView {
        GroupFilesView { group_id: self.group_id@, files: self.files.deep_view() }
    }
}

impl DeepView for GroupFiles {
    type V = GroupFilesView;

    open spec fn deep_view(&self) -> GroupFilesView {
        self@
    }
}

/// One file to download: from where, to where, and for which group.
#[derive(Debug)]
pub struct SubmissionFileMap {
    pub dl_path: String,
    pub dl_url: String,
    pub group_id: String,
    pub group_name: String,
}

/// A `SubmissionFileMap` as plain values.
pub struct SubmissionFileMapView {
    pub dl_path: Seq<char>,
    pub dl_url: Seq<char>,
    pub group_id: Seq<char>,
    pub group_name: Seq<char>,
}

impl View for SubmissionFileMap {
    type V = SubmissionFileMapView;

    open spec fn view(&self) -> SubmissionFileMapView {
        SubmissionFileMapView {
            dl_path: self.dl_path@,
            dl_url: self.dl_url@,
            group_id: self.group_id@,
            group_name: self.group_name@,
        }
    }
}

impl DeepView for SubmissionFileMap {
    type V = SubmissionFileMapView;

    open spec fn deep_view(&self) -> SubmissionFileMapView {
        self@
    }
}

impl Clone for SubmissionFileMap {
    fn clone(&self) -> (r: SubmissionFileMap)
        ensures
            r@ == self@,
    {
        SubmissionFileMap {
            dl_path: self.dl_path.clone(),
            dl_url: self.dl_url.clone(),
            group_id: self.group_id.clone(),
            group_name: self.group_name.clone(),
        }
    }
}

/// The submissions of the group `id`.
pub open spec fn is_of_group(id: Seq<char>) -> spec_fn(GroupFilesView) -> bool {
    |s: GroupFilesView| s.group_id == id
}

/// The files that have both an address and a name.
pub open spec fn is_complete() -> spec_fn(FetchedFileView) -> bool {
    |f: FetchedFileView| f.url is Some && f.name is Some
}

/// Where a file of a group is put: under the group's name in the download
/// directory.
pub open spec fn download_path(base: Seq<char>, group: Seq<char>, file: Seq<char>) -> Seq<char> {
    base + "/"@ + group + "/"@ + file
}

/// The download of one file of `group`.
pub open spec fn download_of(base: Seq<char>, group: FetchedGroupView) -> spec_fn(
    FetchedFileView,
) -> SubmissionFileMapView {
    |f: FetchedFileView|
        SubmissionFileMapView {
            dl_path: download_path(base, group.name, f.name->0),
            dl_url: f.url->0,
            group_id: group.id,
            group_name: group.name,
        }
}

/// The files that the platform lists for the group `id`: those of the
/// last submission of the group.
pub open spec fn files_for(submissions: Seq<GroupFilesView>, id: Seq<char>) -> Option<
    Seq<FetchedFileView>,
> {
    let latest_first = submissions.reverse();
    match first_where(latest_first, is_of_group(id)) {
        Some(i) => Some(latest_first[i].files),
        None => None,
    }
}

/// The downloads of a group: one for each complete file of its submission.
pub open spec fn group_downloads(base: Seq<char>, submissions: Seq<GroupFilesView>) -> spec_fn(
    FetchedGroupView,
) -> Seq<SubmissionFileMapView> {
    |g: FetchedGroupView|
        files_for(submissions, g.id)->0.filter(is_complete()).map_values(download_of(base, g))
}

/// Whether the platform lists a submission for every group.
pub open spec fn all_submitted(groups: Seq<FetchedGroupView>, submissions: Seq<GroupFilesView>) -> bool {
    forall|i: int| 0 <= i < groups.len() ==> files_for(submissions, (#[trigger] groups[i]).id) is Some
}

/// The downloads of all groups, group after group.
pub open spec fn downloads(
    base: Seq<char>,
    groups: Seq<FetchedGroupView>,
    submissions: Seq<GroupFilesView>,
) -> Seq<SubmissionFileMapView> {
    groups.map_values(group_downloads(base, submissions)).flatten()
}

/// The position of the last submission of the group `id`.
pub fn find_submission(submissions: &Vec<GroupFiles>, id: &str) -> (r: Option<usize>)
    ensures
        match r {
            Some(i) => i < submissions.len() && files_for(submissions.deep_view(), id@) == Some(
                submissions.deep_view()[i as int].files,
            ),
            None => files_for(submissions.deep_view(), id@) is None,
        },
{
    let ghost latest_first = submissions.deep_view().reverse();
    let mut left: usize = submissions.len();
    while left > 0
        invariant
            left <= submissions.len(),
            latest_first == submissions.deep_view().reverse(),
            forall|j: int|
                0 <= j < submissions.len() - left ==> !is_of_group(id@)(#[trigger] latest_first[j]),
        decreases left,
    {
        left -= 1;
        proof {
            assert(latest_first[submissions.len() - 1 - left] == submissions.deep_view()[left as int]);
        }
        if same_text(submissions[left].group_id.as_str(), id) {
            proof {
                assert(is_first_where(latest_first, is_of_group(id@), submissions.len() - 1 - left));
                lemma_first_where_found(
                    latest_first,
                    is_of_group(id@),
                    submissions.len() - 1 - left,
                );
            }
            return Some(left);
        }
    }
    proof {
        lemma_first_where_absent(latest_first, is_of_group(id@));
    }
    None
}

/// Joins the download directory, a group's name and a file's name.
pub fn make_download_path(base: &str, group: &str, file: &str) -> (r: String)
    ensures
        r@ == download_path(base@, group@, file@),
{
    let mut path = String::from_str(base);
    path.append("/");
    path.append(group);
    path.append("/");
    path.append(file);
    path
}

/// Lists the files to download for `groups`. Fails where the platform
/// lists no submission for one of them.
pub fn submission_files(base: &str, groups: &Vec<FetchedGroup>, submissions: &Vec<GroupFiles>) -> (r:
    Result<Vec<SubmissionFileMap>, KasmError>)
    ensures
        match r {
            Ok(files) => all_submitted(groups.deep_view(), submissions.deep_view())
                && files.deep_view() == downloads(
                base@,
                groups.deep_view(),
                submissions.deep_view(),
            ),
            Err(e) => e == KasmError::MissingSubmission && !all_submitted(
                groups.deep_view(),
                submissions.deep_view(),
            ),
        },
{
    let ghost all = groups.deep_view();
    let ghost listed = submissions.deep_view();
    let ghost per_group = group_downloads(base@, listed);
    let mut out: Vec<SubmissionFileMap> = Vec::new();
    let mut i: usize = 0;
    proof {
        assert(all.take(0).map_values(per_group) =~= Seq::<Seq<SubmissionFileMapView>>::empty());
        assert(out.deep_view() =~= all.take(0).map_values(per_group).flatten());
    }
    while i < groups.len()
        invariant
            i <= groups.len(),
            all == groups.deep_view(),
            listed == submissions.deep_view(),
            per_group == group_downloads(base@, listed),
            forall|j: int| 0 <= j < i ==> files_for(listed, (#[trigger] all[j]).id) is Some,
            out.deep_view() == all.take(i as int).map_values(per_group).flatten(),
        decreases groups.len() - i,
    {
        let group = &groups[i];
        let ghost g = all[i as int];
        let ghost before = out.deep_view();
        let at = match find_submission(submissions, group.id.as_str()) {
            Some(at) => at,
            None => {
                assert(files_for(listed, all[i as int].id) is None);
                return Err(KasmError::MissingSubmission);
            },
        };
        let files = &submissions[at].files;
        let ghost fv = files.deep_view();
        let ghost make = download_of(base@, g);
        let mut k: usize = 0;
        proof {
            reveal(Seq::filter);
            assert(fv.take(0) =~= Seq::<FetchedFileView>::empty());
            assert(out.deep_view() =~= before + fv.take(0).filter(is_complete()).map_values(make));
        }
        while k < files.len()
            invariant
                k <= files.len(),
                i < groups.len(),
                all == groups.deep_view(),
                g == all[i as int],
                group == &groups[i as int],
                fv == files.deep_view(),
                make == download_of(base@, g),
                out.deep_view() == before + fv.take(k as int).filter(is_complete()).map_values(
                    make,
                ),
            decreases files.len() - k,
        {
            proof {
                assert(fv.take(k as int + 1) =~= fv.take(k as int).push(fv[k as int]));
                Seq::lemma_filter_push(fv.take(k as int), fv[k as int], is_complete());
            }
            match (&files[k].url, &files[k].name) {
                (Some(url), Some(name)) => {
                    let ghost now = out.deep_view();
                    out.push(
                        SubmissionFileMap {
                            dl_path: make_download_path(
                                base,
                                group.name.as_str(),
                                name.as_str(),
                            ),
                            dl_url: url.clone(),
                            group_id: group.id.clone(),
                            group_name: group.name.clone(),
                        },
                    );
                    proof {
                        assert(out.deep_view() =~= now.push(make(fv[k as int])));
                        assert(fv.take(k as int + 1).filter(is_complete()).map_values(make)
                            =~= fv.take(k as int).filter(is_complete()).map_values(make).push(
                            make(fv[k as int]),
                        ));
                    }
                },
                _ => {},
            }
            k += 1;
        }
        proof {
            assert(fv.take(files.len() as int) =~= fv);
            assert(all.take(i as int + 1) =~= all.take(i as int).push(g));
            assert(all.take(i as int + 1).map_values(per_group) =~= all.take(i as int).map_values(
                per_group,
            ).push(per_group(g)));
            all.take(i as int).map_values(per_group).lemma_flatten_push(per_group(g));
        }
        i += 1;
    }
    assert(all.take(groups.len() as int) =~= all);
    Ok(out)
}

/// What fetching an assignment takes: where the files go, the ledger to
/// write, and the files to download.
#[derive(Debug)]
pub struct FetchPlan {
    pub base_path: String,
    pub grades: Grades,
    pub files: Vec<SubmissionFileMap>,
}

/// A `FetchPlan` as plain values.
pub struct FetchPlanView {
    pub base_path: Seq<char>,
    pub grades: GradesView,
    pub files: Seq<SubmissionFileMapView>,
}

impl View for FetchPlan {
    type V = FetchPlanView;

    open spec fn view(&self) -> FetchPlanView {
        FetchPlanView {
            base_path: self.base_path@,
            grades: self.grades@,
            files: self.files.deep_view(),
        }
    }
}

impl DeepView for FetchPlan {
    type V = FetchPlanView;

    open spec fn deep_view(&self) -> FetchPlanView {
        self@
    }
}

/// What `plan_download` gives for the assignment `selected` with the
/// platform's id `assign_id`: the first of the failures that applies, else
/// the ledger and the downloads of the groups that handed in and belong to
/// the configured unit.
pub open spec fn download_outcome(
    master: MasterCfgView,
    selected: Seq<char>,
    assign_id: Seq<char>,
    participants: Seq<ParticipantView>,
    submissions: Seq<GroupFilesView>,
) -> Result<FetchPlanView, KasmError> {
    let reg = PatternMatcher::compiled(master.groups_regex);
    let numbers = PatternMatcher::compiled(SHEET_NUMBER_REGEX@);
    if reg is None || numbers is None {
        Err(KasmError::BadPattern)
    } else if download_dir(numbers->0, selected) is None {
        Err(KasmError::SheetNotNumbered)
    } else {
        let base = download_dir(numbers->0, selected)->0;
        let groups = groups_of(participants).filter(is_selected(reg->0, master.group));
        if !all_submitted(groups, submissions) {
            Err(KasmError::MissingSubmission)
        } else {
            Ok(
                FetchPlanView {
                    base_path: base,
                    grades: fetched_grades(sheet_id_of(selected), assign_id, groups),
                    files: downloads(base, groups, submissions),
                },
            )
        }
    }
}

/// Plans the fetching of an assignment from what the platform lists of it.
pub fn plan_download(
    master: &MasterCfg,
    selected: &str,
    assign_id: &str,
    participants: &Vec<Participant>,
    submissions: &Vec<GroupFiles>,
) -> (r: Result<FetchPlan, KasmError>)
    ensures
        outcome(r) == download_outcome(
            master@,
            selected@,
            assign_id@,
            participants.deep_view(),
            submissions.deep_view(),
        ),
{
    let reg = match PatternMatcher::new(master.groups_regex.as_str()) {
        Ok(reg) => reg,
        Err(e) => { return Err(e); },
    };
    let numbers = match PatternMatcher::new(SHEET_NUMBER_REGEX) {
        Ok(numbers) => numbers,
        Err(e) => { return Err(e); },
    };
    let base_path = match make_download_dir(&numbers, selected) {
        Ok(dir) => dir,
        Err(e) => { return Err(e); },
    };
    let unit: Option<&str> = match &master.group {
        Some(group) => Some(group.as_str()),
        None => None,
    };
    let all_groups = group_mappings(participants);
    let groups = select_groups(&all_groups, &reg, unit);
    let files = match submission_files(base_path.as_str(), &groups, submissions) {
        Ok(files) => files,
        Err(e) => { return Err(e); },
    };
    let sheet_id = read_sheet_id(selected);
    let grades = gen_grading_files(sheet_id.as_str(), assign_id, &groups);
    Ok(FetchPlan { base_path, grades, files })
}

/// A grade as the platform's interface expects it: with a point where the
/// ledger writes a comma.
pub open spec fn moodle_grade(grade: Seq<char>) -> Seq<char> {
    grade.map_values(|c: char| if c == ',' { '.' } else { c })
}

/// Writes a grade as the platform's interface expects it.
pub fn make_moodle_grade(grade: &str) -> (r: String)
    ensures
        r@ == moodle_grade(grade@),
{
    let chars = chars_of(grade);
    let mut out = String::new();
    let mut i: usize = 0;
    assert(out@ =~= moodle_grade(chars@.take(0)));
    while i < chars.len()
        invariant
            i <= chars.len(),
            out@ == moodle_grade(chars@.take(i as int)),
        decreases chars.len() - i,
    {
        let c = chars[i];
        out.push(if c == ',' { '.' } else { c });
        assert(out@ =~= moodle_grade(chars@.take(i as int + 1)));
        i += 1;
    }
    assert(chars@.take(chars.len() as int) =~= chars@);
    out
}

/// One grade to push: to which assignment, through which member, and what.
#[derive(Debug)]
pub struct GradePush {
    pub assign_id: String,
    pub user_id: String,
    /// The grade as the ledger holds it.
    pub grade: String,
    /// The grade as the platform's interface expects it.
    pub adjusted: String,
}

/// A `GradePush` as plain values.
pub struct GradePushView {
    pub assign_id: Seq<char>,
    pub user_id: Seq<char>,
    pub grade: Seq<char>,
    pub adjusted: Seq<char>,
}

impl View for GradePush {
    type V = GradePushView;

    open spec fn view(&self) -> GradePushView {
        GradePushView {
            assign_id: self.assign_id@,
            user_id: self.user_id@,
            grade: self.grade@,
            adjusted: self.adjusted@,
        }
    }
}

impl DeepView for GradePush {
    type V = GradePushView;

    open spec fn deep_view(&self) -> GradePushView {
        self@
    }
}

/// Whether every entry names a member.
pub open spec fn all_have_members(map: Seq<GradeView>) -> bool {
    forall|i: int|
        0 <= i < map.len() ==> (#[trigger] map[i]).members is Some && map[i].members->0.len() > 0
}

/// The push of one entry: its grade goes to the assignment through the
/// entry's first member, and the platform applies it to the whole group.
pub open spec fn push_of(assign_id: Seq<char>) -> spec_fn(GradeView) -> GradePushView {
    |g: GradeView|
        GradePushView {
            assign_id,
            user_id: g.members->0[0],
            grade: g.grade,
            adjusted: moodle_grade(g.grade),
        }
}

/// What `push_grades` gives: one push for each entry, in the ledger's
/// order; a failure where the ledger names no assignment or an entry no
/// member.
pub open spec fn pushes(grades: GradesView) -> Result<Seq<GradePushView>, KasmError> {
    match grades.assign_id {
        None => Err(KasmError::MissingAssignment),
        Some(assign_id) => if !all_have_members(grades.map) {
            Err(KasmError::MissingMembers)
        } else {
            Ok(grades.map.map_values(push_of(assign_id)))
        },
    }
}

/// Lists the grades to push to the platform.
pub fn push_grades(grades: &Grades) -> (r: Result<Vec<GradePush>, KasmError>)
    ensures
        match r {
            Ok(list) => pushes(grades@) == Ok::<Seq<GradePushView>, KasmError>(list.deep_view()),
            Err(e) => pushes(grades@) == Err::<Seq<GradePushView>, KasmError>(e),
        },
{
    let assign_id = match &grades.assign_id {
        Some(id) => id,
        None => { return Err(KasmError::MissingAssignment); },
    };
    let ghost map = grades@.map;
    let ghost make = push_of(assign_id@);
    let mut out: Vec<GradePush> = Vec::new();
    let mut i: usize = 0;
    assert(out.deep_view() =~= map.take(0).map_values(make));
    while i < grades.map.len()
        invariant
            i <= grades.map.len(),
            map == grades@.map,
            grades@.assign_id == Some(assign_id@),
            make == push_of(assign_id@),
            forall|j: int|
                0 <= j < i ==> (#[trigger] map[j]).members is Some && map[j].members->0.len() > 0,
            out.deep_view() == map.take(i as int).map_values(make),
        decreases grades.map.len() - i,
    {
        let record = &grades.map[i];
        let ghost before = out.deep_view();
        match &record.members {
            None => {
                assert(map[i as int].members is None);
                return Err(KasmError::MissingMembers);
            },
            Some(members) => {
                if members.len() == 0 {
                    assert(map[i as int].members->0.len() == 0);
                    return Err(KasmError::MissingMembers);
                }
                out.push(
                    GradePush {
                        assign_id: assign_id.clone(),
                        user_id: members[0].clone(),
                        grade: record.grade.clone(),
                        adjusted: make_moodle_grade(record.grade.as_str()),
                    },
                );
                proof {
                    assert(out.deep_view() =~= before.push(make(map[i as int])));
                    assert(map.take(i as int + 1).map_values(make) =~= map.take(
                        i as int,
                    ).map_values(make).push(make(map[i as int])));
                }
            },
        }
        i += 1;
    }
    assert(map.take(grades.map.len() as int) =~= map);
    Ok(out)
}

} // verus!
