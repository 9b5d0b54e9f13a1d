use vstd::prelude::*;
use vstd::string::*;

use crate::config::{entry_for, grade_for, in_group, regrade, students_for, GradeView, Grades};
use crate::error::KasmError;
use crate::gradingtable::{GradingRecord, GradingRecordView};
use crate::seqs::{
    distinct_by, is_only_where, lemma_filter_distinct, lemma_filter_none, lemma_filter_pointwise,
    lemma_filter_split, none_where,
};
use crate::text::{clone_texts, strip_prefix, strip_prefix_text};

verus! {

/// What the platform puts in front of a submitter's number.
pub const SUBMITTER_ID_PREFIX: &'static str = "Teilnehmer/in";

/// What ends the name of a group's folder in a feedback archive.
pub const GROUP_FOLDER_SUFFIX: &'static str = "_assignsubmission_file";

/// What ends the name of a submitter's folder in a feedback archive.
pub const INDIVIDUAL_FOLDER_SUFFIX: &'static str = "_assignsubmission_file_";

/// One entry of the working directory, as it was listed.
#[derive(Debug)]
pub struct UnitDir {
    pub name: String,
    /// Whether the entry is a directory.
    pub is_dir: bool,
    /// The names of the files in it, in listing order.
    pub files: Vec<String>,
}

/// An `UnitDir` as plain values.
pub struct UnitDirView {
    pub name: Seq<char>,
    pub is_dir: bool,
    pub files: Seq<Seq<char>>,
}

impl View for UnitDir {
    type V = UnitDirView;

    open spec fn view(&self) -> UnitDirView {
        UnitDirView { name: self.name@, is_dir: self.is_dir, files: self.files.deep_view() }
    }
}

impl DeepView for UnitDir {
    type V = UnitDirView;

    open spec fn deep_view(&self) -> UnitDirView {
        self@
    }
}

/// A folder of the feedback archive: which unit's files go into it, under
/// which name.
#[derive(Debug)]
pub struct PackedFolder {
    /// The unit directory that the files are read from.
    pub unit: String,
    /// The folder's name in the archive.
    pub name: String,
    /// The names of the files to copy, in listing order.
    pub files: Vec<String>,
}

/// A `PackedFolder` as plain values.
pub struct PackedFolderView {
    pub unit: Seq<char>,
    pub name: Seq<char>,
    pub files: Seq<Seq<char>>,
}

impl View for PackedFolder {
    type V = PackedFolderView;

    open spec fn view(&self) -> PackedFolderView {
        PackedFolderView { unit: self.unit@, name: self.name@, files: self.files.deep_view() }
    }
}

impl DeepView for PackedFolder {
    type V = PackedFolderView;

    open spec fn deep_view(&self) -> PackedFolderView {
        self@
    }
}

/// The name of a file's entry in the archive: the folder's name, a slash,
/// and the file's name.
pub open spec fn entry_name(folder: Seq<char>, file: Seq<char>) -> Seq<char> {
    folder + "/"@ + file
}

impl PackedFolder {
    /// The name under which the archive holds `file` of this folder.
    pub fn entry_name(&self, file: &str) -> (name: String)
        ensures
            name@ == entry_name(self.name@, file@),
    {
        let mut name = self.name.clone();
        name.append("/");
        name.append(file);
        name
    }
}

/// Why a unit directory was left out of the archive.
#[derive(Clone, Copy, Debug, PartialEq, Eq, Structural)]
pub enum SkipReason {
    /// The ledger has no entry for the unit.
    NoLedgerEntry,
    /// The unit's ledger entry carries no platform id.
    NoInternalId,
}

/// A unit directory that was left out, and why.
#[derive(Debug)]
pub struct SkippedUnit {
    pub unit: String,
    pub reason: SkipReason,
}

/// A `SkippedUnit` as plain values.
pub struct SkippedUnitView {
    pub unit: Seq<char>,
    pub reason: SkipReason,
}

impl View for SkippedUnit {
    type V = SkippedUnitView;

    open spec fn view(&self) -> SkippedUnitView {
        SkippedUnitView { unit: self.unit@, reason: self.reason }
    }
}

impl DeepView for SkippedUnit {
    type V = SkippedUnitView;

    open spec fn deep_view(&self) -> SkippedUnitView {
        self@
    }
}

/// What goes into a feedback archive and the roster beside it.
#[derive(Debug)]
pub struct RepackPlan {
    /// The folders of the archive, in the order of the unit directories.
    pub folders: Vec<PackedFolder>,
    /// The rows of the roster.
    pub records: Vec<GradingRecord>,
    /// The unit directories that were left out.
    pub skipped: Vec<SkippedUnit>,
}

/// A `RepackPlan` as plain values.
pub struct RepackPlanView {
    pub folders: Seq<PackedFolderView>,
    pub records: Seq<GradingRecordView>,
    pub skipped: Seq<SkippedUnitView>,
}

impl View for RepackPlan {
    type V = RepackPlanView;

    open spec fn view(&self) -> RepackPlanView {
        RepackPlanView {
            folders: self.folders.deep_view(),
            records: self.records.deep_view(),
            skipped: self.skipped.deep_view(),
        }
    }
}

impl DeepView for RepackPlan {
    type V = RepackPlanView;

    open spec fn deep_view(&self) -> RepackPlanView {
        self@
    }
}

/// The platform id that the ledger holds for `unit`: that of the first entry
/// whose target is the unit's name.
pub open spec fn internal_id_for(map: Seq<GradeView>, unit: Seq<char>) -> Option<Seq<char>> {
    match entry_for(map, unit) {
        Some(entry) => entry.internal_id,
        None => None,
    }
}

/// Why `unit` cannot be packed as a group: `None` where it can.
pub open spec fn skip_reason(map: Seq<GradeView>, unit: Seq<char>) -> Option<SkipReason> {
    match entry_for(map, unit) {
        None => Some(SkipReason::NoLedgerEntry),
        Some(entry) => if entry.internal_id is None {
            Some(SkipReason::NoInternalId)
        } else {
            None
        },
    }
}

/// The name of a group's folder: the unit's label, the platform id of the
/// group, and the fixed ending, joined by underscores.
pub open spec fn group_folder_name(unit: Seq<char>, id: Seq<char>) -> Seq<char> {
    unit + "_"@ + id + GROUP_FOLDER_SUFFIX@
}

/// The name of a submitter's folder: the unit's label, the submitter's name,
/// the submitter's number, and the fixed ending.
pub open spec fn individual_folder_name(unit: Seq<char>, name: Seq<char>, number: Seq<char>) -> Seq<
    char,
> {
    unit + "_"@ + name + "_"@ + number + INDIVIDUAL_FOLDER_SUFFIX@
}

/// The units that can be packed as groups.
pub open spec fn is_packable(map: Seq<GradeView>) -> spec_fn(UnitDirView) -> bool {
    |u: UnitDirView| skip_reason(map, u.name) is None
}

/// The units that cannot be packed as groups.
pub open spec fn is_skipped(map: Seq<GradeView>) -> spec_fn(UnitDirView) -> bool {
    |u: UnitDirView| skip_reason(map, u.name) is Some
}

/// The units for which the ledger holds no entry.
pub open spec fn lacks_entry(map: Seq<GradeView>) -> spec_fn(UnitDirView) -> bool {
    |u: UnitDirView| entry_for(map, u.name) is None
}

/// The folder that a packable unit becomes.
pub open spec fn group_folder(map: Seq<GradeView>) -> spec_fn(UnitDirView) -> PackedFolderView {
    |u: UnitDirView|
        PackedFolderView {
            unit: u.name,
            name: group_folder_name(u.name, internal_id_for(map, u.name)->0),
            files: u.files,
        }
}

/// The record of a unit that is left out.
pub open spec fn skipped_unit(map: Seq<GradeView>) -> spec_fn(UnitDirView) -> SkippedUnitView {
    |u: UnitDirView| SkippedUnitView { unit: u.name, reason: skip_reason(map, u.name)->0 }
}

/// The roster rows of a unit, with the unit's grade.
pub open spec fn unit_rows(map: Seq<GradeView>, table: Seq<GradingRecordView>) -> spec_fn(
    UnitDirView,
) -> Seq<GradingRecordView> {
    |u: UnitDirView| students_for(map, table, u.name)
}

/// The number of a submitter: the platform id without its prefix.
pub open spec fn submitter_number(row: GradingRecordView) -> Option<Seq<char>> {
    strip_prefix(row.internal_id, SUBMITTER_ID_PREFIX@)
}

/// The folder of one submitter of `unit`.
pub open spec fn individual_folder(unit: UnitDirView) -> spec_fn(GradingRecordView) -> PackedFolderView {
    |row: GradingRecordView|
        PackedFolderView {
            unit: unit.name,
            name: individual_folder_name(unit.name, row.name, submitter_number(row)->0),
            files: unit.files,
        }
}

/// The folders of the submitters of a unit, one for each of its roster rows.
pub open spec fn unit_folders(map: Seq<GradeView>, table: Seq<GradingRecordView>) -> spec_fn(
    UnitDirView,
) -> Seq<PackedFolderView> {
    |u: UnitDirView| students_for(map, table, u.name).map_values(individual_folder(u))
}

/// The plan that keeps groups together: every unit that the ledger knows
/// with a platform id becomes one folder and contributes its roster rows,
/// with the unit's grade, where a roster is written; every other unit is
/// left out.
pub open spec fn g2g_plan(
    units: Seq<UnitDirView>,
    table: Seq<GradingRecordView>,
    map: Seq<GradeView>,
    with_roster: bool,
) -> RepackPlanView {
    let packed = units.filter(is_packable(map));
    RepackPlanView {
        folders: packed.map_values(group_folder(map)),
        records: if with_roster {
            packed.map_values(unit_rows(map, table)).flatten()
        } else {
            Seq::empty()
        },
        skipped: units.filter(is_skipped(map)).map_values(skipped_unit(map)),
    }
}

/// Whether every roster row that `g2i_plan` gives a folder has a platform id
/// with the prefix.
pub open spec fn g2i_ids_well_formed(
    units: Seq<UnitDirView>,
    table: Seq<GradingRecordView>,
    map: Seq<GradeView>,
) -> bool {
    forall|i: int, k: int|
        0 <= i < units.len() && 0 <= k < students_for(map, table, units[i].name).len()
            ==> submitter_number(#[trigger] students_for(map, table, units[i].name)[k]) is Some
}

/// The plan that gives every submitter a folder: each roster row of a unit
/// that the ledger knows becomes one folder with the unit's files, and one
/// roster row with the unit's grade; a unit that the ledger does not know is
/// left out.
pub open spec fn g2i_plan(
    units: Seq<UnitDirView>,
    table: Seq<GradingRecordView>,
    map: Seq<GradeView>,
) -> RepackPlanView {
    RepackPlanView {
        folders: units.map_values(unit_folders(map, table)).flatten(),
        records: units.map_values(unit_rows(map, table)).flatten(),
        skipped: units.filter(lacks_entry(map)).map_values(skipped_unit(map)),
    }
}

/// Joins a unit's label and a group's platform id into the folder's name.
pub fn make_group_folder_name(unit: &str, id: &str) -> (r: String)
    ensures
        r@ == group_folder_name(unit@, id@),
{
    let mut name = String::from_str(unit);
    name.append("_");
    name.append(id);
    name.append(GROUP_FOLDER_SUFFIX);
    name
}

/// Joins a unit's label, a submitter's name and number into the folder's
/// name.
pub fn make_individual_folder_name(unit: &str, name: &str, number: &str) -> (r: String)
    ensures
        r@ == individual_folder_name(unit@, name@, number@),
{
    let mut folder = String::from_str(unit);
    folder.append("_");
    folder.append(name);
    folder.append("_");
    folder.append(number);
    folder.append(INDIVIDUAL_FOLDER_SUFFIX);
    folder
}

/// Plans an archive that keeps groups together, from unit directories that
/// were narrowed already.
pub fn plan_g2g(
    units: &Vec<UnitDir>,
    grading_table: &[GradingRecord],
    grades: &Grades,
    with_roster: bool,
) -> (plan: RepackPlan)
    ensures
        plan@ == g2g_plan(units.deep_view(), grading_table.deep_view(), grades@.map, with_roster),
{
    let ghost all = units.deep_view();
    let ghost table = grading_table.deep_view();
    let ghost map = grades@.map;
    let mut folders: Vec<PackedFolder> = Vec::new();
    let mut records: Vec<GradingRecord> = Vec::new();
    let mut skipped: Vec<SkippedUnit> = Vec::new();
    let mut i: usize = 0;
    proof {
        reveal(Seq::filter);
        assert(all.take(0) =~= Seq::<UnitDirView>::empty());
        let empty = g2g_plan(all.take(0), table, map, with_roster);
        assert(folders.deep_view() =~= empty.folders);
        assert(records.deep_view() =~= empty.records);
        assert(skipped.deep_view() =~= empty.skipped);
    }
    while i < units.len()
        invariant
            i <= units.len(),
            all == units.deep_view(),
            table == grading_table.deep_view(),
            map == grades@.map,
            folders.deep_view() == g2g_plan(all.take(i as int), table, map, with_roster).folders,
            records.deep_view() == g2g_plan(all.take(i as int), table, map, with_roster).records,
            skipped.deep_view() == g2g_plan(all.take(i as int), table, map, with_roster).skipped,
        decreases units.len() - i,
    {
        let unit = &units[i];
        let ghost u = all[i as int];
        let ghost done = all.take(i as int);
        let ghost old_folders = folders.deep_view();
        let ghost old_records = records.deep_view();
        let ghost old_skipped = skipped.deep_view();
        proof {
            assert(all.take(i as int + 1) =~= done.push(u));
            Seq::lemma_filter_push(done, u, is_packable(map));
            Seq::lemma_filter_push(done, u, is_skipped(map));
        }
        let reason = match grades.find_target(unit.name.as_str()) {
            None => Some(SkipReason::NoLedgerEntry),
            Some(at) => match &grades.map[at].internal_id {
                None => Some(SkipReason::NoInternalId),
                Some(id) => {
                    folders.push(
                        PackedFolder {
                            unit: unit.name.clone(),
                            name: make_group_folder_name(unit.name.as_str(), id.as_str()),
                            files: clone_texts(&unit.files),
                        },
                    );
                    if with_roster {
                        let mut rows = grades.collect_students_for_group(
                            grading_table,
                            unit.name.as_str(),
                        );
                        let ghost rows_view = rows.deep_view();
                        records.append(&mut rows);
                        proof {
                            assert(records.deep_view() =~= old_records + rows_view);
                            Seq::lemma_flatten_push(
                                done.filter(is_packable(map)).map_values(unit_rows(map, table)),
                                unit_rows(map, table)(u),
                            );
                            assert(done.push(u).filter(is_packable(map)).map_values(
                                unit_rows(map, table),
                            ) =~= done.filter(is_packable(map)).map_values(
                                unit_rows(map, table),
                            ).push(unit_rows(map, table)(u)));
                        }
                    }
                    proof {
                        assert(folders.deep_view() =~= old_folders.push(group_folder(map)(u)));
                        assert(done.push(u).filter(is_packable(map)).map_values(group_folder(map))
                            =~= done.filter(is_packable(map)).map_values(group_folder(map)).push(
                            group_folder(map)(u),
                        ));
                    }
                    None
                },
            },
        };
        if let Some(reason) = reason {
            skipped.push(SkippedUnit { unit: unit.name.clone(), reason });
            proof {
                assert(skipped.deep_view() =~= old_skipped.push(skipped_unit(map)(u)));
                assert(done.push(u).filter(is_skipped(map)).map_values(skipped_unit(map))
                    =~= done.filter(is_skipped(map)).map_values(skipped_unit(map)).push(
                    skipped_unit(map)(u),
                ));
            }
        }
        i += 1;
    }
    assert(all.take(units.len() as int) =~= all);
    RepackPlan { folders, records, skipped }
}

/// Plans an archive that gives every submitter a folder, from unit
/// directories that were narrowed already. Fails where a roster row that
/// would get a folder has a platform id without the prefix.
pub fn plan_g2i(units: &Vec<UnitDir>, grading_table: &[GradingRecord], grades: &Grades) -> (r:
    Result<RepackPlan, KasmError>)
    ensures
        match r {
            Ok(plan) => {
                &&& g2i_ids_well_formed(units.deep_view(), grading_table.deep_view(), grades@.map)
                &&& plan@ == g2i_plan(units.deep_view(), grading_table.deep_view(), grades@.map)
            },
            Err(e) => {
                &&& e == KasmError::MalformedSubmitterId
                &&& !g2i_ids_well_formed(
                    units.deep_view(),
                    grading_table.deep_view(),
                    grades@.map,
                )
            },
        },
{
    let ghost all = units.deep_view();
    let ghost table = grading_table.deep_view();
    let ghost map = grades@.map;
    let mut folders: Vec<PackedFolder> = Vec::new();
    let mut records: Vec<GradingRecord> = Vec::new();
    let mut skipped: Vec<SkippedUnit> = Vec::new();
    let mut i: usize = 0;
    proof {
        reveal(Seq::filter);
        assert(all.take(0) =~= Seq::<UnitDirView>::empty());
        let empty = g2i_plan(all.take(0), table, map);
        assert(folders.deep_view() =~= empty.folders);
        assert(records.deep_view() =~= empty.records);
        assert(skipped.deep_view() =~= empty.skipped);
    }
    while i < units.len()
        invariant
            i <= units.len(),
            all == units.deep_view(),
            table == grading_table.deep_view(),
            map == grades@.map,
            g2i_ids_well_formed(all.take(i as int), table, map),
            folders.deep_view() == g2i_plan(all.take(i as int), table, map).folders,
            records.deep_view() == g2i_plan(all.take(i as int), table, map).records,
            skipped.deep_view() == g2i_plan(all.take(i as int), table, map).skipped,
        decreases units.len() - i,
    {
        let unit = &units[i];
        let ghost u = all[i as int];
        let ghost done = all.take(i as int);
        let ghost old_folders = folders.deep_view();
        let ghost old_records = records.deep_view();
        let ghost old_skipped = skipped.deep_view();
        proof {
            assert(all.take(i as int + 1) =~= done.push(u));
            Seq::lemma_filter_push(done, u, lacks_entry(map));
        }
        if grades.find_target(unit.name.as_str()).is_none() {
            skipped.push(SkippedUnit { unit: unit.name.clone(), reason: SkipReason::NoLedgerEntry });
            proof {
                assert(skipped.deep_view() =~= old_skipped.push(skipped_unit(map)(u)));
                assert(done.push(u).filter(lacks_entry(map)).map_values(skipped_unit(map))
                    =~= done.filter(lacks_entry(map)).map_values(skipped_unit(map)).push(
                    skipped_unit(map)(u),
                ));
            }
        }
        let rows = grades.collect_students_for_group(grading_table, unit.name.as_str());
        let ghost rows_view = rows.deep_view();
        let mut k: usize = 0;
        while k < rows.len()
            invariant
                k <= rows.len(),
                i < units.len(),
                all == units.deep_view(),
                table == grading_table.deep_view(),
                map == grades@.map,
                u == all[i as int],
                unit == &units[i as int],
                rows_view == rows.deep_view(),
                rows_view == students_for(map, table, u.name),
                forall|j: int| 0 <= j < k ==> submitter_number(#[trigger] rows_view[j]) is Some,
                folders.deep_view() == old_folders + rows_view.take(k as int).map_values(
                    individual_folder(u),
                ),
                records.deep_view() == old_records + rows_view.take(k as int),
            decreases rows.len() - k,
        {
            let row = &rows[k];
            let ghost now_folders = folders.deep_view();
            let ghost now_records = records.deep_view();
            match strip_prefix_text(row.internal_id.as_str(), SUBMITTER_ID_PREFIX) {
                None => {
                    proof {
                        assert(submitter_number(students_for(map, table, all[i as int].name)[k as int])
                            is None);
                    }
                    return Err(KasmError::MalformedSubmitterId);
                },
                Some(number) => {
                    folders.push(
                        PackedFolder {
                            unit: unit.name.clone(),
                            name: make_individual_folder_name(
                                unit.name.as_str(),
                                row.name.as_str(),
                                number.as_str(),
                            ),
                            files: clone_texts(&unit.files),
                        },
                    );
                    records.push(row.clone());
                    proof {
                        assert(rows_view.take(k as int + 1) =~= rows_view.take(k as int).push(
                            rows_view[k as int],
                        ));
                        assert(folders.deep_view() =~= now_folders.push(
                            individual_folder(u)(rows_view[k as int]),
                        ));
                        assert(records.deep_view() =~= now_records.push(rows_view[k as int]));
                    }
                },
            }
            k += 1;
        }
        proof {
            assert(rows_view.take(rows.len() as int) =~= rows_view);
            Seq::lemma_flatten_push(
                done.map_values(unit_folders(map, table)),
                unit_folders(map, table)(u),
            );
            Seq::lemma_flatten_push(done.map_values(unit_rows(map, table)), unit_rows(map, table)(u));
            assert(done.push(u).map_values(unit_folders(map, table)) =~= done.map_values(
                unit_folders(map, table),
            ).push(unit_folders(map, table)(u)));
            assert(done.push(u).map_values(unit_rows(map, table)) =~= done.map_values(
                unit_rows(map, table),
            ).push(unit_rows(map, table)(u)));
            assert forall|a: int, b: int|
                0 <= a < done.push(u).len() && 0 <= b < students_for(
                    map,
                    table,
                    done.push(u)[a].name,
                ).len() implies submitter_number(
                #[trigger] students_for(map, table, done.push(u)[a].name)[b],
            ) is Some by {
                if a < done.len() {
                    assert(done.push(u)[a] == done[a]);
                }
            }
        }
        i += 1;
    }
    assert(all.take(units.len() as int) =~= all);
    Ok(RepackPlan { folders, records, skipped })
}

/// A unit directory's name.
pub open spec fn unit_name() -> spec_fn(UnitDirView) -> Seq<char> {
    |u: UnitDirView| u.name
}

/// The folders that hold the files of the unit `name`.
pub open spec fn folder_of_unit(name: Seq<char>) -> spec_fn(PackedFolderView) -> bool {
    |f: PackedFolderView| f.unit == name
}

/// The records of the unit `name` having been left out.
pub open spec fn skip_of_unit(name: Seq<char>) -> spec_fn(SkippedUnitView) -> bool {
    |s: SkippedUnitView| s.unit == name
}

/// Keeping groups together, every unit directory has one fate. One that the
/// ledger knows with a platform id becomes exactly one folder, named after
/// its label and that id and holding its files, and is not reported as left
/// out. Any other becomes no folder and is reported exactly once, with the
/// reason.
pub proof fn lemma_g2g_each_unit_once(
    units: Seq<UnitDirView>,
    table: Seq<GradingRecordView>,
    map: Seq<GradeView>,
    with_roster: bool,
    i: int,
)
    requires
        distinct_by(units, unit_name()),
        0 <= i < units.len(),
    ensures
        ({
            let plan = g2g_plan(units, table, map, with_roster);
            let unit = units[i];
            match skip_reason(map, unit.name) {
                None => {
                    &&& exists|k: int|
                        {
                            &&& is_only_where(plan.folders, folder_of_unit(unit.name), k)
                            &&& plan.folders[k].name == group_folder_name(
                                unit.name,
                                internal_id_for(map, unit.name)->0,
                            )
                            &&& plan.folders[k].files == unit.files
                        }
                    &&& none_where(plan.skipped, skip_of_unit(unit.name))
                },
                Some(reason) => {
                    &&& none_where(plan.folders, folder_of_unit(unit.name))
                    &&& exists|k: int|
                        {
                            &&& is_only_where(plan.skipped, skip_of_unit(unit.name), k)
                            &&& plan.skipped[k].reason == reason
                        }
                },
            }
        }),
{
    let plan = g2g_plan(units, table, map, with_roster);
    let unit = units[i];
    let packed = units.filter(is_packable(map));
    let left = units.filter(is_skipped(map));
    lemma_filter_distinct(units, is_packable(map), unit_name());
    lemma_filter_distinct(units, is_skipped(map), unit_name());
    assert forall|k: int| 0 <= k < packed.len() && packed[k].name == unit.name implies packed[k]
        == unit && is_packable(map)(unit) by {
        units.lemma_filter_pred(is_packable(map), k);
        assert(packed.contains(packed[k]));
        units.lemma_filter_contains_rev(is_packable(map), packed[k]);
        let j = choose|j: int| 0 <= j < units.len() && units[j] == packed[k];
        if j < i {
            assert(unit_name()(units[j]) != unit_name()(units[i]));
        }
        if i < j {
            assert(unit_name()(units[i]) != unit_name()(units[j]));
        }
    }
    assert forall|k: int| 0 <= k < left.len() && left[k].name == unit.name implies left[k] == unit
        && is_skipped(map)(unit) by {
        units.lemma_filter_pred(is_skipped(map), k);
        assert(left.contains(left[k]));
        units.lemma_filter_contains_rev(is_skipped(map), left[k]);
        let j = choose|j: int| 0 <= j < units.len() && units[j] == left[k];
        if j < i {
            assert(unit_name()(units[j]) != unit_name()(units[i]));
        }
        if i < j {
            assert(unit_name()(units[i]) != unit_name()(units[j]));
        }
    }
    if skip_reason(map, unit.name) is None {
        units.lemma_filter_contains(is_packable(map), i);
        let k = choose|k: int| 0 <= k < packed.len() && packed[k] == unit;
        assert forall|m: int|
            0 <= m < plan.folders.len() && folder_of_unit(unit.name)(
                #[trigger] plan.folders[m],
            ) implies m == k by {
            if m < k {
                assert(unit_name()(packed[m]) != unit_name()(packed[k]));
            }
            if k < m {
                assert(unit_name()(packed[k]) != unit_name()(packed[m]));
            }
        }
        assert(is_only_where(plan.folders, folder_of_unit(unit.name), k));
        assert forall|m: int| 0 <= m < plan.skipped.len() implies !skip_of_unit(unit.name)(
            #[trigger] plan.skipped[m],
        ) by {
            assert(plan.skipped[m].unit == left[m].name);
        }
    } else {
        units.lemma_filter_contains(is_skipped(map), i);
        let k = choose|k: int| 0 <= k < left.len() && left[k] == unit;
        assert forall|m: int|
            0 <= m < plan.skipped.len() && skip_of_unit(unit.name)(
                #[trigger] plan.skipped[m],
            ) implies m == k by {
            if m < k {
                assert(unit_name()(left[m]) != unit_name()(left[k]));
            }
            if k < m {
                assert(unit_name()(left[k]) != unit_name()(left[m]));
            }
        }
        assert(is_only_where(plan.skipped, skip_of_unit(unit.name), k));
        assert forall|m: int| 0 <= m < plan.folders.len() implies !folder_of_unit(unit.name)(
            #[trigger] plan.folders[m],
        ) by {
            assert(plan.folders[m].unit == packed[m].name);
        }
    }
}

/// The roster rows for whose group the ledger holds a grade.
pub open spec fn has_grade(map: Seq<GradeView>) -> spec_fn(GradingRecordView) -> bool {
    |r: GradingRecordView| grade_for(map, r.group) is Some
}

/// The roster rows whose group is one of the unit directories.
pub open spec fn is_unit_row(units: Seq<UnitDirView>) -> spec_fn(GradingRecordView) -> bool {
    |r: GradingRecordView| exists|i: int| 0 <= i < units.len() && (#[trigger] units[i]).name == r.group
}

/// The roster rows that get a folder of their own: those whose group is a
/// unit directory for which the ledger holds a grade.
pub open spec fn gets_folder(units: Seq<UnitDirView>, map: Seq<GradeView>) -> spec_fn(
    GradingRecordView,
) -> bool {
    |r: GradingRecordView| has_grade(map)(r) && is_unit_row(units)(r)
}

/// The roster rows of the group `name` for which the ledger holds a grade.
pub open spec fn graded_in_group(map: Seq<GradeView>, name: Seq<char>) -> spec_fn(
    GradingRecordView,
) -> bool {
    |r: GradingRecordView| has_grade(map)(r) && r.group == name
}

/// A unit contributes as many rows as the roster holds rows of its group,
/// where the ledger holds a grade for it, and none otherwise.
pub proof fn lemma_students_count(
    map: Seq<GradeView>,
    table: Seq<GradingRecordView>,
    name: Seq<char>,
)
    ensures
        students_for(map, table, name).len() == table.filter(graded_in_group(map, name)).len(),
{
    if grade_for(map, name) is Some {
        lemma_filter_pointwise(table, in_group(name), graded_in_group(map, name));
    } else {
        lemma_filter_none(table, graded_in_group(map, name));
    }
}

/// Giving every submitter a folder, there are as many folders as roster
/// rows, and as many as the roster holds rows whose group is a unit
/// directory for which the ledger holds a grade.
pub proof fn lemma_g2i_folder_count(
    units: Seq<UnitDirView>,
    table: Seq<GradingRecordView>,
    map: Seq<GradeView>,
)
    requires
        distinct_by(units, unit_name()),
    ensures
        g2i_plan(units, table, map).folders.len() == g2i_plan(units, table, map).records.len(),
        g2i_plan(units, table, map).folders.len() == table.filter(gets_folder(units, map)).len(),
    decreases units.len(),
{
    let plan = g2i_plan(units, table, map);
    if units.len() == 0 {
        assert(units.map_values(unit_folders(map, table)) =~= Seq::<Seq<PackedFolderView>>::empty());
        assert(units.map_values(unit_rows(map, table)) =~= Seq::<Seq<GradingRecordView>>::empty());
        lemma_filter_none(table, gets_folder(units, map));
    } else {
        let rest = units.drop_last();
        let unit = units.last();
        assert forall|a: int, b: int| 0 <= a < b < rest.len() implies unit_name()(
            #[trigger] rest[a],
        ) != unit_name()(#[trigger] rest[b]) by {
            assert(rest[a] == units[a]);
            assert(rest[b] == units[b]);
        }
        lemma_g2i_folder_count(rest, table, map);
        assert(units.map_values(unit_folders(map, table)) =~= rest.map_values(
            unit_folders(map, table),
        ).push(unit_folders(map, table)(unit)));
        assert(units.map_values(unit_rows(map, table)) =~= rest.map_values(
            unit_rows(map, table),
        ).push(unit_rows(map, table)(unit)));
        rest.map_values(unit_folders(map, table)).lemma_flatten_push(
            unit_folders(map, table)(unit),
        );
        rest.map_values(unit_rows(map, table)).lemma_flatten_push(unit_rows(map, table)(unit));
        lemma_students_count(map, table, unit.name);
        assert forall|i: int| 0 <= i < table.len() implies gets_folder(units, map)(
            #[trigger] table[i],
        ) == (gets_folder(rest, map)(table[i]) || graded_in_group(map, unit.name)(table[i])) by {
            let r = table[i];
            if is_unit_row(units)(r) {
                let j = choose|j: int| 0 <= j < units.len() && (#[trigger] units[j]).name == r.group;
                if j < rest.len() {
                    assert(rest[j] == units[j]);
                }
            }
            if is_unit_row(rest)(r) {
                let j = choose|j: int| 0 <= j < rest.len() && (#[trigger] rest[j]).name == r.group;
                assert(units[j] == rest[j]);
            }
            if r.group == unit.name {
                assert(units[units.len() - 1].name == r.group);
            }
        }
        assert forall|i: int| 0 <= i < table.len() implies !(gets_folder(rest, map)(
            #[trigger] table[i],
        ) && graded_in_group(map, unit.name)(table[i])) by {
            let r = table[i];
            if is_unit_row(rest)(r) && r.group == unit.name {
                let j = choose|j: int| 0 <= j < rest.len() && (#[trigger] rest[j]).name == r.group;
                assert(rest[j] == units[j]);
                assert(unit_name()(units[j]) != unit_name()(units[units.len() - 1]));
            }
        }
        lemma_filter_split(
            table,
            gets_folder(units, map),
            gets_folder(rest, map),
            graded_in_group(map, unit.name),
        );
    }
}

/// Giving every submitter a folder, where every roster row for whose group
/// the ledger holds a grade has its group among the unit directories, there
/// are as many folders as the roster holds such rows.
pub proof fn lemma_g2i_folder_per_graded_row(
    units: Seq<UnitDirView>,
    table: Seq<GradingRecordView>,
    map: Seq<GradeView>,
)
    requires
        distinct_by(units, unit_name()),
        forall|i: int|
            0 <= i < table.len() && has_grade(map)(#[trigger] table[i]) ==> is_unit_row(units)(
                table[i],
            ),
    ensures
        g2i_plan(units, table, map).folders.len() == table.filter(has_grade(map)).len(),
{
    lemma_g2i_folder_count(units, table, map);
    lemma_filter_pointwise(table, gets_folder(units, map), has_grade(map));
}

/// Whether `folder` is the folder of the roster row `row`: it holds the
/// files of the row's group and is named after the group, the submitter's
/// name and the submitter's number.
pub open spec fn is_folder_of(row: GradingRecordView, folder: PackedFolderView) -> bool {
    &&& folder.unit == row.group
    &&& folder.name == individual_folder_name(row.group, row.name, submitter_number(row)->0)
}

/// Giving every submitter a folder, the folders and the roster rows go
/// together one by one, and every row carries the grade that the ledger
/// holds for the row's group, whatever grade the roster held for it.
pub proof fn lemma_g2i_rows_carry_unit_grade(
    units: Seq<UnitDirView>,
    table: Seq<GradingRecordView>,
    map: Seq<GradeView>,
)
    ensures
        g2i_plan(units, table, map).folders.len() == g2i_plan(units, table, map).records.len(),
        forall|k: int|
            0 <= k < g2i_plan(units, table, map).records.len() ==> {
                let row = #[trigger] g2i_plan(units, table, map).records[k];
                &&& grade_for(map, row.group) == Some(row.grade)
                &&& is_folder_of(row, g2i_plan(units, table, map).folders[k])
            },
    decreases units.len(),
{
    let plan = g2i_plan(units, table, map);
    if units.len() == 0 {
        assert(units.map_values(unit_folders(map, table)) =~= Seq::<Seq<PackedFolderView>>::empty());
        assert(units.map_values(unit_rows(map, table)) =~= Seq::<Seq<GradingRecordView>>::empty());
    } else {
        let rest = units.drop_last();
        let unit = units.last();
        let before = g2i_plan(rest, table, map);
        lemma_g2i_rows_carry_unit_grade(rest, table, map);
        assert(units.map_values(unit_folders(map, table)) =~= rest.map_values(
            unit_folders(map, table),
        ).push(unit_folders(map, table)(unit)));
        assert(units.map_values(unit_rows(map, table)) =~= rest.map_values(
            unit_rows(map, table),
        ).push(unit_rows(map, table)(unit)));
        rest.map_values(unit_folders(map, table)).lemma_flatten_push(
            unit_folders(map, table)(unit),
        );
        rest.map_values(unit_rows(map, table)).lemma_flatten_push(unit_rows(map, table)(unit));
        let rows = students_for(map, table, unit.name);
        assert forall|k: int| 0 <= k < plan.records.len() implies {
            let row = #[trigger] plan.records[k];
            &&& grade_for(map, row.group) == Some(row.grade)
            &&& is_folder_of(row, plan.folders[k])
        } by {
            if k < before.records.len() {
                assert(plan.records[k] == before.records[k]);
                assert(plan.folders[k] == before.folders[k]);
            } else {
                let j = k - before.records.len();
                assert(plan.records[k] == rows[j]);
                assert(plan.folders[k] == individual_folder(unit)(rows[j]));
                let members = table.filter(in_group(unit.name));
                table.lemma_filter_pred(in_group(unit.name), j);
                assert(rows[j] == regrade(grade_for(map, unit.name)->0)(members[j]));
            }
        }
    }
}

} // verus!
