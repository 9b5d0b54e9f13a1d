use vstd::prelude::*;
use vstd::string::*;

use crate::args::RepackDir;
use crate::config::{GradesView, Grades, MasterCfg, MasterCfgView, Source, Structure};
use crate::error::{outcome, KasmError};
use crate::gradingtable::{GradingRecord, GradingRecordView};
use crate::pattern::PatternMatcher;
use crate::plan::{
    g2g_plan, g2i_ids_well_formed, g2i_plan, is_packable, plan_g2g, plan_g2i, unit_folders,
    PackedFolderView, RepackPlan, RepackPlanView, UnitDir, UnitDirView,
};
use crate::seqs::lemma_flatten_all;
use crate::text::{decimal, decimal_text, lemma_between_alike, lemma_decimal_injective};

verus! {

/// The entries that are unit directories: directories whose name the
/// classifier finds its expression in.
pub open spec fn is_unit(reg: PatternMatcher) -> spec_fn(UnitDirView) -> bool {
    |e: UnitDirView| e.is_dir && reg.admits(e.name)
}

/// The file names that the filter finds its expression in.
pub open spec fn is_allowed(filter: PatternMatcher) -> spec_fn(Seq<char>) -> bool {
    |name: Seq<char>| filter.admits(name)
}

/// A unit directory with only the files that the filter lets through.
pub open spec fn allowed_only(filter: PatternMatcher) -> spec_fn(UnitDirView) -> UnitDirView {
    |e: UnitDirView| UnitDirView { files: e.files.filter(is_allowed(filter)), ..e }
}

/// The unit directories among `entries`, each with the files that the
/// filter lets through.
pub open spec fn units_of(
    entries: Seq<UnitDirView>,
    reg: PatternMatcher,
    filter: PatternMatcher,
) -> Seq<UnitDirView> {
    entries.filter(is_unit(reg)).map_values(allowed_only(filter))
}

/// The file names of `files` that `filter` finds its expression in.
pub fn allowed_files(files: &Vec<String>, filter: &PatternMatcher) -> (r: Vec<String>)
    ensures
        r.deep_view() == files.deep_view().filter(is_allowed(*filter)),
{
    let ghost all = files.deep_view();
    let ghost keep = is_allowed(*filter);
    let mut out: Vec<String> = Vec::new();
    let mut i: usize = 0;
    proof {
        reveal(Seq::filter);
        assert(all.take(0) =~= Seq::<Seq<char>>::empty());
        assert(out.deep_view() =~= all.take(0).filter(keep));
    }
    while i < files.len()
        invariant
            i <= files.len(),
            all == files.deep_view(),
            keep == is_allowed(*filter),
            out.deep_view() == all.take(i as int).filter(keep),
        decreases files.len() - i,
    {
        proof {
            assert(all.take(i as int + 1) =~= all.take(i as int).push(all[i as int]));
            Seq::lemma_filter_push(all.take(i as int), all[i as int], keep);
        }
        if filter.is_match(files[i].as_str()) {
            let ghost before = out.deep_view();
            out.push(files[i].clone());
            assert(out.deep_view() =~= before.push(all[i as int]));
        }
        i += 1;
    }
    assert(all.take(files.len() as int) =~= all);
    out
}

/// Narrows a listing of the working directory to its unit directories and
/// their files to those that the filter lets through.
pub fn filter_tree(entries: &Vec<UnitDir>, reg: &PatternMatcher, filter: &PatternMatcher) -> (r:
    Vec<UnitDir>)
    ensures
        r.deep_view() == units_of(entries.deep_view(), *reg, *filter),
{
    let ghost all = entries.deep_view();
    let ghost keep = is_unit(*reg);
    let ghost trim = allowed_only(*filter);
    let mut out: Vec<UnitDir> = Vec::new();
    let mut i: usize = 0;
    proof {
        reveal(Seq::filter);
        assert(all.take(0) =~= Seq::<UnitDirView>::empty());
        assert(out.deep_view() =~= all.take(0).filter(keep).map_values(trim));
    }
    while i < entries.len()
        invariant
            i <= entries.len(),
            all == entries.deep_view(),
            keep == is_unit(*reg),
            trim == allowed_only(*filter),
            out.deep_view() == all.take(i as int).filter(keep).map_values(trim),
        decreases entries.len() - i,
    {
        proof {
            assert(all.take(i as int + 1) =~= all.take(i as int).push(all[i as int]));
            Seq::lemma_filter_push(all.take(i as int), all[i as int], keep);
        }
        let entry = &entries[i];
        if entry.is_dir && reg.is_match(entry.name.as_str()) {
            let ghost before = out.deep_view();
            let unit = UnitDir {
                name: entry.name.clone(),
                is_dir: entry.is_dir,
                files: allowed_files(&entry.files, filter),
            };
            out.push(unit);
            proof {
                assert(out.deep_view() =~= before.push(trim(all[i as int])));
                assert(all.take(i as int + 1).filter(keep).map_values(trim) =~= all.take(
                    i as int,
                ).filter(keep).map_values(trim).push(trim(all[i as int])));
            }
        }
        i += 1;
    }
    assert(all.take(entries.len() as int) =~= all);
    out
}

/// How an archive is rebuilt: what the unpacked one held, and what the new
/// one is to hold.
#[derive(Clone, Copy, Debug, PartialEq, Eq, Structural)]
pub enum Strategy {
    /// Folders of groups stay folders of groups.
    GroupsToGroups,
    /// Every member of a group gets a folder with the group's files.
    GroupsToIndividuals,
}

/// The strategy for a pair of structures, where there is one.
pub open spec fn strategy_for(unpacked: Structure, repacked: Structure) -> Option<Strategy> {
    match (unpacked, repacked) {
        (Structure::Groups, Structure::Groups) => Some(Strategy::GroupsToGroups),
        (Structure::Groups, Structure::Individuals) => Some(Strategy::GroupsToIndividuals),
        _ => None,
    }
}

/// Picks the strategy for a pair of structures.
pub fn strategy(unpacked: Structure, repacked: Structure) -> (r: Result<Strategy, KasmError>)
    ensures
        match r {
            Ok(s) => strategy_for(unpacked, repacked) == Some(s),
            Err(e) => e == KasmError::UnsupportedStructure && strategy_for(unpacked, repacked)
                is None,
        },
{
    match (unpacked, repacked) {
        (Structure::Groups, Structure::Groups) => Ok(Strategy::GroupsToGroups),
        (Structure::Groups, Structure::Individuals) => Ok(Strategy::GroupsToIndividuals),
        _ => Err(KasmError::UnsupportedStructure),
    }
}

/// The name of the feedback archive of a sheet, packed at `time`.
pub open spec fn feedback_zip_name(sheet_id: Seq<char>, time: nat) -> Seq<char> {
    "feedback_"@ + sheet_id + "_"@ + decimal(time) + ".zip"@
}

/// The name of the roster that goes with a feedback archive.
pub open spec fn grading_csv_name(sheet_id: Seq<char>, time: nat) -> Seq<char> {
    "grades_"@ + sheet_id + "_"@ + decimal(time) + ".csv"@
}

/// Names the feedback archive of a sheet after the sheet and the packing
/// time, in milliseconds since the epoch.
pub fn make_feedback_zip_name(sheet_id: &str, time: u128) -> (name: String)
    ensures
        name@ == feedback_zip_name(sheet_id@, time as nat),
{
    let stamp = decimal_text(time);
    let mut name = String::from_str("feedback_");
    name.append(sheet_id);
    name.append("_");
    name.append(stamp.as_str());
    name.append(".zip");
    name
}

/// Names the roster that goes with a feedback archive.
pub fn make_grading_csv_name(sheet_id: &str, time: u128) -> (name: String)
    ensures
        name@ == grading_csv_name(sheet_id@, time as nat),
{
    let stamp = decimal_text(time);
    let mut name = String::from_str("grades_");
    name.append(sheet_id);
    name.append("_");
    name.append(stamp.as_str());
    name.append(".csv");
    name
}

/// Packing a sheet at two different times never gives the same names: the
/// archives differ in name, and so do the rosters.
pub proof fn lemma_stamped_names_differ(sheet_id: Seq<char>, first: nat, second: nat)
    requires
        first != second,
    ensures
        feedback_zip_name(sheet_id, first) != feedback_zip_name(sheet_id, second),
        grading_csv_name(sheet_id, first) != grading_csv_name(sheet_id, second),
{
    if feedback_zip_name(sheet_id, first) == feedback_zip_name(sheet_id, second) {
        lemma_between_alike(
            "feedback_"@ + sheet_id + "_"@,
            decimal(first),
            decimal(second),
            ".zip"@,
        );
        lemma_decimal_injective(first, second);
    }
    if grading_csv_name(sheet_id, first) == grading_csv_name(sheet_id, second) {
        lemma_between_alike(
            "grades_"@ + sheet_id + "_"@,
            decimal(first),
            decimal(second),
            ".csv"@,
        );
        lemma_decimal_injective(first, second);
    }
}

/// What was found of a sheet's working directory.
#[derive(Debug)]
pub struct Unpacked {
    /// Whether the working directory is there.
    pub is_dir: bool,
    /// The ledger; `None` where the directory holds no grades file.
    pub grades: Option<Grades>,
    /// The rows of the filtered roster; `None` where the directory holds
    /// none.
    pub grading_table: Option<Vec<GradingRecord>>,
    /// The entries of the directory, in listing order.
    pub entries: Vec<UnitDir>,
}

/// An `Unpacked` as plain values.
pub struct UnpackedView {
    pub is_dir: bool,
    pub grades: Option<GradesView>,
    pub grading_table: Option<Seq<GradingRecordView>>,
    pub entries: Seq<UnitDirView>,
}

impl View for Unpacked {
    type V = UnpackedView;

    open spec fn view(&self) -> UnpackedView {
        UnpackedView {
            is_dir: self.is_dir,
            grades: self.grades.deep_view(),
            grading_table: self.grading_table.deep_view(),
            entries: self.entries.deep_view(),
        }
    }
}

impl DeepView for Unpacked {
    type V = UnpackedView;

    open spec fn deep_view(&self) -> UnpackedView {
        self@
    }
}

/// What `repack` hands back: the names of the two files to write, and what
/// goes into them.
#[derive(Debug)]
pub struct RepackOutput {
    pub zip_name: String,
    /// The roster's name; `None` where no roster is written.
    pub grading_csv_name: Option<String>,
    pub plan: RepackPlan,
}

/// A `RepackOutput` as plain values.
pub struct RepackOutputView {
    pub zip_name: Seq<char>,
    pub grading_csv_name: Option<Seq<char>>,
    pub plan: RepackPlanView,
}

impl View for RepackOutput {
    type V = RepackOutputView;

    open spec fn view(&self) -> RepackOutputView {
        RepackOutputView {
            zip_name: self.zip_name@,
            grading_csv_name: self.grading_csv_name.deep_view(),
            plan: self.plan@,
        }
    }
}

impl DeepView for RepackOutput {
    type V = RepackOutputView;

    open spec fn deep_view(&self) -> RepackOutputView {
        self@
    }
}

/// The expression that file names are held against: the configured one, or
/// the empty one where none is configured.
pub open spec fn filter_text(master: MasterCfgView) -> Seq<char> {
    match master.repack_filter {
        Some(filter) => filter,
        None => ""@,
    }
}

/// What the group-preserving strategy gives for a listing.
pub open spec fn g2g_outcome(
    entries: Seq<UnitDirView>,
    table: Seq<GradingRecordView>,
    grades: GradesView,
    reg: PatternMatcher,
    filter: PatternMatcher,
    with_roster: bool,
) -> Result<RepackPlanView, KasmError> {
    Ok(g2g_plan(units_of(entries, reg, filter), table, grades.map, with_roster))
}

/// What the per-submitter strategy gives for a listing. It needs a roster
/// to be written, which a fetched ledger has none of.
pub open spec fn g2i_outcome(
    entries: Seq<UnitDirView>,
    table: Seq<GradingRecordView>,
    grades: GradesView,
    reg: PatternMatcher,
    filter: PatternMatcher,
    with_roster: bool,
) -> Result<RepackPlanView, KasmError> {
    let units = units_of(entries, reg, filter);
    if !with_roster || grades.source == Source::Autofetch {
        Err(KasmError::UnsupportedSource)
    } else if !g2i_ids_well_formed(units, table, grades.map) {
        Err(KasmError::MalformedSubmitterId)
    } else {
        Ok(g2i_plan(units, table, grades.map))
    }
}

/// What `repack` gives: the first of the failures that applies, in the order
/// configuration, working directory, ledger, roster; else the plan of the
/// configured strategy under the names that `time` stamps.
pub open spec fn repack_outcome(
    master: MasterCfgView,
    sheet_id: Seq<char>,
    dir: UnpackedView,
    time: nat,
) -> Result<RepackOutputView, KasmError> {
    let reg = PatternMatcher::compiled(master.groups_regex);
    let filter = PatternMatcher::compiled(filter_text(master));
    let strategy = strategy_for(master.unpack_structure, master.repack_structure);
    if reg is None || filter is None {
        Err(KasmError::BadPattern)
    } else if strategy is None {
        Err(KasmError::UnsupportedStructure)
    } else if !dir.is_dir {
        Err(KasmError::MissingDirectory)
    } else if dir.grades is None {
        Err(KasmError::MissingGrades)
    } else {
        let grades = dir.grades->0;
        let with_roster = grades.source == Source::CsvAndZip;
        if with_roster && dir.grading_table is None {
            Err(KasmError::MissingRoster)
        } else {
            let table = match dir.grading_table {
                Some(table) => table,
                None => Seq::empty(),
            };
            let planned = match strategy->0 {
                Strategy::GroupsToGroups => g2g_outcome(
                    dir.entries,
                    table,
                    grades,
                    reg->0,
                    filter->0,
                    with_roster,
                ),
                Strategy::GroupsToIndividuals => g2i_outcome(
                    dir.entries,
                    table,
                    grades,
                    reg->0,
                    filter->0,
                    with_roster,
                ),
            };
            match planned {
                Err(e) => Err(e),
                Ok(plan) => Ok(
                    RepackOutputView {
                        zip_name: feedback_zip_name(sheet_id, time),
                        grading_csv_name: if with_roster {
                            Some(grading_csv_name(sheet_id, time))
                        } else {
                            None
                        },
                        plan,
                    },
                ),
            }
        }
    }
}

/// Plans an archive that gives every submitter a folder: the unit
/// directories of `entries` are narrowed by the two matchers and then
/// planned by `plan_g2i`.
pub fn repack_g2i(
    entries: &Vec<UnitDir>,
    grading_table: &[GradingRecord],
    grades: &Grades,
    reg: &PatternMatcher,
    internal_reg: &PatternMatcher,
    with_roster: bool,
) -> (r: Result<RepackPlan, KasmError>)
    ensures
        outcome(r) == g2i_outcome(
            entries.deep_view(),
            grading_table.deep_view(),
            grades@,
            *reg,
            *internal_reg,
            with_roster,
        ),
{
    if !with_roster || grades.source == Source::Autofetch {
        return Err(KasmError::UnsupportedSource);
    }
    let units = filter_tree(entries, reg, internal_reg);
    plan_g2i(&units, grading_table, grades)
}

/// Plans an archive that keeps groups together: the unit directories of
/// `entries` are narrowed by the two matchers and then planned by
/// `plan_g2g`.
pub fn repack_g2g(
    entries: &Vec<UnitDir>,
    grading_table: &[GradingRecord],
    grades: &Grades,
    reg: &PatternMatcher,
    internal_reg: &PatternMatcher,
    with_roster: bool,
) -> (r: Result<RepackPlan, KasmError>)
    ensures
        outcome(r) == g2g_outcome(
            entries.deep_view(),
            grading_table.deep_view(),
            grades@,
            *reg,
            *internal_reg,
            with_roster,
        ),
{
    let units = filter_tree(entries, reg, internal_reg);
    Ok(plan_g2g(&units, grading_table, grades, with_roster))
}

/// Plans the feedback archive of a sheet and the roster beside it from what
/// was found of the sheet's working directory. `time` is the packing time in
/// milliseconds since the epoch.
pub fn repack(master: &MasterCfg, cfg: &RepackDir, dir: &Unpacked, time: u128) -> (r: Result<
    RepackOutput,
    KasmError,
>)
    ensures
        outcome(r) == repack_outcome(master@, cfg.sheet_id@, dir@, time as nat),
{
    let reg = match PatternMatcher::new(master.groups_regex.as_str()) {
        Ok(reg) => reg,
        Err(e) => { return Err(e); },
    };
    let filter_source = match &master.repack_filter {
        Some(filter) => filter.as_str(),
        None => "",
    };
    let internal_reg = match PatternMatcher::new(filter_source) {
        Ok(reg) => reg,
        Err(e) => { return Err(e); },
    };
    let chosen = match strategy(master.unpack_structure, master.repack_structure) {
        Ok(chosen) => chosen,
        Err(e) => { return Err(e); },
    };
    if !dir.is_dir {
        return Err(KasmError::MissingDirectory);
    }
    let grades = match &dir.grades {
        Some(grades) => grades,
        None => { return Err(KasmError::MissingGrades); },
    };
    let with_roster = grades.source == Source::CsvAndZip;
    let no_rows: Vec<GradingRecord> = Vec::new();
    let grading_table = match &dir.grading_table {
        Some(table) => table,
        None => {
            if with_roster {
                return Err(KasmError::MissingRoster);
            }
            assert(no_rows.deep_view() =~= Seq::<GradingRecordView>::empty());
            &no_rows
        },
    };
    let planned = match chosen {
        Strategy::GroupsToGroups => repack_g2g(
            &dir.entries,
            grading_table.as_slice(),
            grades,
            &reg,
            &internal_reg,
            with_roster,
        ),
        Strategy::GroupsToIndividuals => repack_g2i(
            &dir.entries,
            grading_table.as_slice(),
            grades,
            &reg,
            &internal_reg,
            with_roster,
        ),
    };
    match planned {
        Err(e) => Err(e),
        Ok(plan) => Ok(
            RepackOutput {
                zip_name: make_feedback_zip_name(cfg.sheet_id.as_str(), time),
                grading_csv_name: if with_roster {
                    Some(make_grading_csv_name(cfg.sheet_id.as_str(), time))
                } else {
                    None
                },
                plan,
            },
        ),
    }
}

/// The folders all of whose files the filter lets through.
pub open spec fn holds_allowed_only(filter: PatternMatcher) -> spec_fn(PackedFolderView) -> bool {
    |f: PackedFolderView|
        forall|k: int| 0 <= k < f.files.len() ==> filter.admits(#[trigger] f.files[k])
}

/// Every unit directory that comes out of narrowing a listing is a
/// directory that the classifier finds its expression in, and holds only
/// files that the filter lets through.
pub proof fn lemma_units_are_narrowed(
    entries: Seq<UnitDirView>,
    reg: PatternMatcher,
    filter: PatternMatcher,
)
    ensures
        forall|i: int|
            0 <= i < units_of(entries, reg, filter).len() ==> {
                let unit = #[trigger] units_of(entries, reg, filter)[i];
                &&& unit.is_dir
                &&& reg.admits(unit.name)
                &&& forall|k: int|
                    0 <= k < unit.files.len() ==> filter.admits(#[trigger] unit.files[k])
            },
{
    let kept = entries.filter(is_unit(reg));
    assert forall|i: int| 0 <= i < units_of(entries, reg, filter).len() implies {
        let unit = #[trigger] units_of(entries, reg, filter)[i];
        &&& unit.is_dir
        &&& reg.admits(unit.name)
        &&& forall|k: int| 0 <= k < unit.files.len() ==> filter.admits(#[trigger] unit.files[k])
    } by {
        entries.lemma_filter_pred(is_unit(reg), i);
        let unit = units_of(entries, reg, filter)[i];
        assert(unit == allowed_only(filter)(kept[i]));
        assert forall|k: int| 0 <= k < unit.files.len() implies filter.admits(
            #[trigger] unit.files[k],
        ) by {
            kept[i].files.lemma_filter_pred(is_allowed(filter), k);
        }
    }
}

/// A file whose name the filter does not let through is in no folder of a
/// plan, under either strategy.
pub proof fn lemma_repacked_files_allowed(
    entries: Seq<UnitDirView>,
    table: Seq<GradingRecordView>,
    grades: GradesView,
    reg: PatternMatcher,
    filter: PatternMatcher,
    with_roster: bool,
)
    ensures
        forall|k: int|
            0 <= k < g2g_outcome(entries, table, grades, reg, filter, with_roster)->Ok_0.folders.len()
                ==> holds_allowed_only(filter)(
                #[trigger] g2g_outcome(
                    entries,
                    table,
                    grades,
                    reg,
                    filter,
                    with_roster,
                )->Ok_0.folders[k],
            ),
        g2i_outcome(entries, table, grades, reg, filter, with_roster) is Ok ==> forall|k: int|
            0 <= k < g2i_outcome(entries, table, grades, reg, filter, with_roster)->Ok_0.folders.len()
                ==> holds_allowed_only(filter)(
                #[trigger] g2i_outcome(
                    entries,
                    table,
                    grades,
                    reg,
                    filter,
                    with_roster,
                )->Ok_0.folders[k],
            ),
{
    let units = units_of(entries, reg, filter);
    let map = grades.map;
    lemma_units_are_narrowed(entries, reg, filter);
    let groups = g2g_plan(units, table, map, with_roster);
    let packed = units.filter(is_packable(map));
    assert forall|k: int| 0 <= k < groups.folders.len() implies holds_allowed_only(filter)(
        #[trigger] groups.folders[k],
    ) by {
        assert(packed.contains(packed[k]));
        units.lemma_filter_contains_rev(is_packable(map), packed[k]);
        let j = choose|j: int| 0 <= j < units.len() && units[j] == packed[k];
        assert(groups.folders[k].files == units[j].files);
    }
    let per_unit = units.map_values(unit_folders(map, table));
    assert forall|i: int, k: int|
        0 <= i < per_unit.len() && 0 <= k < per_unit[i].len() implies holds_allowed_only(filter)(
        #[trigger] per_unit[i][k],
    ) by {
        assert(per_unit[i][k].files == units[i].files);
    }
    lemma_flatten_all(per_unit, holds_allowed_only(filter));
}

} // verus!
