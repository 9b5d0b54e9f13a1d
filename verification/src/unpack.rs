use vstd::prelude::*;
use vstd::string::*;

use crate::args::UnpackFiles;
use crate::config::{
    grade_for, has_target, unpack_path, working_dir, Grade, GradeView, Grades, GradesView, MasterCfg, MasterCfgView,
    Source, Structure, UNPACK_CSV_FILENAME, UNPACK_GRADES_FILENAME,
};
use crate::error::{outcome, KasmError};
use crate::gradingtable::{GradingRecord, GradingRecordView};
use crate::pattern::{belongs_to, is_unit_id, PatternMatcher};
use crate::seqs::{
    distinct_by, first_where, is_first_where, lemma_filter_counts, lemma_filter_distinct,
    lemma_filter_last, lemma_filter_none, lemma_first_where, lemma_first_where_exists,
    lemma_first_where_found, positions_where,
};
use crate::text::{contains_text, same_text, split, split_text};

verus! {

/// What separates the segments of a path inside an archive.
pub const PATH_SEPARATOR: char = '/';

/// What ends the unit's label in the first segment of such a path.
pub const LABEL_DELIMITER: char = '_';

/// The label of the unit that a path inside an archive belongs to: what
/// stands before the first delimiter in the path's first segment. `None`
/// where that segment holds no delimiter.
pub open spec fn unit_label(path: Seq<char>) -> Option<Seq<char>> {
    let pieces = split(split(path, PATH_SEPARATOR)[0], LABEL_DELIMITER);
    if pieces.len() >= 2 {
        Some(pieces[0])
    } else {
        None
    }
}

/// The segments of a path that name something: all but empty ones and
/// those that stand for the directory itself.
pub open spec fn names_something() -> spec_fn(Seq<char>) -> bool {
    |segment: Seq<char>| segment.len() > 0 && segment != "."@
}

/// The name of the file that a path leads to: its last segment that names
/// something. `None` where there is no such segment or it stands for the
/// parent directory.
pub open spec fn file_name(path: Seq<char>) -> Option<Seq<char>> {
    let named = split(path, PATH_SEPARATOR).filter(names_something());
    if named.len() == 0 || named.last() == ".."@ {
        None
    } else {
        Some(named.last())
    }
}

/// Reads the unit's label off a path inside an archive.
pub fn unit_label_of(path: &str) -> (r: Option<String>)
    ensures
        r.deep_view() == unit_label(path@),
{
    let segments = split_text(path, PATH_SEPARATOR);
    let pieces = split_text(segments[0].as_str(), LABEL_DELIMITER);
    if pieces.len() >= 2 {
        Some(pieces[0].clone())
    } else {
        None
    }
}

/// Reads the file's name off a path inside an archive.
pub fn file_name_of(path: &str) -> (r: Option<String>)
    ensures
        r.deep_view() == file_name(path@),
{
    let segments = split_text(path, PATH_SEPARATOR);
    let ghost all = segments.deep_view();
    let mut left: usize = segments.len();
    while left > 0
        invariant
            left <= segments.len(),
            all == segments.deep_view(),
            all == split(path@, PATH_SEPARATOR),
            forall|j: int| left <= j < segments.len() ==> !names_something()(#[trigger] all[j]),
        decreases left,
    {
        left -= 1;
        let segment = segments[left].as_str();
        if !segment.is_empty() && !same_text(segment, ".") {
            proof {
                lemma_filter_last(all, names_something(), left as int);
            }
            if same_text(segment, "..") {
                return None;
            }
            return Some(segments[left].clone());
        }
    }
    proof {
        lemma_filter_none(all, names_something());
    }
    None
}

/// One entry of the source archive, as it was listed.
#[derive(Debug)]
pub struct ArchiveEntry {
    /// The entry's name as the archive holds it.
    pub name: String,
    /// The entry's path where it stays inside the directory it is unpacked
    /// to; `None` where it would leave it.
    pub enclosed_name: Option<String>,
}

/// An `ArchiveEntry` as plain values.
pub struct ArchiveEntryView {
    pub name: Seq<char>,
    pub enclosed_name: Option<Seq<char>>,
}

impl View for ArchiveEntry {
    type V = ArchiveEntryView;

    open spec fn view(&self) -> ArchiveEntryView {
        ArchiveEntryView { name: self.name@, enclosed_name: self.enclosed_name.deep_view() }
    }
}

impl DeepView for ArchiveEntry {
    type V = ArchiveEntryView;

    open spec fn deep_view(&self) -> ArchiveEntryView {
        self@
    }
}

/// One file to take out of the source archive: the entry at `index` goes
/// to the file `file` in the unit directory `unit` of the working
/// directory.
#[derive(Debug)]
pub struct Extraction {
    pub index: usize,
    pub unit: String,
    pub file: String,
}

/// An `Extraction` as plain values.
pub struct ExtractionView {
    pub index: int,
    pub unit: Seq<char>,
    pub file: Seq<char>,
}

impl View for Extraction {
    type V = ExtractionView;

    open spec fn view(&self) -> ExtractionView {
        ExtractionView { index: self.index as int, unit: self.unit@, file: self.file@ }
    }
}

impl DeepView for Extraction {
    type V = ExtractionView;

    open spec fn deep_view(&self) -> ExtractionView {
        self@
    }
}

/// The elements of a sequence, each with its position.
pub open spec fn numbered<A>(s: Seq<A>) -> Seq<(int, A)> {
    Seq::new(s.len(), |i: int| (i, s[i]))
}

/// The entries that belong to `unit`: those out of whose name the matcher
/// reads it.
pub open spec fn is_wanted(reg: PatternMatcher, unit: Option<Seq<char>>) -> spec_fn(
    ArchiveEntryView,
) -> bool {
    |e: ArchiveEntryView| is_unit_id(reg.unit_of(e.name), unit)
}

/// The numbered entries that belong to `unit`.
pub open spec fn is_wanted_at(reg: PatternMatcher, unit: Option<Seq<char>>) -> spec_fn(
    (int, ArchiveEntryView),
) -> bool {
    |p: (int, ArchiveEntryView)| is_wanted(reg, unit)(p.1)
}

/// Where an entry goes: the label of its unit and the name of its file.
/// `None` where the entry would leave the working directory or its path
/// names no unit or no file.
pub open spec fn destination(entry: ArchiveEntryView) -> Option<(Seq<char>, Seq<char>)> {
    match entry.enclosed_name {
        None => None,
        Some(path) => match (unit_label(path), file_name(path)) {
            (Some(unit), Some(file)) => Some((unit, file)),
            _ => None,
        },
    }
}

/// The extraction of a numbered entry.
pub open spec fn extraction_of() -> spec_fn((int, ArchiveEntryView)) -> ExtractionView {
    |p: (int, ArchiveEntryView)|
        {
            let to = destination(p.1)->0;
            ExtractionView { index: p.0, unit: to.0, file: to.1 }
        }
}

/// Whether every entry that belongs to `unit` has a destination.
pub open spec fn archive_well_formed(
    archive: Seq<ArchiveEntryView>,
    reg: PatternMatcher,
    unit: Option<Seq<char>>,
) -> bool {
    forall|i: int|
        0 <= i < archive.len() && is_wanted(reg, unit)(#[trigger] archive[i]) ==> destination(
            archive[i],
        ) is Some
}

/// The files to take out of an archive for `unit`: one for each entry that
/// belongs to it, in the archive's order.
pub open spec fn extractions(
    archive: Seq<ArchiveEntryView>,
    reg: PatternMatcher,
    unit: Option<Seq<char>>,
) -> Seq<ExtractionView> {
    numbered(archive).filter(is_wanted_at(reg, unit)).map_values(extraction_of())
}

/// Settles where an entry of the archive goes.
pub fn destination_of(entry: &ArchiveEntry) -> (r: Option<(String, String)>)
    ensures
        r.deep_view() == destination(entry@),
{
    match &entry.enclosed_name {
        None => None,
        Some(path) => match (unit_label_of(path.as_str()), file_name_of(path.as_str())) {
            (Some(unit), Some(file)) => Some((unit, file)),
            _ => None,
        },
    }
}

/// Picks the entries of the source archive that belong to `unit` and
/// settles where each goes. Fails where one of them has no destination.
pub fn unzip_filter_main(archive: &Vec<ArchiveEntry>, reg: &PatternMatcher, unit: Option<&str>) -> (r:
    Result<Vec<Extraction>, KasmError>)
    ensures
        match r {
            Ok(files) => archive_well_formed(archive.deep_view(), *reg, unit.deep_view())
                && files.deep_view() == extractions(archive.deep_view(), *reg, unit.deep_view()),
            Err(e) => e == KasmError::MalformedEntry && !archive_well_formed(
                archive.deep_view(),
                *reg,
                unit.deep_view(),
            ),
        },
{
    let ghost all = archive.deep_view();
    let ghost wanted = is_wanted_at(*reg, unit.deep_view());
    let mut files: Vec<Extraction> = Vec::new();
    let mut i: usize = 0;
    proof {
        reveal(Seq::filter);
        assert(numbered(all).take(0) =~= Seq::<(int, ArchiveEntryView)>::empty());
        assert(files.deep_view() =~= numbered(all).take(0).filter(wanted).map_values(
            extraction_of(),
        ));
    }
    while i < archive.len()
        invariant
            i <= archive.len(),
            all == archive.deep_view(),
            wanted == is_wanted_at(*reg, unit.deep_view()),
            forall|j: int|
                0 <= j < i && is_wanted(*reg, unit.deep_view())(#[trigger] all[j]) ==> destination(
                    all[j],
                ) is Some,
            files.deep_view() == numbered(all).take(i as int).filter(wanted).map_values(
                extraction_of(),
            ),
        decreases archive.len() - i,
    {
        let ghost done = numbered(all).take(i as int);
        let ghost here = (i as int, all[i as int]);
        proof {
            assert(numbered(all).take(i as int + 1) =~= done.push(here));
            Seq::lemma_filter_push(done, here, wanted);
        }
        let entry = &archive[i];
        let class = reg.classify(entry.name.as_str());
        if belongs_to(&class, unit) {
            match destination_of(entry) {
                None => {
                    return Err(KasmError::MalformedEntry);
                },
                Some((unit_dir, file)) => {
                    let ghost before = files.deep_view();
                    files.push(Extraction { index: i, unit: unit_dir, file });
                    proof {
                        assert(files.deep_view() =~= before.push(extraction_of()(here)));
                        assert(done.push(here).filter(wanted).map_values(extraction_of())
                            =~= done.filter(wanted).map_values(extraction_of()).push(
                            extraction_of()(here),
                        ));
                    }
                },
            }
        }
        i += 1;
    }
    assert(numbered(all).take(archive.len() as int) =~= numbered(all));
    Ok(files)
}

/// The rows that belong to `unit`: those out of whose group the matcher
/// reads it.
pub open spec fn is_kept(reg: PatternMatcher, unit: Option<Seq<char>>) -> spec_fn(
    GradingRecordView,
) -> bool {
    |r: GradingRecordView| is_unit_id(reg.unit_of(r.group), unit)
}

/// Keeps the rows of the roster that belong to `unit`.
pub fn filter_records(records: &[GradingRecord], reg: &PatternMatcher, unit: Option<&str>) -> (r:
    Vec<GradingRecord>)
    ensures
        r.deep_view() == records.deep_view().filter(is_kept(*reg, unit.deep_view())),
{
    let ghost all = records.deep_view();
    let ghost keep = is_kept(*reg, unit.deep_view());
    let mut kept: Vec<GradingRecord> = Vec::new();
    let mut i: usize = 0;
    proof {
        reveal(Seq::filter);
        assert(all.take(0) =~= Seq::<GradingRecordView>::empty());
        assert(kept.deep_view() =~= all.take(0).filter(keep));
    }
    while i < records.len()
        invariant
            i <= records.len(),
            all == records.deep_view(),
            keep == is_kept(*reg, unit.deep_view()),
            kept.deep_view() == all.take(i as int).filter(keep),
        decreases records.len() - i,
    {
        proof {
            assert(all.take(i as int + 1) =~= all.take(i as int).push(all[i as int]));
            Seq::lemma_filter_push(all.take(i as int), all[i as int], keep);
        }
        let class = reg.classify(records[i].group.as_str());
        if belongs_to(&class, unit) {
            let ghost before = kept.deep_view();
            kept.push(records[i].clone());
            assert(kept.deep_view() =~= before.push(all[i as int]));
        }
        i += 1;
    }
    assert(all.take(records.len() as int) =~= all);
    kept
}

/// What a roster row is entered under in the ledger: its group where
/// groups are graded, its university id where submitters are.
pub open spec fn unit_key(structure: Structure) -> spec_fn(GradingRecordView) -> Seq<char> {
    |r: GradingRecordView|
        match structure {
            Structure::Groups => r.group,
            Structure::Individuals => r.uni_id,
        }
}

/// The numbered rows before which no row has the same key.
pub open spec fn is_first_of_unit(rows: Seq<GradingRecordView>, structure: Structure) -> spec_fn(
    (int, GradingRecordView),
) -> bool {
    |p: (int, GradingRecordView)|
        forall|j: int|
            0 <= j < p.0 && j < rows.len() ==> unit_key(structure)(#[trigger] rows[j]) != unit_key(
                structure,
            )(p.1)
}

/// The ledger entry that a row opens: its key as the target, its best grade
/// as the grade.
pub open spec fn initial_entry(structure: Structure) -> spec_fn((int, GradingRecordView)) -> GradeView {
    |p: (int, GradingRecordView)|
        GradeView {
            target: unit_key(structure)(p.1),
            internal_id: None,
            members: None,
            grade: p.1.best_grade,
        }
}

/// The entries of a fresh ledger: one for every unit of the roster, opened
/// by the unit's first row, in the order in which the units first appear.
pub open spec fn initial_entries(rows: Seq<GradingRecordView>, structure: Structure) -> Seq<
    GradeView,
> {
    numbered(rows).filter(is_first_of_unit(rows, structure)).map_values(initial_entry(structure))
}

/// Where the ledger of a sheet is kept.
pub open spec fn grades_path(sheet_id: Seq<char>) -> Seq<char> {
    unpack_path(sheet_id) + "/"@ + UNPACK_GRADES_FILENAME@
}

/// Where the filtered roster of a sheet is kept.
pub open spec fn nested_csv_path(sheet_id: Seq<char>) -> Seq<char> {
    unpack_path(sheet_id) + "/"@ + UNPACK_CSV_FILENAME@
}

/// The fresh ledger of a sheet.
pub open spec fn initial_grades(
    rows: Seq<GradingRecordView>,
    structure: Structure,
    sheet_id: Seq<char>,
) -> GradesView {
    GradesView {
        location: grades_path(sheet_id),
        assign_id: None,
        source: Source::CsvAndZip,
        sheet_id,
        map: initial_entries(rows, structure),
    }
}

/// Builds the fresh ledger of a sheet from the rows that were kept.
pub fn gen_grading_files(structure: Structure, sheet_id: &str, filtered: &[GradingRecord]) -> (r:
    Grades)
    ensures
        r@ == initial_grades(filtered.deep_view(), structure, sheet_id@),
{
    let ghost rows = filtered.deep_view();
    let ghost first = is_first_of_unit(rows, structure);
    let ghost key = unit_key(structure);
    let mut grades_arr: Vec<Grade> = Vec::new();
    let mut seen: Vec<String> = Vec::new();
    let mut i: usize = 0;
    proof {
        reveal(Seq::filter);
        assert(numbered(rows).take(0) =~= Seq::<(int, GradingRecordView)>::empty());
        assert(grades_arr.deep_view() =~= numbered(rows).take(0).filter(first).map_values(
            initial_entry(structure),
        ));
    }
    while i < filtered.len()
        invariant
            i <= filtered.len(),
            rows == filtered.deep_view(),
            first == is_first_of_unit(rows, structure),
            key == unit_key(structure),
            forall|j: int| 0 <= j < i ==> seen.deep_view().contains(key(#[trigger] rows[j])),
            forall|m: int|
                0 <= m < seen.len() ==> exists|j: int|
                    0 <= j < i && key(#[trigger] rows[j]) == (#[trigger] seen.deep_view()[m]),
            grades_arr.deep_view() == numbered(rows).take(i as int).filter(first).map_values(
                initial_entry(structure),
            ),
        decreases filtered.len() - i,
    {
        let ghost done = numbered(rows).take(i as int);
        let ghost here = (i as int, rows[i as int]);
        let ghost old_seen = seen.deep_view();
        proof {
            assert(numbered(rows).take(i as int + 1) =~= done.push(here));
            Seq::lemma_filter_push(done, here, first);
        }
        let row = &filtered[i];
        let target = match structure {
            Structure::Groups => row.group.as_str(),
            Structure::Individuals => row.uni_id.as_str(),
        };
        assert(target@ == key(rows[i as int]));
        if !contains_text(&seen, target) {
            proof {
                assert forall|j: int| 0 <= j < i && j < rows.len() implies key(
                    #[trigger] rows[j],
                ) != key(here.1) by {
                    assert(old_seen.contains(key(rows[j])));
                }
                assert(first(here));
            }
            let ghost before = grades_arr.deep_view();
            seen.push(target.to_owned());
            grades_arr.push(
                Grade {
                    target: target.to_owned(),
                    internal_id: None,
                    members: None,
                    grade: row.best_grade.clone(),
                },
            );
            proof {
                assert(seen.deep_view() =~= old_seen.push(target@));
                assert(grades_arr.deep_view() =~= before.push(initial_entry(structure)(here)));
                assert(done.push(here).filter(first).map_values(initial_entry(structure))
                    =~= done.filter(first).map_values(initial_entry(structure)).push(
                    initial_entry(structure)(here),
                ));
                assert forall|j: int| 0 <= j < i + 1 implies seen.deep_view().contains(
                    key(#[trigger] rows[j]),
                ) by {
                    if j < i {
                        let at = choose|at: int|
                            0 <= at < old_seen.len() && old_seen[at] == key(rows[j]);
                        assert(seen.deep_view()[at] == key(rows[j]));
                    } else {
                        assert(seen.deep_view()[old_seen.len() as int] == key(rows[j]));
                    }
                }
                assert forall|m: int| 0 <= m < seen.len() implies exists|j: int|
                    0 <= j < i + 1 && key(#[trigger] rows[j]) == (#[trigger] seen.deep_view()[m]) by {
                    if m < old_seen.len() {
                        let j = choose|j: int|
                            0 <= j < i && key(#[trigger] rows[j]) == old_seen[m];
                        assert(key(rows[j]) == seen.deep_view()[m]);
                    } else {
                        assert(key(rows[i as int]) == seen.deep_view()[m]);
                    }
                }
            }
        } else {
            proof {
                let at = choose|at: int| 0 <= at < old_seen.len() && old_seen[at] == target@;
                let j = choose|j: int| 0 <= j < i && key(#[trigger] rows[j]) == old_seen[at];
                assert(key(rows[j]) == key(here.1));
                assert(!first(here));
            }
        }
        i += 1;
    }
    assert(numbered(rows).take(filtered.len() as int) =~= numbered(rows));
    let mut location = working_dir(sheet_id);
    location.append("/");
    location.append(UNPACK_GRADES_FILENAME);
    Grades {
        location,
        assign_id: None,
        source: Source::CsvAndZip,
        sheet_id: sheet_id.to_owned(),
        map: grades_arr,
    }
}

/// What `unpack` hands back: what the working directory of the sheet is to
/// hold.
#[derive(Debug)]
pub struct UnpackOutput {
    /// The working directory.
    pub unpack_path: String,
    /// Where the filtered roster goes.
    pub nested_csv_path: String,
    /// The rows of the filtered roster.
    pub records: Vec<GradingRecord>,
    /// The fresh ledger; its location says where it goes.
    pub grades: Grades,
    /// The files to take out of the source archive.
    pub files: Vec<Extraction>,
}

/// An `UnpackOutput` as plain values.
pub struct UnpackOutputView {
    pub unpack_path: Seq<char>,
    pub nested_csv_path: Seq<char>,
    pub records: Seq<GradingRecordView>,
    pub grades: GradesView,
    pub files: Seq<ExtractionView>,
}

impl View for UnpackOutput {
    type V = UnpackOutputView;

    open spec fn view(&self) -> UnpackOutputView {
        UnpackOutputView {
            unpack_path: self.unpack_path@,
            nested_csv_path: self.nested_csv_path@,
            records: self.records.deep_view(),
            grades: self.grades@,
            files: self.files.deep_view(),
        }
    }
}

impl DeepView for UnpackOutput {
    type V = UnpackOutputView;

    open spec fn deep_view(&self) -> UnpackOutputView {
        self@
    }
}

/// What `unpack` gives: the first of the failures that applies, in the
/// order configuration, working directory, roster, archive; else the
/// contents of the working directory.
pub open spec fn unpack_outcome(
    master: MasterCfgView,
    sheet_id: Seq<char>,
    exists: bool,
    records: Seq<GradingRecordView>,
    archive: Seq<ArchiveEntryView>,
) -> Result<UnpackOutputView, KasmError> {
    match PatternMatcher::compiled(master.groups_regex) {
        None => Err(KasmError::BadPattern),
        Some(reg) => {
            let kept = records.filter(is_kept(reg, master.group));
            if exists {
                Err(KasmError::AlreadyExists)
            } else if kept.len() == 0 {
                Err(KasmError::NoMatchingRecords)
            } else if !archive_well_formed(archive, reg, master.group) {
                Err(KasmError::MalformedEntry)
            } else {
                Ok(
                    UnpackOutputView {
                        unpack_path: unpack_path(sheet_id),
                        nested_csv_path: nested_csv_path(sheet_id),
                        records: kept,
                        grades: initial_grades(kept, master.unpack_structure, sheet_id),
                        files: extractions(archive, reg, master.group),
                    },
                )
            }
        },
    }
}

/// Plans the working directory of a sheet from the roster and the listing
/// of the source archive. `exists` says whether the working directory is
/// there already.
pub fn unpack(
    master: &MasterCfg,
    cfg: &UnpackFiles,
    exists: bool,
    records: &[GradingRecord],
    archive: &Vec<ArchiveEntry>,
) -> (r: Result<UnpackOutput, KasmError>)
    ensures
        outcome(r) == unpack_outcome(
            master@,
            cfg.sheet_id@,
            exists,
            records.deep_view(),
            archive.deep_view(),
        ),
{
    let reg = match PatternMatcher::new(master.groups_regex.as_str()) {
        Ok(reg) => reg,
        Err(e) => { return Err(e); },
    };
    if exists {
        return Err(KasmError::AlreadyExists);
    }
    let unit: Option<&str> = match &master.group {
        Some(group) => Some(group.as_str()),
        None => None,
    };
    let filtered = filter_records(records, &reg, unit);
    if filtered.len() == 0 {
        return Err(KasmError::NoMatchingRecords);
    }
    let files = match unzip_filter_main(archive, &reg, unit) {
        Ok(files) => files,
        Err(e) => { return Err(e); },
    };
    let grades = gen_grading_files(
        master.unpack_structure,
        cfg.sheet_id.as_str(),
        filtered.as_slice(),
    );
    let unpack_path = working_dir(cfg.sheet_id.as_str());
    let mut nested_csv_path = working_dir(cfg.sheet_id.as_str());
    nested_csv_path.append("/");
    nested_csv_path.append(UNPACK_CSV_FILENAME);
    Ok(UnpackOutput { unpack_path, nested_csv_path, records: filtered, grades, files })
}

/// The position of a numbered element.
pub open spec fn position_of<A>() -> spec_fn((int, A)) -> int {
    |p: (int, A)| p.0
}

/// The rows that are entered under `key`.
pub open spec fn has_key(structure: Structure, key: Seq<char>) -> spec_fn(GradingRecordView) -> bool {
    |r: GradingRecordView| unit_key(structure)(r) == key
}

/// A ledger entry's target.
pub open spec fn target_of() -> spec_fn(GradeView) -> Seq<char> {
    |g: GradeView| g.target
}

/// A fresh ledger has exactly one entry for every unit of the rows it is
/// built from: no two entries have the same target, and a lookup by the
/// unit of any row gives the best grade of the first row of that unit.
pub proof fn lemma_initial_entries_cover(rows: Seq<GradingRecordView>, structure: Structure, i: int)
    requires
        0 <= i < rows.len(),
    ensures
        distinct_by(initial_entries(rows, structure), target_of()),
        first_where(rows, has_key(structure, unit_key(structure)(rows[i]))) is Some,
        grade_for(initial_entries(rows, structure), unit_key(structure)(rows[i])) == Some(
            rows[first_where(rows, has_key(structure, unit_key(structure)(rows[i])))->0].best_grade,
        ),
{
    let key = unit_key(structure);
    let first = is_first_of_unit(rows, structure);
    let all = numbered(rows);
    let firsts = all.filter(first);
    let entries = initial_entries(rows, structure);
    assert(distinct_by(all, position_of::<GradingRecordView>()));
    lemma_filter_distinct(all, first, position_of::<GradingRecordView>());
    assert forall|m: int| 0 <= m < firsts.len() implies {
        &&& 0 <= (#[trigger] firsts[m]).0 < rows.len()
        &&& firsts[m].1 == rows[firsts[m].0]
        &&& first(firsts[m])
    } by {
        all.lemma_filter_pred(first, m);
        assert(firsts.contains(firsts[m]));
        all.lemma_filter_contains_rev(first, firsts[m]);
        let j = choose|j: int| 0 <= j < all.len() && all[j] == firsts[m];
        assert(all[j] == (j, rows[j]));
    }
    assert forall|a: int, b: int| 0 <= a < b < entries.len() implies target_of()(
        #[trigger] entries[a],
    ) != target_of()(#[trigger] entries[b]) by {
        let pa = firsts[a];
        let pb = firsts[b];
        assert(position_of::<GradingRecordView>()(firsts[a]) != position_of::<GradingRecordView>()(
            firsts[b],
        ));
        assert(entries[a].target == key(pa.1));
        assert(entries[b].target == key(pb.1));
        if pa.0 < pb.0 {
            assert(key(rows[pa.0]) != key(pb.1));
        } else {
            assert(key(rows[pb.0]) != key(pa.1));
        }
    }
    let wanted = key(rows[i]);
    lemma_first_where_exists(rows, has_key(structure, wanted), i);
    lemma_first_where(rows, has_key(structure, wanted));
    let f = first_where(rows, has_key(structure, wanted))->0;
    assert(first(all[f])) by {
        assert forall|j: int| 0 <= j < f && j < rows.len() implies key(#[trigger] rows[j]) != key(
            rows[f],
        ) by {
            assert(!has_key(structure, wanted)(rows[j]));
        }
    }
    all.lemma_filter_contains(first, f);
    let m = choose|m: int| 0 <= m < firsts.len() && firsts[m] == all[f];
    assert(entries[m] == initial_entry(structure)(all[f]));
    assert(is_first_where(entries, has_target(wanted), m)) by {
        assert forall|j: int| 0 <= j < m implies !has_target(wanted)(#[trigger] entries[j]) by {
            assert(target_of()(entries[j]) != target_of()(entries[m]));
        }
    }
    lemma_first_where_found(entries, has_target(wanted), m);
}

/// What ingestion takes out of the archive belongs to the unit that the
/// kept rows belong to, under the same matcher: every file comes from an
/// entry out of whose name the matcher reads the configured unit, goes
/// where that entry's path says, and every such entry gives a file.
pub proof fn lemma_extractions_belong_to_unit(
    archive: Seq<ArchiveEntryView>,
    reg: PatternMatcher,
    unit: Option<Seq<char>>,
)
    ensures
        forall|k: int|
            0 <= k < extractions(archive, reg, unit).len() ==> {
                let file = #[trigger] extractions(archive, reg, unit)[k];
                &&& 0 <= file.index < archive.len()
                &&& is_unit_id(reg.unit_of(archive[file.index].name), unit)
                &&& archive_well_formed(archive, reg, unit) ==> destination(archive[file.index])
                    == Some((file.unit, file.file))
            },
        extractions(archive, reg, unit).len() == archive.filter(is_wanted(reg, unit)).len(),
{
    let all = numbered(archive);
    let wanted = is_wanted_at(reg, unit);
    let picked = all.filter(wanted);
    assert forall|k: int| 0 <= k < extractions(archive, reg, unit).len() implies {
        let file = #[trigger] extractions(archive, reg, unit)[k];
        &&& 0 <= file.index < archive.len()
        &&& is_unit_id(reg.unit_of(archive[file.index].name), unit)
        &&& archive_well_formed(archive, reg, unit) ==> destination(archive[file.index]) == Some(
            (file.unit, file.file),
        )
    } by {
        all.lemma_filter_pred(wanted, k);
        assert(picked.contains(picked[k]));
        all.lemma_filter_contains_rev(wanted, picked[k]);
        let j = choose|j: int| 0 <= j < all.len() && all[j] == picked[k];
        assert(all[j] == (j, archive[j]));
        assert(extractions(archive, reg, unit)[k] == extraction_of()(picked[k]));
    }
    lemma_numbered_filter_len(archive, is_wanted(reg, unit), wanted);
}

/// Numbering the elements does not change how many a predicate on the
/// elements keeps.
pub proof fn lemma_numbered_filter_len<A>(
    s: Seq<A>,
    pred: spec_fn(A) -> bool,
    numbered_pred: spec_fn((int, A)) -> bool,
)
    requires
        forall|p: (int, A)| #[trigger] numbered_pred(p) == pred(p.1),
    ensures
        numbered(s).filter(numbered_pred).len() == s.filter(pred).len(),
    decreases s.len(),
{
    reveal(Seq::filter);
    if s.len() == 0 {
        assert(numbered(s) =~= Seq::<(int, A)>::empty());
    } else {
        lemma_numbered_filter_len(s.drop_last(), pred, numbered_pred);
        assert(numbered(s).drop_last() =~= numbered(s.drop_last()));
        assert(numbered(s).last() == (s.len() - 1, s.last()));
        let p = numbered(s).last();
        assert(p.1 == s.last());
        assert(numbered_pred(p) == pred(p.1));
    }
}

/// Ingestion keeps a roster row exactly when the matcher reads the
/// configured unit out of the row's group: every kept row is such a row of
/// the roster, every such row is kept, and there are as many kept rows as
/// positions of the roster that hold such a row.
pub proof fn lemma_kept_rows_exact(
    master: MasterCfgView,
    sheet_id: Seq<char>,
    exists: bool,
    records: Seq<GradingRecordView>,
    archive: Seq<ArchiveEntryView>,
)
    requires
        unpack_outcome(master, sheet_id, exists, records, archive) is Ok,
    ensures
        ({
            let reg = PatternMatcher::compiled(master.groups_regex)->0;
            let kept = unpack_outcome(master, sheet_id, exists, records, archive)->Ok_0.records;
            &&& forall|r: GradingRecordView|
                kept.contains(r) <==> records.contains(r) && is_unit_id(
                    reg.unit_of(r.group),
                    master.group,
                )
            &&& positions_where(records, is_kept(reg, master.group)).finite()
            &&& kept.len() == positions_where(records, is_kept(reg, master.group)).len()
        }),
{
    let reg = PatternMatcher::compiled(master.groups_regex)->0;
    let keep = is_kept(reg, master.group);
    let kept = records.filter(keep);
    lemma_filter_counts(records, keep);
    assert forall|r: GradingRecordView|
        kept.contains(r) <==> records.contains(r) && is_unit_id(
            reg.unit_of(r.group),
            master.group,
        ) by {
        if kept.contains(r) {
            records.lemma_filter_contains_rev(keep, r);
            let k = choose|k: int| 0 <= k < kept.len() && kept[k] == r;
            records.lemma_filter_pred(keep, k);
        }
        if records.contains(r) && keep(r) {
            let i = choose|i: int| 0 <= i < records.len() && records[i] == r;
            records.lemma_filter_contains(keep, i);
        }
    }
}

/// Ingestion never goes ahead where the working directory is there
/// already: with a valid classifier it fails with `AlreadyExists`, whatever
/// the roster and the archive hold.
pub proof fn lemma_existing_directory_refused(
    master: MasterCfgView,
    sheet_id: Seq<char>,
    records: Seq<GradingRecordView>,
    archive: Seq<ArchiveEntryView>,
)
    ensures
        unpack_outcome(master, sheet_id, true, records, archive) is Err,
        PatternMatcher::compiled(master.groups_regex) is Some ==> unpack_outcome(
            master,
            sheet_id,
            true,
            records,
            archive,
        ) == Err::<UnpackOutputView, KasmError>(KasmError::AlreadyExists),
{
}

} // verus!
