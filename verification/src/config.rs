use vstd::prelude::*;
use vstd::string::*;

use crate::gradingtable::{GradingRecord, GradingRecordView};
use crate::seqs::{first_where, is_first_where, lemma_first_where_absent, lemma_first_where_found};
use crate::text::{clone_texts, same_text};

verus! {

/// The name of the master configuration file.
pub const MASTER_CFG_FILENAME: &'static str = "kasm.toml";

/// The classifier that is used where none is configured.
pub const DEFAULT_GROUPS_REGEX: &'static str = "([0-9]{1,3})";

/// What the name of a sheet's working directory begins with.
pub const UNPACK_PATH_FILENAME_BASE: &'static str = "unpack_";

/// The name of the filtered roster in a working directory.
pub const UNPACK_CSV_FILENAME: &'static str = ".filtered.csv";

/// The name of the ledger in a working directory.
pub const UNPACK_GRADES_FILENAME: &'static str = "grades.toml";

/// Whether an archive holds one folder per group or one per submitter.
#[derive(Clone, Copy, Debug, PartialEq, Eq, Structural)]
pub enum Structure {
    Groups,
    Individuals,
}

/// Where the files of a working directory came from.
#[derive(Clone, Copy, Debug, PartialEq, Eq, Structural)]
pub enum Source {
    CsvAndZip,
    Autofetch,
}

impl Default for Structure {
    fn default() -> (r: Structure)
        ensures
            r == Structure::Groups,
    {
        Structure::Groups
    }
}

impl Structure {
    /// The structure's name, as configurations write it.
    pub fn name(&self) -> (r: &'static str)
        ensures
            r@ == match *self {
                Structure::Groups => "Groups"@,
                Structure::Individuals => "Individuals"@,
            },
    {
        match self {
            Structure::Groups => "Groups",
            Structure::Individuals => "Individuals",
        }
    }
}

impl Default for Source {
    fn default() -> (r: Source)
        ensures
            r == Source::CsvAndZip,
    {
        Source::CsvAndZip
    }
}

/// The master configuration.
#[derive(Debug)]
pub struct MasterCfg {
    /// Where the configuration was found.
    pub location: String,
    pub moodle_token: String,
    pub moodle_course_id: Option<String>,
    /// Expression whose first capture group is the exercise group.
    pub groups_regex: String,
    /// The exercise group to grade.
    pub group: Option<String>,
    pub recursive_unzip: bool,
    /// Expression that a file's name must match to be repacked.
    pub repack_filter: Option<String>,
    pub unpack_structure: Structure,
    pub repack_structure: Structure,
}

/// A master configuration as plain values.
pub struct MasterCfgView {
    pub location: Seq<char>,
    pub moodle_token: Seq<char>,
    pub moodle_course_id: Option<Seq<char>>,
    pub groups_regex: Seq<char>,
    pub group: Option<Seq<char>>,
    pub recursive_unzip: bool,
    pub repack_filter: Option<Seq<char>>,
    pub unpack_structure: Structure,
    pub repack_structure: Structure,
}

impl View for MasterCfg {
    type V = MasterCfgView;

    open spec fn view(&self) -> MasterCfgView {
        MasterCfgView {
            location: self.location@,
            moodle_token: self.moodle_token@,
            moodle_course_id: self.moodle_course_id.deep_view(),
            groups_regex: self.groups_regex@,
            group: self.group.deep_view(),
            recursive_unzip: self.recursive_unzip,
            repack_filter: self.repack_filter.deep_view(),
            unpack_structure: self.unpack_structure,
            repack_structure: self.repack_structure,
        }
    }
}

impl DeepView for MasterCfg {
    type V = MasterCfgView;

    open spec fn deep_view(&self) -> MasterCfgView {
        self@
    }
}

impl Default for MasterCfg {
    fn default() -> (r: MasterCfg)
        ensures
            r@ == (MasterCfgView {
                location: Seq::empty(),
                moodle_token: Seq::empty(),
                moodle_course_id: None,
                groups_regex: Seq::empty(),
                group: None,
                recursive_unzip: false,
                repack_filter: None,
                unpack_structure: Structure::Groups,
                repack_structure: Structure::Groups,
            }),
    {
        MasterCfg {
            location: String::new(),
            moodle_token: String::new(),
            moodle_course_id: None,
            groups_regex: String::new(),
            group: None,
            recursive_unzip: false,
            repack_filter: None,
            unpack_structure: Structure::Groups,
            repack_structure: Structure::Groups,
        }
    }
}

impl Clone for MasterCfg {
    fn clone(&self) -> (r: MasterCfg)
        ensures
            r@ == self@,
    {
        MasterCfg {
            location: self.location.clone(),
            moodle_token: self.moodle_token.clone(),
            moodle_course_id: match &self.moodle_course_id {
                Some(id) => Some(id.clone()),
                None => None,
            },
            groups_regex: self.groups_regex.clone(),
            group: match &self.group {
                Some(group) => Some(group.clone()),
                None => None,
            },
            recursive_unzip: self.recursive_unzip,
            repack_filter: match &self.repack_filter {
                Some(filter) => Some(filter.clone()),
                None => None,
            },
            unpack_structure: self.unpack_structure,
            repack_structure: self.repack_structure,
        }
    }
}

/// The name of the working directory of a sheet.
pub open spec fn unpack_path(sheet_id: Seq<char>) -> Seq<char> {
    UNPACK_PATH_FILENAME_BASE@ + sheet_id
}

/// The name of the working directory of a sheet.
pub fn working_dir(sheet_id: &str) -> (path: String)
    ensures
        path@ == unpack_path(sheet_id@),
{
    let mut path = String::from_str(UNPACK_PATH_FILENAME_BASE);
    path.append(sheet_id);
    path
}

/// One entry of the ledger.
#[derive(Debug)]
pub struct Grade {
    /// Full team name, or university id, that the grade belongs to.
    pub target: String,
    /// The platform's id of the target.
    pub internal_id: Option<String>,
    /// The platform's ids of the members, where the files were fetched.
    pub members: Option<Vec<String>>,
    /// The grade, written as the platform expects it.
    pub grade: String,
}

/// A ledger entry as plain text fields.
pub struct GradeView {
    pub target: Seq<char>,
    pub internal_id: Option<Seq<char>>,
    pub members: Option<Seq<Seq<char>>>,
    pub grade: Seq<char>,
}

impl View for Grade {
    type V = GradeView;

    open spec fn view(&self) -> GradeView {
        GradeView {
            target: self.target@,
            internal_id: self.internal_id.deep_view(),
            members: self.members.deep_view(),
            grade: self.grade@,
        }
    }
}

impl DeepView for Grade {
    type V = GradeView;

    open spec fn deep_view(&self) -> GradeView {
        self@
    }
}

impl Default for Grade {
    fn default() -> (r: Grade)
        ensures
            r@ == (GradeView {
                target: Seq::empty(),
                internal_id: None,
                members: None,
                grade: Seq::empty(),
            }),
    {
        Grade { target: String::new(), internal_id: None, members: None, grade: String::new() }
    }
}

impl Clone for Grade {
    fn clone(&self) -> (r: Grade)
        ensures
            r@ == self@,
    {
        Grade {
            target: self.target.clone(),
            internal_id: match &self.internal_id {
                Some(id) => Some(id.clone()),
                None => None,
            },
            members: match &self.members {
                Some(members) => Some(clone_texts(members)),
                None => None,
            },
            grade: self.grade.clone(),
        }
    }
}

impl Grade {
    /// A copy of the entry that carries `grade`.
    pub fn regraded(&self, grade: &str) -> (r: Grade)
        ensures
            r@ == self@.with_grade(grade@),
    {
        let mut r = self.clone();
        r.grade = grade.to_owned();
        r
    }
}

impl GradeView {
    /// The same entry with another grade.
    pub open spec fn with_grade(self, grade: Seq<char>) -> GradeView {
        GradeView { grade, ..self }
    }
}

/// The ledger of one sheet.
#[derive(Debug)]
pub struct Grades {
    /// Where the ledger is kept.
    pub location: String,
    /// The platform's id of the assignment, where the files were fetched.
    pub assign_id: Option<String>,
    pub source: Source,
    pub sheet_id: String,
    /// The entries, in the order in which lookups try them.
    pub map: Vec<Grade>,
}

/// A ledger as plain values.
pub struct GradesView {
    pub location: Seq<char>,
    pub assign_id: Option<Seq<char>>,
    pub source: Source,
    pub sheet_id: Seq<char>,
    pub map: Seq<GradeView>,
}

impl View for Grades {
    type V = GradesView;

    open spec fn view(&self) -> GradesView {
        GradesView {
            location: self.location@,
            assign_id: self.assign_id.deep_view(),
            source: self.source,
            sheet_id: self.sheet_id@,
            map: self.map.deep_view(),
        }
    }
}

impl DeepView for Grades {
    type V = GradesView;

    open spec fn deep_view(&self) -> GradesView {
        self@
    }
}

/// The entries whose target is exactly `target`.
pub open spec fn has_target(target: Seq<char>) -> spec_fn(GradeView) -> bool {
    |g: GradeView| g.target == target
}

/// The rows whose group is exactly `group`.
pub open spec fn in_group(group: Seq<char>) -> spec_fn(GradingRecordView) -> bool {
    |r: GradingRecordView| r.group == group
}

/// Overwrites a row's grade with `grade`.
pub open spec fn regrade(grade: Seq<char>) -> spec_fn(GradingRecordView) -> GradingRecordView {
    |r: GradingRecordView| r.with_grade(grade)
}

/// The first entry for `target`, if the ledger has one.
pub open spec fn entry_for(map: Seq<GradeView>, target: Seq<char>) -> Option<GradeView> {
    match first_where(map, has_target(target)) {
        Some(i) => Some(map[i]),
        None => None,
    }
}

/// The grade that the ledger holds for `target`: that of the first entry
/// with this target.
pub open spec fn grade_for(map: Seq<GradeView>, target: Seq<char>) -> Option<Seq<char>> {
    match entry_for(map, target) {
        Some(g) => Some(g.grade),
        None => None,
    }
}

/// The rows of `group`, each with the grade that the ledger holds for the
/// group; none where it holds no grade for it.
pub open spec fn students_for(
    map: Seq<GradeView>,
    table: Seq<GradingRecordView>,
    group: Seq<char>,
) -> Seq<GradingRecordView> {
    match grade_for(map, group) {
        Some(grade) => table.filter(in_group(group)).map_values(regrade(grade)),
        None => Seq::empty(),
    }
}

impl GradesView {
    /// The same ledger with other entries.
    pub open spec fn with_map(self, map: Seq<GradeView>) -> GradesView {
        GradesView { map, ..self }
    }
}

impl Default for Grades {
    fn default() -> (r: Grades)
        ensures
            r@ == (GradesView {
                location: Seq::empty(),
                assign_id: None,
                source: Source::CsvAndZip,
                sheet_id: Seq::empty(),
                map: Seq::empty(),
            }),
    {
        let map: Vec<Grade> = Vec::new();
        assert(map.deep_view() =~= Seq::<GradeView>::empty());
        Grades {
            location: String::new(),
            assign_id: None,
            source: Source::CsvAndZip,
            sheet_id: String::new(),
            map,
        }
    }
}

impl Clone for Grades {
    fn clone(&self) -> (r: Grades)
        ensures
            r@ == self@,
    {
        let mut map: Vec<Grade> = Vec::new();
        let mut i: usize = 0;
        while i < self.map.len()
            invariant
                i <= self.map.len(),
                map.deep_view() == self.map.deep_view().take(i as int),
            decreases self.map.len() - i,
        {
            let ghost before = map.deep_view();
            map.push(self.map[i].clone());
            assert(map.deep_view() =~= before.push(self.map[i as int]@));
            assert(map.deep_view() =~= self.map.deep_view().take(i as int + 1));
            i += 1;
        }
        assert(self.map.deep_view().take(self.map.len() as int) =~= self.map.deep_view());
        Grades {
            location: self.location.clone(),
            assign_id: match &self.assign_id {
                Some(id) => Some(id.clone()),
                None => None,
            },
            source: self.source,
            sheet_id: self.sheet_id.clone(),
            map,
        }
    }
}

impl Grades {
    /// A copy of the ledger in which the entry at `at` carries `grade`;
    /// `None` where the ledger has no such entry.
    pub fn with_grade_at(&self, at: usize, grade: &str) -> (r: Option<Grades>)
        ensures
            match r {
                Some(ledger) => at < self@.map.len() && ledger@ == self@.with_map(
                    self@.map.update(at as int, self@.map[at as int].with_grade(grade@)),
                ),
                None => at >= self@.map.len(),
            },
    {
        if at >= self.map.len() {
            return None;
        }
        let mut ledger = self.clone();
        assert(ledger.map.deep_view().len() == self.map.deep_view().len());
        let entry = self.map[at].regraded(grade);
        ledger.map.set(at, entry);
        assert(ledger.map.deep_view() =~= self@.map.update(
            at as int,
            self@.map[at as int].with_grade(grade@),
        ));
        Some(ledger)
    }

    /// The position of the first entry whose target is `target`.
    pub fn find_target(&self, target: &str) -> (r: Option<usize>)
        ensures
            r.is_some() ==> r.unwrap() < self.map.len(),
            match r {
                Some(i) => first_where(self@.map, has_target(target@)) == Some(i as int),
                None => first_where(self@.map, has_target(target@)) is None,
            },
    {
        let mut i: usize = 0;
        while i < self.map.len()
            invariant
                i <= self.map.len(),
                forall|j: int| 0 <= j < i ==> !has_target(target@)(#[trigger] self@.map[j]),
            decreases self.map.len() - i,
        {
            if same_text(self.map[i].target.as_str(), target) {
                proof {
                    assert(is_first_where(self@.map, has_target(target@), i as int));
                    lemma_first_where_found(self@.map, has_target(target@), i as int);
                }
                return Some(i);
            }
            i += 1;
        }
        proof {
            lemma_first_where_absent(self@.map, has_target(target@));
        }
        None
    }

    /// The grade of the first entry whose target is `target`.
    pub fn find_grade_for_target(&self, target: &str) -> (r: Option<String>)
        ensures
            r.deep_view() == grade_for(self@.map, target@),
    {
        match self.find_target(target) {
            Some(i) => Some(self.map[i].grade.clone()),
            None => None,
        }
    }

    /// The rows of `group_id` in `gt`, each with the grade that the ledger
    /// holds for the group.
    pub fn collect_students_for_group(&self, gt: &[GradingRecord], group_id: &str) -> (r: Vec<
        GradingRecord,
    >)
        ensures
            r.deep_view() == students_for(self@.map, gt.deep_view(), group_id@),
    {
        let mut out: Vec<GradingRecord> = Vec::new();
        match self.find_grade_for_target(group_id) {
            None => {
                assert(out.deep_view() =~= Seq::<GradingRecordView>::empty());
                out
            },
            Some(grade) => {
                let ghost table = gt.deep_view();
                let ghost keep = in_group(group_id@);
                let ghost set = regrade(grade@);
                let mut i: usize = 0;
                proof {
                    assert(table.take(0) =~= Seq::<GradingRecordView>::empty());
                    reveal(Seq::filter);
                    assert(out.deep_view() =~= table.take(0).filter(keep).map_values(set));
                }
                while i < gt.len()
                    invariant
                        i <= gt.len(),
                        table == gt.deep_view(),
                        keep == in_group(group_id@),
                        set == regrade(grade@),
                        out.deep_view() == table.take(i as int).filter(keep).map_values(set),
                    decreases gt.len() - i,
                {
                    proof {
                        assert(table.take(i as int + 1) =~= table.take(i as int).push(table[i as int]));
                        Seq::lemma_filter_push(table.take(i as int), table[i as int], keep);
                    }
                    let ghost before = out.deep_view();
                    if same_text(gt[i].group.as_str(), group_id) {
                        out.push(gt[i].regraded(grade.as_str()));
                        proof {
                            assert(out.deep_view() =~= before.push(set(table[i as int])));
                            assert(table.take(i as int + 1).filter(keep).map_values(set)
                                =~= table.take(i as int).filter(keep).map_values(set).push(
                                set(table[i as int]),
                            ));
                        }
                    }
                    i += 1;
                }
                proof {
                    assert(table.take(gt.len() as int) =~= table);
                }
                out
            },
        }
    }
}

} // verus!
