use vstd::prelude::*;
use vstd::string::*;

use crate::text::same_text;

verus! {

/// The column that holds the platform's id of the submitter. This and the
/// following are the names of the roster's columns, as the platform writes
/// them.
pub const COLUMN_ID: &'static str = "ID";

/// The column that holds the full name.
pub const COLUMN_NAME: &'static str = "Vollständiger Name";

/// The column that holds the university id number.
pub const COLUMN_UNI_ID: &'static str = "Matrikelnummer";

/// The column that holds the status of the submission.
pub const COLUMN_STATUS: &'static str = "Status";

/// The column that holds the full name of the group.
pub const COLUMN_GROUP: &'static str = "Gruppe";

/// The column that holds the grade.
pub const COLUMN_GRADE: &'static str = "Bewertung";

/// The column that holds the best grade that can be given.
pub const COLUMN_BEST_GRADE: &'static str = "Bestwertung";

/// The column that holds whether the grade can be changed.
pub const COLUMN_GRADE_LOCKED: &'static str = "Bewertung kann geändert werden";

/// The column that holds when the submission was last changed.
pub const COLUMN_LAST_CHANGE_SUBMISSION: &'static str = "Zuletzt geändert (Abgabe)";

/// The column that holds when the grade was last changed.
pub const COLUMN_LAST_CHANGE_GRADE: &'static str = "Zuletzt geändert (Bewertung)";

/// The column that holds the feedback.
pub const COLUMN_FEEDBACK_COMMENT: &'static str = "Feedback als Kommentar";

/// One row of the roster: a submitter and what the platform holds of them.
#[derive(Debug)]
pub struct GradingRecord {
    /// The platform's id of the submitter.
    pub internal_id: String,
    /// Full name.
    pub name: String,
    /// University id number.
    pub uni_id: String,
    pub status: String,
    /// Full name of the group the submitter belongs to.
    pub group: String,
    pub grade: String,
    pub best_grade: String,
    pub grade_locked: String,
    pub last_change_submission: String,
    pub last_change_grade: String,
    pub feedback_comment: String,
}

/// A roster row as plain text fields.
pub struct GradingRecordView {
    pub internal_id: Seq<char>,
    pub name: Seq<char>,
    pub uni_id: Seq<char>,
    pub status: Seq<char>,
    pub group: Seq<char>,
    pub grade: Seq<char>,
    pub best_grade: Seq<char>,
    pub grade_locked: Seq<char>,
    pub last_change_submission: Seq<char>,
    pub last_change_grade: Seq<char>,
    pub feedback_comment: Seq<char>,
}

impl View for GradingRecord {
    type V = GradingRecordView;

    open spec fn view(&self) -> GradingRecordView {
        GradingRecordView {
            internal_id: self.internal_id@,
            name: self.name@,
            uni_id: self.uni_id@,
            status: self.status@,
            group: self.group@,
            grade: self.grade@,
            best_grade: self.best_grade@,
            grade_locked: self.grade_locked@,
            last_change_submission: self.last_change_submission@,
            last_change_grade: self.last_change_grade@,
            feedback_comment: self.feedback_comment@,
        }
    }
}

impl DeepView for GradingRecord {
    type V = GradingRecordView;

    open spec fn deep_view(&self) -> GradingRecordView {
        self@
    }
}

impl GradingRecordView {
    /// The same row with another grade.
    pub open spec fn with_grade(self, grade: Seq<char>) -> GradingRecordView {
        GradingRecordView { grade, ..self }
    }
}

impl Clone for GradingRecord {
    fn clone(&self) -> (r: GradingRecord)
        ensures
            r@ == self@,
    {
        GradingRecord {
            internal_id: self.internal_id.clone(),
            name: self.name.clone(),
            uni_id: self.uni_id.clone(),
            status: self.status.clone(),
            group: self.group.clone(),
            grade: self.grade.clone(),
            best_grade: self.best_grade.clone(),
            grade_locked: self.grade_locked.clone(),
            last_change_submission: self.last_change_submission.clone(),
            last_change_grade: self.last_change_grade.clone(),
            feedback_comment: self.feedback_comment.clone(),
        }
    }
}

impl GradingRecord {
    /// A copy of the row that carries `grade`.
    pub fn regraded(&self, grade: &str) -> (r: GradingRecord)
        ensures
            r@ == self@.with_grade(grade@),
    {
        let mut r = self.clone();
        r.grade = grade.to_owned();
        r
    }
}

/// The header of a roster: the names of the recognized columns, in the
/// order in which a row's fields are written.
pub open spec fn roster_header() -> Seq<Seq<char>> {
    seq![
        COLUMN_ID@,
        COLUMN_NAME@,
        COLUMN_UNI_ID@,
        COLUMN_STATUS@,
        COLUMN_GROUP@,
        COLUMN_GRADE@,
        COLUMN_BEST_GRADE@,
        COLUMN_GRADE_LOCKED@,
        COLUMN_LAST_CHANGE_SUBMISSION@,
        COLUMN_LAST_CHANGE_GRADE@,
        COLUMN_FEEDBACK_COMMENT@,
    ]
}

/// `i` is the one column of `header` that is named `name`.
pub open spec fn is_column(header: Seq<Seq<char>>, name: Seq<char>, i: int) -> bool {
    &&& 0 <= i < header.len()
    &&& header[i] == name
    &&& forall|j: int| 0 <= j < header.len() && j != i ==> #[trigger] header[j] != name
}

/// The column of `header` that is named `name`: `None` where there is none,
/// or more than one.
pub open spec fn column_of(header: Seq<Seq<char>>, name: Seq<char>) -> Option<int> {
    if exists|i: int| is_column(header, name, i) {
        Some(choose|i: int| is_column(header, name, i))
    } else {
        None
    }
}

/// Whether `header` names every recognized column exactly once.
pub open spec fn header_recognized(header: Seq<Seq<char>>) -> bool {
    forall|k: int| 0 <= k < roster_header().len() ==> column_of(header, #[trigger] roster_header()[k]) is Some
}

/// The field of `row` under the column named `name`.
pub open spec fn field_of(header: Seq<Seq<char>>, row: Seq<Seq<char>>, name: Seq<char>) -> Seq<char> {
    row[column_of(header, name)->0]
}

/// The record that a row of a table with the header `header` holds: its
/// fields under the recognized columns, whatever other columns there are.
/// `None` where the header does not name every recognized column exactly
/// once, or the row has more or fewer fields than the header has columns.
pub open spec fn record_of(header: Seq<Seq<char>>, row: Seq<Seq<char>>) -> Option<GradingRecordView> {
    if header_recognized(header) && row.len() == header.len() {
        Some(
            GradingRecordView {
                internal_id: field_of(header, row, COLUMN_ID@),
                name: field_of(header, row, COLUMN_NAME@),
                uni_id: field_of(header, row, COLUMN_UNI_ID@),
                status: field_of(header, row, COLUMN_STATUS@),
                group: field_of(header, row, COLUMN_GROUP@),
                grade: field_of(header, row, COLUMN_GRADE@),
                best_grade: field_of(header, row, COLUMN_BEST_GRADE@),
                grade_locked: field_of(header, row, COLUMN_GRADE_LOCKED@),
                last_change_submission: field_of(header, row, COLUMN_LAST_CHANGE_SUBMISSION@),
                last_change_grade: field_of(header, row, COLUMN_LAST_CHANGE_GRADE@),
                feedback_comment: field_of(header, row, COLUMN_FEEDBACK_COMMENT@),
            },
        )
    } else {
        None
    }
}

/// The rows that hold a record.
pub open spec fn holds_record(header: Seq<Seq<char>>) -> spec_fn(Seq<Seq<char>>) -> bool {
    |row: Seq<Seq<char>>| record_of(header, row) is Some
}

/// The record of a row that holds one.
pub open spec fn to_record(header: Seq<Seq<char>>) -> spec_fn(Seq<Seq<char>>) -> GradingRecordView {
    |row: Seq<Seq<char>>| record_of(header, row)->0
}

/// The records of a table: those of the rows that hold one, in the table's
/// order.
pub open spec fn records_of(header: Seq<Seq<char>>, rows: Seq<Seq<Seq<char>>>) -> Seq<
    GradingRecordView,
> {
    rows.filter(holds_record(header)).map_values(to_record(header))
}

/// The fields of a record, in the order of the roster's header.
pub open spec fn fields_of(record: GradingRecordView) -> Seq<Seq<char>> {
    seq![
        record.internal_id,
        record.name,
        record.uni_id,
        record.status,
        record.group,
        record.grade,
        record.best_grade,
        record.grade_locked,
        record.last_change_submission,
        record.last_change_grade,
        record.feedback_comment,
    ]
}

/// Finds the one column of `header` that is named `name`.
pub fn find_column(header: &Vec<String>, name: &str) -> (r: Option<usize>)
    ensures
        match r {
            Some(i) => i < header.len() && column_of(header.deep_view(), name@) == Some(i as int),
            None => column_of(header.deep_view(), name@) is None,
        },
{
    let ghost names = header.deep_view();
    let mut found: Option<usize> = None;
    let mut i: usize = 0;
    while i < header.len()
        invariant
            i <= header.len(),
            names == header.deep_view(),
            match found {
                Some(f) => f < i && names[f as int] == name@ && forall|j: int|
                    0 <= j < i && j != f ==> #[trigger] names[j] != name@,
                None => forall|j: int| 0 <= j < i ==> #[trigger] names[j] != name@,
            },
        decreases header.len() - i,
    {
        if same_text(header[i].as_str(), name) {
            match found {
                Some(f) => {
                    proof {
                        assert forall|c: int| !is_column(names, name@, c) by {
                            if c != f as int {
                                assert(names[f as int] == name@);
                            } else {
                                assert(names[i as int] == name@);
                            }
                        }
                    }
                    return None;
                },
                None => {
                    found = Some(i);
                },
            }
        }
        i += 1;
    }
    proof {
        match found {
            Some(f) => {
                assert(is_column(names, name@, f as int));
                let c = choose|c: int| is_column(names, name@, c);
                assert(is_column(names, name@, c));
                if c != f as int {
                    assert(names[f as int] == name@);
                }
            },
            None => {
                assert forall|c: int| !is_column(names, name@, c) by {
                    if 0 <= c < names.len() {
                        assert(names[c] != name@);
                    }
                }
            },
        }
    }
    found
}

/// Where the recognized columns stand in a header.
pub struct Columns {
    pub internal_id: usize,
    pub name: usize,
    pub uni_id: usize,
    pub status: usize,
    pub group: usize,
    pub grade: usize,
    pub best_grade: usize,
    pub grade_locked: usize,
    pub last_change_submission: usize,
    pub last_change_grade: usize,
    pub feedback_comment: usize,
}

impl Columns {
    /// Whether these are the places of the recognized columns in `header`.
    pub open spec fn locates(&self, header: Seq<Seq<char>>) -> bool {
        &&& column_of(header, COLUMN_ID@) == Some(self.internal_id as int)
        &&& column_of(header, COLUMN_NAME@) == Some(self.name as int)
        &&& column_of(header, COLUMN_UNI_ID@) == Some(self.uni_id as int)
        &&& column_of(header, COLUMN_STATUS@) == Some(self.status as int)
        &&& column_of(header, COLUMN_GROUP@) == Some(self.group as int)
        &&& column_of(header, COLUMN_GRADE@) == Some(self.grade as int)
        &&& column_of(header, COLUMN_BEST_GRADE@) == Some(self.best_grade as int)
        &&& column_of(header, COLUMN_GRADE_LOCKED@) == Some(self.grade_locked as int)
        &&& column_of(header, COLUMN_LAST_CHANGE_SUBMISSION@) == Some(
            self.last_change_submission as int,
        )
        &&& column_of(header, COLUMN_LAST_CHANGE_GRADE@) == Some(self.last_change_grade as int)
        &&& column_of(header, COLUMN_FEEDBACK_COMMENT@) == Some(self.feedback_comment as int)
    }

    /// Whether every place is inside a row of `width` fields.
    pub open spec fn within(&self, width: nat) -> bool {
        &&& self.internal_id < width
        &&& self.name < width
        &&& self.uni_id < width
        &&& self.status < width
        &&& self.group < width
        &&& self.grade < width
        &&& self.best_grade < width
        &&& self.grade_locked < width
        &&& self.last_change_submission < width
        &&& self.last_change_grade < width
        &&& self.feedback_comment < width
    }

    /// Finds the recognized columns in a header.
    pub fn find(header: &Vec<String>) -> (r: Option<Columns>)
        ensures
            match r {
                Some(columns) => header_recognized(header.deep_view()) && columns.locates(
                    header.deep_view(),
                ) && columns.within(header.deep_view().len()),
                None => !header_recognized(header.deep_view()),
            },
    {
        let ghost names = roster_header();
        assert(names.len() == 11);
        let internal_id = match find_column(header, COLUMN_ID) {
            Some(i) => i,
            None => { assert(names[0] == COLUMN_ID@); return None; },
        };
        let name = match find_column(header, COLUMN_NAME) {
            Some(i) => i,
            None => { assert(names[1] == COLUMN_NAME@); return None; },
        };
        let uni_id = match find_column(header, COLUMN_UNI_ID) {
            Some(i) => i,
            None => { assert(names[2] == COLUMN_UNI_ID@); return None; },
        };
        let status = match find_column(header, COLUMN_STATUS) {
            Some(i) => i,
            None => { assert(names[3] == COLUMN_STATUS@); return None; },
        };
        let group = match find_column(header, COLUMN_GROUP) {
            Some(i) => i,
            None => { assert(names[4] == COLUMN_GROUP@); return None; },
        };
        let grade = match find_column(header, COLUMN_GRADE) {
            Some(i) => i,
            None => { assert(names[5] == COLUMN_GRADE@); return None; },
        };
        let best_grade = match find_column(header, COLUMN_BEST_GRADE) {
            Some(i) => i,
            None => { assert(names[6] == COLUMN_BEST_GRADE@); return None; },
        };
        let grade_locked = match find_column(header, COLUMN_GRADE_LOCKED) {
            Some(i) => i,
            None => { assert(names[7] == COLUMN_GRADE_LOCKED@); return None; },
        };
        let last_change_submission = match find_column(header, COLUMN_LAST_CHANGE_SUBMISSION) {
            Some(i) => i,
            None => { assert(names[8] == COLUMN_LAST_CHANGE_SUBMISSION@); return None; },
        };
        let last_change_grade = match find_column(header, COLUMN_LAST_CHANGE_GRADE) {
            Some(i) => i,
            None => { assert(names[9] == COLUMN_LAST_CHANGE_GRADE@); return None; },
        };
        let feedback_comment = match find_column(header, COLUMN_FEEDBACK_COMMENT) {
            Some(i) => i,
            None => { assert(names[10] == COLUMN_FEEDBACK_COMMENT@); return None; },
        };
        Some(
            Columns {
                internal_id,
                name,
                uni_id,
                status,
                group,
                grade,
                best_grade,
                grade_locked,
                last_change_submission,
                last_change_grade,
                feedback_comment,
            },
        )
    }
}

impl GradingRecord {
    /// The header of a roster.
    pub fn header() -> (r: Vec<String>)
        ensures
            r.deep_view() == roster_header(),
    {
        let mut names: Vec<String> = Vec::new();
        names.push(COLUMN_ID.to_owned());
        names.push(COLUMN_NAME.to_owned());
        names.push(COLUMN_UNI_ID.to_owned());
        names.push(COLUMN_STATUS.to_owned());
        names.push(COLUMN_GROUP.to_owned());
        names.push(COLUMN_GRADE.to_owned());
        names.push(COLUMN_BEST_GRADE.to_owned());
        names.push(COLUMN_GRADE_LOCKED.to_owned());
        names.push(COLUMN_LAST_CHANGE_SUBMISSION.to_owned());
        names.push(COLUMN_LAST_CHANGE_GRADE.to_owned());
        names.push(COLUMN_FEEDBACK_COMMENT.to_owned());
        assert(names.deep_view() =~= roster_header());
        names
    }

    /// The record's fields, in the order of the roster's header.
    pub fn to_row(&self) -> (r: Vec<String>)
        ensures
            r.deep_view() == fields_of(self@),
    {
        let mut fields: Vec<String> = Vec::new();
        fields.push(self.internal_id.clone());
        fields.push(self.name.clone());
        fields.push(self.uni_id.clone());
        fields.push(self.status.clone());
        fields.push(self.group.clone());
        fields.push(self.grade.clone());
        fields.push(self.best_grade.clone());
        fields.push(self.grade_locked.clone());
        fields.push(self.last_change_submission.clone());
        fields.push(self.last_change_grade.clone());
        fields.push(self.feedback_comment.clone());
        assert(fields.deep_view() =~= fields_of(self@));
        fields
    }

    /// Reads the record that a row holds, given where the recognized
    /// columns stand.
    pub fn from_row(columns: &Columns, row: &Vec<String>) -> (r: Option<GradingRecord>)
        ensures
            match r {
                Some(record) => columns.within(row.deep_view().len()) && record@ == (
                GradingRecordView {
                    internal_id: row.deep_view()[columns.internal_id as int],
                    name: row.deep_view()[columns.name as int],
                    uni_id: row.deep_view()[columns.uni_id as int],
                    status: row.deep_view()[columns.status as int],
                    group: row.deep_view()[columns.group as int],
                    grade: row.deep_view()[columns.grade as int],
                    best_grade: row.deep_view()[columns.best_grade as int],
                    grade_locked: row.deep_view()[columns.grade_locked as int],
                    last_change_submission: row.deep_view()[columns.last_change_submission as int],
                    last_change_grade: row.deep_view()[columns.last_change_grade as int],
                    feedback_comment: row.deep_view()[columns.feedback_comment as int],
                }),
                None => !columns.within(row.deep_view().len()),
            },
    {
        let width = row.len();
        if columns.internal_id >= width || columns.name >= width || columns.uni_id >= width
            || columns.status >= width || columns.group >= width || columns.grade >= width
            || columns.best_grade >= width || columns.grade_locked >= width
            || columns.last_change_submission >= width || columns.last_change_grade >= width
            || columns.feedback_comment >= width {
            return None;
        }
        Some(
            GradingRecord {
                internal_id: row[columns.internal_id].clone(),
                name: row[columns.name].clone(),
                uni_id: row[columns.uni_id].clone(),
                status: row[columns.status].clone(),
                group: row[columns.group].clone(),
                grade: row[columns.grade].clone(),
                best_grade: row[columns.best_grade].clone(),
                grade_locked: row[columns.grade_locked].clone(),
                last_change_submission: row[columns.last_change_submission].clone(),
                last_change_grade: row[columns.last_change_grade].clone(),
                feedback_comment: row[columns.feedback_comment].clone(),
            },
        )
    }

    /// Reads the records of a table from its header and its rows. A row
    /// that holds no record is left out.
    pub fn from_csv(header: &Vec<String>, rows: &Vec<Vec<String>>) -> (r: Vec<GradingRecord>)
        ensures
            r.deep_view() == records_of(header.deep_view(), rows.deep_view()),
    {
        let ghost names = header.deep_view();
        let ghost all = rows.deep_view();
        let ghost keep = holds_record(names);
        let ghost read = to_record(names);
        let mut records: Vec<GradingRecord> = Vec::new();
        let columns = match Columns::find(header) {
            Some(columns) => columns,
            None => {
                proof {
                    crate::seqs::lemma_filter_none(all, keep);
                    assert(records.deep_view() =~= records_of(names, all));
                }
                return records;
            },
        };
        let mut i: usize = 0;
        proof {
            reveal(Seq::filter);
            assert(all.take(0) =~= Seq::<Seq<Seq<char>>>::empty());
            assert(records.deep_view() =~= all.take(0).filter(keep).map_values(read));
        }
        while i < rows.len()
            invariant
                i <= rows.len(),
                names == header.deep_view(),
                all == rows.deep_view(),
                keep == holds_record(names),
                read == to_record(names),
                header_recognized(names),
                columns.locates(names),
                columns.within(names.len()),
                records.deep_view() == all.take(i as int).filter(keep).map_values(read),
            decreases rows.len() - i,
        {
            proof {
                assert(all.take(i as int + 1) =~= all.take(i as int).push(all[i as int]));
                Seq::lemma_filter_push(all.take(i as int), all[i as int], keep);
            }
            let row = &rows[i];
            if row.len() == header.len() {
                let ghost before = records.deep_view();
                match GradingRecord::from_row(&columns, row) {
                    Some(record) => {
                        records.push(record);
                        proof {
                            assert(records.deep_view() =~= before.push(read(all[i as int])));
                            assert(all.take(i as int + 1).filter(keep).map_values(read)
                                =~= all.take(i as int).filter(keep).map_values(read).push(
                                read(all[i as int]),
                            ));
                        }
                    },
                    None => {},
                }
            }
            i += 1;
        }
        assert(all.take(rows.len() as int) =~= all);
        records
    }
}

/// The roster's header names eleven columns, no two of them alike.
pub proof fn lemma_roster_header_distinct()
    ensures
        roster_header().len() == 11,
        forall|a: int, b: int|
            0 <= a < b < roster_header().len() ==> #[trigger] roster_header()[a]
                != #[trigger] roster_header()[b],
{
    reveal_strlit("ID");
    reveal_strlit("Vollständiger Name");
    reveal_strlit("Matrikelnummer");
    reveal_strlit("Status");
    reveal_strlit("Gruppe");
    reveal_strlit("Bewertung");
    reveal_strlit("Bestwertung");
    reveal_strlit("Bewertung kann geändert werden");
    reveal_strlit("Zuletzt geändert (Abgabe)");
    reveal_strlit("Zuletzt geändert (Bewertung)");
    reveal_strlit("Feedback als Kommentar");
    let names = roster_header();
    assert(names[0].len() == 2);
    assert(names[1].len() == 18);
    assert(names[2].len() == 14);
    assert(names[3].len() == 6);
    assert(names[4].len() == 6);
    assert(names[5].len() == 9);
    assert(names[6].len() == 11);
    assert(names[7].len() == 30);
    assert(names[8].len() == 25);
    assert(names[9].len() == 28);
    assert(names[10].len() == 22);
    assert(names[3][0] == 'S');
    assert(names[4][0] == 'G');
}

/// Every recognized column has its place in the roster's own header.
pub proof fn lemma_roster_header_recognized()
    ensures
        header_recognized(roster_header()),
        forall|k: int|
            0 <= k < roster_header().len() ==> column_of(
                roster_header(),
                #[trigger] roster_header()[k],
            ) == Some(k),
{
    lemma_roster_header_distinct();
    let names = roster_header();
    assert forall|k: int| 0 <= k < names.len() implies column_of(names, #[trigger] names[k])
        == Some(k) by {
        assert(is_column(names, names[k], k)) by {
            assert forall|j: int| 0 <= j < names.len() && j != k implies #[trigger] names[j]
                != names[k] by {
                if j < k {
                    assert(names[j] != names[k]);
                } else {
                    assert(names[k] != names[j]);
                }
            }
        }
        let c = choose|c: int| is_column(names, names[k], c);
        assert(is_column(names, names[k], c));
        if c != k {
            assert(names[k] != names[k]);
        }
    }
}

/// Writing and reading back: the row that a record is written as holds,
/// under the roster's own header, that record.
pub proof fn lemma_row_round_trip(record: GradingRecordView)
    ensures
        record_of(roster_header(), fields_of(record)) == Some(record),
{
    lemma_roster_header_recognized();
    let names = roster_header();
    assert(names[0] == COLUMN_ID@);
    assert(names[1] == COLUMN_NAME@);
    assert(names[2] == COLUMN_UNI_ID@);
    assert(names[3] == COLUMN_STATUS@);
    assert(names[4] == COLUMN_GROUP@);
    assert(names[5] == COLUMN_GRADE@);
    assert(names[6] == COLUMN_BEST_GRADE@);
    assert(names[7] == COLUMN_GRADE_LOCKED@);
    assert(names[8] == COLUMN_LAST_CHANGE_SUBMISSION@);
    assert(names[9] == COLUMN_LAST_CHANGE_GRADE@);
    assert(names[10] == COLUMN_FEEDBACK_COMMENT@);
}

} // verus!
