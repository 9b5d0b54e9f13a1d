use vstd::prelude::*;

use crate::args::GradeCmd;
use crate::config::{
    grade_for, has_target, GradeView, Grades, GradesView, MasterCfg, MasterCfgView,
};
use crate::error::{outcome, KasmError};
use crate::pattern::{belongs_to, is_unit_id, PatternMatcher};
use crate::seqs::{
    first_where, is_first_where, is_only_where, lemma_first_where, lemma_first_where_absent,
    lemma_first_where_found,
};

verus! {

/// The entries that belong to `target`: those whose own target the matcher
/// reads `target` out of.
pub open spec fn classifies_to(reg: PatternMatcher, target: Seq<char>) -> spec_fn(GradeView) -> bool {
    |g: GradeView| is_unit_id(reg.unit_of(g.target), Some(target))
}

/// The segments that the matcher reads a unit out of.
pub open spec fn names_unit(reg: PatternMatcher) -> spec_fn(Seq<char>) -> bool {
    |segment: Seq<char>| reg.unit_of(segment) is Some
}

/// The unit that a path names: what the matcher reads out of the last
/// segment that it reads anything out of.
pub open spec fn inferred_target(reg: PatternMatcher, path: Seq<Seq<char>>) -> Option<Seq<char>> {
    let inward = path.reverse();
    match first_where(inward, names_unit(reg)) {
        Some(i) => reg.unit_of(inward[i]),
        None => None,
    }
}

/// The unit to grade: the one given, else the one that the path names.
pub open spec fn resolved_target(
    reg: PatternMatcher,
    given: Option<Seq<char>>,
    path: Seq<Seq<char>>,
) -> Option<Seq<char>> {
    match given {
        Some(target) => Some(target),
        None => inferred_target(reg, path),
    }
}

/// The entries after grading `target`: the first entry that belongs to it
/// carries `grade`, every other entry is as it was. `None` where no entry
/// belongs to it.
pub open spec fn graded(
    map: Seq<GradeView>,
    reg: PatternMatcher,
    target: Seq<char>,
    grade: Seq<char>,
) -> Option<Seq<GradeView>> {
    match first_where(map, classifies_to(reg, target)) {
        Some(i) => Some(map.update(i, map[i].with_grade(grade))),
        None => None,
    }
}

/// What `grade` gives: the ledger after grading the resolved target, or the
/// first of the failures that applies.
pub open spec fn grade_outcome(
    master: MasterCfgView,
    grade: Seq<char>,
    given: Option<Seq<char>>,
    grades: GradesView,
    path: Seq<Seq<char>>,
) -> Result<GradesView, KasmError> {
    match PatternMatcher::compiled(master.groups_regex) {
        None => Err(KasmError::BadPattern),
        Some(reg) => match resolved_target(reg, given, path) {
            None => Err(KasmError::TargetNotInferred),
            Some(target) => match graded(grades.map, reg, target, grade) {
                None => Err(KasmError::NoMatchingGroup),
                Some(map) => Ok(grades.with_map(map)),
            },
        },
    }
}

/// Reads the unit to grade off a path, from its last segment outward.
pub fn infer_target(reg: &PatternMatcher, path: &Vec<String>) -> (r: Option<String>)
    ensures
        r.deep_view() == inferred_target(*reg, path.deep_view()),
{
    let ghost inward = path.deep_view().reverse();
    let mut left: usize = path.len();
    while left > 0
        invariant
            left <= path.len(),
            inward == path.deep_view().reverse(),
            forall|j: int| 0 <= j < path.len() - left ==> !names_unit(*reg)(#[trigger] inward[j]),
        decreases left,
    {
        left -= 1;
        let found = reg.classify(path[left].as_str());
        proof {
            assert(inward[path.len() - 1 - left] == path.deep_view()[left as int]);
        }
        if found.is_some() {
            proof {
                assert(is_first_where(inward, names_unit(*reg), path.len() - 1 - left));
                lemma_first_where_found(inward, names_unit(*reg), path.len() - 1 - left);
            }
            return found;
        }
    }
    proof {
        lemma_first_where_absent(inward, names_unit(*reg));
    }
    None
}

/// Settles which unit to grade: the one given, else the one that the path
/// names.
pub fn resolve_target(reg: &PatternMatcher, given: &Option<String>, path: &Vec<String>) -> (r:
    Result<String, KasmError>)
    ensures
        match r {
            Ok(target) => resolved_target(*reg, given.deep_view(), path.deep_view()) == Some(
                target@,
            ),
            Err(e) => e == KasmError::TargetNotInferred && resolved_target(
                *reg,
                given.deep_view(),
                path.deep_view(),
            ) is None,
        },
{
    match given {
        Some(target) => Ok(target.clone()),
        None => match infer_target(reg, path) {
            Some(target) => Ok(target),
            None => Err(KasmError::TargetNotInferred),
        },
    }
}

/// Gives `target` the grade `grade`: the first entry that belongs to it is
/// overwritten.
pub fn apply_grade(grades: &Grades, reg: &PatternMatcher, target: &str, grade: &str) -> (r: Result<
    Grades,
    KasmError,
>)
    ensures
        match r {
            Ok(ledger) => graded(grades@.map, *reg, target@, grade@) == Some(ledger@.map)
                && ledger@ == grades@.with_map(ledger@.map),
            Err(e) => e == KasmError::NoMatchingGroup && graded(grades@.map, *reg, target@, grade@)
                is None,
        },
{
    let ghost map = grades@.map;
    let ghost wanted = classifies_to(*reg, target@);
    let mut i: usize = 0;
    while i < grades.map.len()
        invariant
            i <= grades.map.len(),
            map == grades@.map,
            wanted == classifies_to(*reg, target@),
            forall|j: int| 0 <= j < i ==> !wanted(#[trigger] map[j]),
        decreases grades.map.len() - i,
    {
        let class = reg.classify(grades.map[i].target.as_str());
        if belongs_to(&class, Some(target)) {
            proof {
                assert(is_first_where(map, wanted, i as int));
                lemma_first_where_found(map, wanted, i as int);
            }
            return match grades.with_grade_at(i, grade) {
                Some(ledger) => Ok(ledger),
                None => Err(KasmError::NoMatchingGroup),
            };
        }
        i += 1;
    }
    proof {
        lemma_first_where_absent(map, wanted);
    }
    Err(KasmError::NoMatchingGroup)
}

/// Grades one unit of a sheet. `path` holds the segments of the current
/// directory, outermost first; the unit is read off it where the command
/// names none. Gives the ledger to write back.
pub fn grade(master: &MasterCfg, cfg: &GradeCmd, grades: &Grades, path: &Vec<String>) -> (r: Result<
    Grades,
    KasmError,
>)
    ensures
        outcome(r) == grade_outcome(
            master@,
            cfg.grade@,
            cfg.target.deep_view(),
            grades@,
            path.deep_view(),
        ),
{
    let reg = match PatternMatcher::new(master.groups_regex.as_str()) {
        Ok(reg) => reg,
        Err(e) => { return Err(e); },
    };
    let target = match resolve_target(&reg, &cfg.target, path) {
        Ok(target) => target,
        Err(e) => { return Err(e); },
    };
    apply_grade(grades, &reg, target.as_str(), cfg.grade.as_str())
}

/// The entries that belong to `target` and carry `grade`.
pub open spec fn carries(reg: PatternMatcher, target: Seq<char>, grade: Seq<char>) -> spec_fn(
    GradeView,
) -> bool {
    |g: GradeView| classifies_to(reg, target)(g) && g.grade == grade
}

/// Grading and reading back: after `target` was given `grade`, the ledger
/// has as many entries as before, the first entry that belongs to `target`
/// is the one it was and carries `grade`, a lookup by that entry's own
/// target gives `grade`, and every other entry is unchanged.
pub proof fn lemma_grade_round_trip(
    map: Seq<GradeView>,
    reg: PatternMatcher,
    target: Seq<char>,
    grade: Seq<char>,
)
    requires
        graded(map, reg, target, grade) is Some,
    ensures
        ({
            let after = graded(map, reg, target, grade)->0;
            let at = first_where(map, classifies_to(reg, target))->0;
            &&& 0 <= at < map.len()
            &&& after.len() == map.len()
            &&& first_where(after, classifies_to(reg, target)) == Some(at)
            &&& after[at] == map[at].with_grade(grade)
            &&& grade_for(after, map[at].target) == Some(grade)
            &&& forall|j: int| 0 <= j < map.len() && j != at ==> after[j] == map[j]
        }),
{
    let wanted = classifies_to(reg, target);
    let after = graded(map, reg, target, grade)->0;
    let at = first_where(map, wanted)->0;
    lemma_first_where(map, wanted);
    assert(is_first_where(after, wanted, at)) by {
        assert forall|j: int| 0 <= j < at implies !wanted(#[trigger] after[j]) by {
            assert(after[j] == map[j]);
        }
    }
    lemma_first_where_found(after, wanted, at);
    let own = has_target(map[at].target);
    assert(is_first_where(after, own, at)) by {
        assert forall|j: int| 0 <= j < at implies !own(#[trigger] after[j]) by {
            assert(after[j] == map[j]);
            assert(!wanted(map[j]));
        }
    }
    lemma_first_where_found(after, own, at);
}

/// No history is kept: grading a target twice leaves what grading it once
/// with the later grade leaves, and it is the same entry that is reached
/// every time.
pub proof fn lemma_grade_overwrites(
    map: Seq<GradeView>,
    reg: PatternMatcher,
    target: Seq<char>,
    earlier: Seq<char>,
    later: Seq<char>,
)
    requires
        graded(map, reg, target, earlier) is Some,
    ensures
        graded(graded(map, reg, target, earlier)->0, reg, target, later) == graded(
            map,
            reg,
            target,
            later,
        ),
{
    lemma_grade_round_trip(map, reg, target, earlier);
    let at = first_where(map, classifies_to(reg, target))->0;
    let once = graded(map, reg, target, earlier)->0;
    assert(once.update(at, once[at].with_grade(later)) =~= map.update(
        at,
        map[at].with_grade(later),
    ));
}

/// After `target` was given `grade`, exactly one entry belongs to `target`
/// and carries `grade`, provided that no entry but the first that belongs
/// to `target` did so before.
pub proof fn lemma_graded_entry_unique(
    map: Seq<GradeView>,
    reg: PatternMatcher,
    target: Seq<char>,
    grade: Seq<char>,
)
    requires
        graded(map, reg, target, grade) is Some,
        forall|j: int|
            0 <= j < map.len() && j != first_where(map, classifies_to(reg, target))->0 ==> !carries(
                reg,
                target,
                grade,
            )(#[trigger] map[j]),
    ensures
        is_only_where(
            graded(map, reg, target, grade)->0,
            carries(reg, target, grade),
            first_where(map, classifies_to(reg, target))->0,
        ),
{
    let after = graded(map, reg, target, grade)->0;
    let at = first_where(map, classifies_to(reg, target))->0;
    lemma_first_where(map, classifies_to(reg, target));
    assert forall|m: int| 0 <= m < after.len() && carries(reg, target, grade)(
        #[trigger] after[m],
    ) implies m == at by {
        if m != at {
            assert(after[m] == map[m]);
        }
    }
}

/// Grading fails exactly where no entry belongs to the target, and then
/// hands back no ledger to write.
pub proof fn lemma_unknown_target_refused(
    map: Seq<GradeView>,
    reg: PatternMatcher,
    target: Seq<char>,
    grade: Seq<char>,
)
    ensures
        graded(map, reg, target, grade) is None <==> forall|j: int|
            0 <= j < map.len() ==> !classifies_to(reg, target)(#[trigger] map[j]),
{
    lemma_first_where(map, classifies_to(reg, target));
    if forall|j: int| 0 <= j < map.len() ==> !classifies_to(reg, target)(#[trigger] map[j]) {
        lemma_first_where_absent(map, classifies_to(reg, target));
    }
}

} // verus!
