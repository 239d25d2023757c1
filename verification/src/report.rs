//! The report file: its name and its lines.

use vstd::prelude::*;

use chrono::Datelike;

use crate::config::texts;
use crate::text::{
    decimal, decimal_text, eq_ignore_ascii_case, eq_ignoring_ascii_case, replace_char,
    replaced, trim, trimmed,
};
use crate::veuros::Assignment;

verus! {

/// The amount given to the first assignment whose name equals `name`
/// (ASCII letters compared without case), if there is one.
pub open spec fn amount_for(a: Seq<Assignment>, name: Seq<char>) -> Option<u32>
    decreases a.len(),
{
    if a.len() == 0 {
        None
    } else if eq_ignoring_ascii_case(a[0].name@, name) {
        Some(a[0].amount)
    } else {
        amount_for(a.drop_first(), name)
    }
}

/// The report line of one student: `ME, -` for the user, otherwise the
/// trimmed name, a comma, and the amount given to that name (nothing when
/// no assignment names the student).
pub open spec fn report_line(student: Seq<char>, me: Seq<char>, a: Seq<Assignment>) -> Seq<char> {
    let s = trimmed(student);
    if eq_ignoring_ascii_case(s, me) {
        "ME, -"@
    } else {
        s + ", "@ + match amount_for(a, s) {
            Some(n) => decimal(n as nat),
            None => Seq::empty(),
        }
    }
}

/// The lines of the students, joined by newlines.
pub open spec fn report_lines(students: Seq<Seq<char>>, me: Seq<char>, a: Seq<Assignment>) -> Seq<char>
    decreases students.len(),
{
    if students.len() == 0 {
        Seq::empty()
    } else if students.len() == 1 {
        report_line(students[0], me, a)
    } else {
        report_lines(students.drop_last(), me, a) + "\n"@ + report_line(students.last(), me, a)
    }
}

/// The whole report: one line per student, in order, and a final newline.
pub open spec fn report_text(students: Seq<Seq<char>>, me: Seq<char>, a: Seq<Assignment>) -> Seq<char> {
    report_lines(students, me, a) + "\n"@
}

fn find_amount(a: &Vec<Assignment>, name: &str) -> (r: Option<u32>)
    ensures
        r == amount_for(a@, name@),
{
    let mut i: usize = 0;
    assert(a@.skip(0) == a@);
    while i < a.len()
        invariant
            i <= a@.len(),
            amount_for(a@, name@) == amount_for(a@.skip(i as int), name@),
        decreases a.len() - i,
    {
        assert(a@.skip(i as int).drop_first() == a@.skip(i + 1));
        assert(a@.skip(i as int)[0] == a@[i as int]);
        if eq_ignore_ascii_case(a[i].name.as_str(), name) {
            return Some(a[i].amount);
        }
        i = i + 1;
    }
    None
}

/// The report's content for `students`, the user `my_name` (compared as it
/// is given) and the amounts given.
pub fn build_content(my_name: &str, students: &Vec<String>, assignments: &Vec<Assignment>) -> (r: String)
    ensures
        r@ == report_text(texts(students@), my_name@, assignments@),
{
    let ghost st = texts(students@);
    let mut out = String::new();
    for i in 0..students.len()
        invariant
            st == texts(students@),
            out@ == report_lines(st.take(i as int), my_name@, assignments@),
    {
        assert(st[i as int] == students@[i as int]@);
        assert(st.take(i + 1).drop_last() == st.take(i as int));
        assert(st.take(i + 1).last() == st[i as int]);
        if i > 0 {
            out.append("\n");
        } else {
            assert(st.take(1) == seq![st[0]]);
        }
        let s = trim(students[i].as_str());
        if eq_ignore_ascii_case(s, my_name) {
            out.append("ME, -");
        } else {
            out.append(s);
            out.append(", ");
            match find_amount(assignments, s) {
                Some(n) => {
                    let t = decimal_text(n as u64);
                    out.append(t.as_str());
                },
                None => {},
            }
        }
    }
    assert(st.take(students.len() as int) == st);
    out.append("\n");
    out
}

/// No two assignments name the same peer (ASCII letters without case).
pub open spec fn names_distinct(a: Seq<Assignment>) -> bool {
    forall|i: int, j: int| 0 <= i < j < a.len() ==> !eq_ignoring_ascii_case(#[trigger] a[i].name@, #[trigger] a[j].name@)
}

/// `perm` shows `p` to be a reordering of `a`: `p[i]` is `a[perm[i]]`, and
/// `perm` is a one-to-one map onto the indices of `a`.
pub open spec fn reorders(perm: Seq<int>, p: Seq<Assignment>, a: Seq<Assignment>) -> bool {
    &&& perm.len() == p.len()
    &&& p.len() == a.len()
    &&& forall|i: int| 0 <= i < p.len() ==> 0 <= #[trigger] perm[i] < a.len() && p[i] == a[perm[i]]
    &&& forall|i: int, j: int| 0 <= i < j < p.len() ==> #[trigger] perm[i] != #[trigger] perm[j]
    &&& forall|k: int| 0 <= k < a.len() ==> #[trigger] takes(perm, k)
}

/// Some entry of `perm` is `k`.
pub open spec fn takes(perm: Seq<int>, k: int) -> bool {
    exists|i: int| 0 <= i < perm.len() && #[trigger] perm[i] == k
}

proof fn lemma_amount_for_found(a: Seq<Assignment>, n: Seq<char>)
    ensures
        amount_for(a, n) matches Some(x) ==> exists|i: int| 0 <= i < a.len() && eq_ignoring_ascii_case(#[trigger] a[i].name@, n) && a[i].amount == x,
        amount_for(a, n) is None ==> forall|i: int| 0 <= i < a.len() ==> !eq_ignoring_ascii_case(#[trigger] a[i].name@, n),
    decreases a.len(),
{
    if a.len() > 0 {
        let t = a.drop_first();
        lemma_amount_for_found(t, n);
        if !eq_ignoring_ascii_case(a[0].name@, n) {
            if let Some(x) = amount_for(a, n) {
                let i = choose|i: int| 0 <= i < t.len() && eq_ignoring_ascii_case(#[trigger] t[i].name@, n) && t[i].amount == x;
                assert(a[i + 1] == t[i]);
            } else {
                assert forall|i: int| 0 <= i < a.len() implies !eq_ignoring_ascii_case(#[trigger] a[i].name@, n) by {
                    if i > 0 {
                        assert(a[i] == t[i - 1]);
                    }
                }
            }
        }
    }
}

proof fn lemma_same_as(x: Seq<char>, y: Seq<char>, n: Seq<char>)
    requires
        eq_ignoring_ascii_case(x, n),
        eq_ignoring_ascii_case(y, n),
    ensures
        eq_ignoring_ascii_case(x, y),
{
    assert forall|i: int| 0 <= i < x.len() implies crate::text::ascii_folded(#[trigger] x[i]) == crate::text::ascii_folded(y[i]) by {
        assert(crate::text::ascii_folded(x[i]) == crate::text::ascii_folded(n[i]));
        assert(crate::text::ascii_folded(y[i]) == crate::text::ascii_folded(n[i]));
    }
}

proof fn lemma_amount_for_reordered(a: Seq<Assignment>, p: Seq<Assignment>, perm: Seq<int>, n: Seq<char>)
    requires
        names_distinct(a),
        reorders(perm, p, a),
    ensures
        amount_for(p, n) == amount_for(a, n),
{
    lemma_amount_for_found(a, n);
    lemma_amount_for_found(p, n);
    match amount_for(a, n) {
        Some(x) => {
            let i = choose|i: int| 0 <= i < a.len() && eq_ignoring_ascii_case(#[trigger] a[i].name@, n) && a[i].amount == x;
            assert(takes(perm, i));
            let j = choose|j: int| 0 <= j < perm.len() && #[trigger] perm[j] == i;
            assert(p[j] == a[i]);
            assert(eq_ignoring_ascii_case(p[j].name@, n));
            match amount_for(p, n) {
                Some(y) => {
                    let k = choose|k: int| 0 <= k < p.len() && eq_ignoring_ascii_case(#[trigger] p[k].name@, n) && p[k].amount == y;
                    let m = perm[k];
                    assert(p[k] == a[m]);
                    lemma_same_as(a[i].name@, a[m].name@, n);
                    lemma_same_as(a[m].name@, a[i].name@, n);
                    if i < m {
                        assert(!eq_ignoring_ascii_case(a[i].name@, a[m].name@));
                    } else if m < i {
                        assert(!eq_ignoring_ascii_case(a[m].name@, a[i].name@));
                    }
                },
                None => {},
            }
        },
        None => {
            if let Some(y) = amount_for(p, n) {
                let k = choose|k: int| 0 <= k < p.len() && eq_ignoring_ascii_case(#[trigger] p[k].name@, n) && p[k].amount == y;
                assert(p[k] == a[perm[k]]);
                assert(!eq_ignoring_ascii_case(a[perm[k]].name@, n));
            }
        },
    }
}

proof fn lemma_report_lines_reordered(st: Seq<Seq<char>>, me: Seq<char>, a: Seq<Assignment>, p: Seq<Assignment>, perm: Seq<int>)
    requires
        names_distinct(a),
        reorders(perm, p, a),
    ensures
        report_lines(st, me, p) == report_lines(st, me, a),
    decreases st.len(),
{
    if st.len() > 0 {
        lemma_report_lines_reordered(st.drop_last(), me, a, p, perm);
        lemma_amount_for_reordered(a, p, perm, trimmed(st.last()));
        lemma_amount_for_reordered(a, p, perm, trimmed(st[0]));
    }
}

/// The report does not depend on the order of the assignments, as long as
/// no two of them name the same peer: its lines follow the students.
pub proof fn law_report_ignores_assignment_order(students: Seq<Seq<char>>, me: Seq<char>, a: Seq<Assignment>, p: Seq<Assignment>)
    requires
        names_distinct(a),
        exists|perm: Seq<int>| reorders(perm, p, a),
    ensures
        report_text(students, me, p) == report_text(students, me, a),
{
    let perm = choose|perm: Seq<int>| reorders(perm, p, a);
    lemma_report_lines_reordered(students, me, a, p, perm);
}

/// The report's file name, `1DV508WEEK<week><GroupName>By<YourName>.txt`:
/// the group name trimmed, with each space made an underscore, and the
/// user's name with its spaces taken out.
pub open spec fn report_file_name(week: nat, group_name: Seq<char>, my_name: Seq<char>) -> Seq<char> {
    "1DV508WEEK"@ + decimal(week) + replaced(trimmed(group_name), ' ', "_"@) + "By"@
        + replaced(my_name, ' ', ""@) + ".txt"@
}

/// The report's file name for ISO week `week`; see [`report_file_name`].
pub fn file_name(week: u32, group_name: &str, my_name: &str) -> (r: String)
    ensures
        r@ == report_file_name(week as nat, group_name@, my_name@),
{
    let group = replace_char(trim(group_name), ' ', "_");
    let slug = replace_char(my_name, ' ', "");
    let mut r = String::new();
    r.append("1DV508WEEK");
    r.append(decimal_text(week as u64).as_str());
    r.append(group.as_str());
    r.append("By");
    r.append(slug.as_str());
    r.append(".txt");
    r
}

/// Calls `chrono::Local::now().iso_week().week()`: the ISO week of the
/// current local date. It depends on the clock and the time zone; chrono
/// documents that it lies between 1 and 53. `Utc::now`, beneath `Local::now`,
/// panics when the system clock reads a time before 1970; that is a state of
/// the machine, which no precondition on the (absent) arguments can rule out.
#[verifier::external_body]
fn current_iso_week() -> (w: u32)
    ensures
        1 <= w <= 53,
{
    chrono::Local::now().iso_week().week()
}

/// The report's file name for the current week.
pub fn file_name_now(group_name: &str, my_name: &str) -> (r: String)
    ensures
        exists|w: nat| 1 <= w <= 53 && r@ == report_file_name(w, group_name@, my_name@),
{
    let week = current_iso_week();
    file_name(week, group_name, my_name)
}

/// A student's amount is that of the first assignment naming them (ASCII
/// letters without case), and there is none exactly when no assignment
/// names them.
pub proof fn law_amount_is_the_first_match(a: Seq<Assignment>, n: Seq<char>)
    ensures
        amount_for(a, n) is None <==> forall|i: int| 0 <= i < a.len() ==> !eq_ignoring_ascii_case(#[trigger] a[i].name@, n),
        amount_for(a, n) is Some ==> exists|i: int| {
            &&& 0 <= i < a.len()
            &&& eq_ignoring_ascii_case(#[trigger] a[i].name@, n)
            &&& amount_for(a, n) == Some(a[i].amount)
            &&& forall|k: int| 0 <= k < i ==> !eq_ignoring_ascii_case(#[trigger] a[k].name@, n)
        },
    decreases a.len(),
{
    lemma_amount_for_found(a, n);
    if a.len() > 0 {
        let t = a.drop_first();
        law_amount_is_the_first_match(t, n);
        if eq_ignoring_ascii_case(a[0].name@, n) {
            assert(eq_ignoring_ascii_case(a[0].name@, n));
        } else {
            if amount_for(a, n) is Some {
                let i = choose|i: int| {
                    &&& 0 <= i < t.len()
                    &&& eq_ignoring_ascii_case(#[trigger] t[i].name@, n)
                    &&& amount_for(t, n) == Some(t[i].amount)
                    &&& forall|k: int| 0 <= k < i ==> !eq_ignoring_ascii_case(#[trigger] t[k].name@, n)
                };
                assert(a[i + 1] == t[i]);
                assert forall|k: int| 0 <= k < i + 1 implies !eq_ignoring_ascii_case(#[trigger] a[k].name@, n) by {
                    if k > 0 {
                        assert(a[k] == t[k - 1]);
                    }
                }
            } else {
                assert forall|i: int| 0 <= i < a.len() implies !eq_ignoring_ascii_case(#[trigger] a[i].name@, n) by {
                    if i > 0 {
                        assert(a[i] == t[i - 1]);
                    }
                }
            }
        }
    }
}

/// The user's line is `ME, -`; every other student's line starts with the
/// student's trimmed name and a comma and a space, followed by the decimal
/// amount of the first assignment naming them, or by nothing when none does.
pub proof fn law_report_line(student: Seq<char>, me: Seq<char>, a: Seq<Assignment>)
    ensures
        eq_ignoring_ascii_case(trimmed(student), me) ==> report_line(student, me, a) == "ME, -"@,
        !eq_ignoring_ascii_case(trimmed(student), me) ==> {
            let prefix = trimmed(student) + ", "@;
            let line = report_line(student, me, a);
            &&& line.subrange(0, prefix.len() as int) == prefix
            &&& amount_for(a, trimmed(student)) matches Some(x) ==> line.subrange(prefix.len() as int, line.len() as int) == decimal(x as nat)
            &&& amount_for(a, trimmed(student)) is None ==> line == prefix
        },
{
    if !eq_ignoring_ascii_case(trimmed(student), me) {
        let prefix = trimmed(student) + ", "@;
        let line = report_line(student, me, a);
        match amount_for(a, trimmed(student)) {
            Some(x) => {
                assert(line == prefix + decimal(x as nat));
                assert(line.subrange(0, prefix.len() as int) =~= prefix);
                assert(line.subrange(prefix.len() as int, line.len() as int) =~= decimal(x as nat));
            },
            None => {
                assert(line =~= prefix);
            },
        }
    }
}

} // verus!
