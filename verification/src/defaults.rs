//! The configuration a first run starts from, and the test for whether a
//! configuration file is there at all.

use vstd::prelude::*;

use crate::config::{
    placeholder_message, repeats_earlier, student_key, student_names, validation_problem, Config, General,
    Members,
};
use crate::text::{eq_ignoring_ascii_case, lemma_trimmed_unchanged, trimmed};

verus! {

#[verifier::external_type_specification]
#[verifier::external_body]
pub struct ExPathBuf(std::path::PathBuf);

/// Calls `Path::exists`. What it returns depends on the file system at the
/// moment of the call, so the contract states nothing of it.
#[verifier::external_body]
fn path_exists(path: &std::path::PathBuf) -> bool {
    path.exists()
}

/// Whether a configuration is missing, given whether something exists at
/// its path.
pub fn missing_from(exists: bool) -> (r: bool)
    ensures
        r == !exists,
{
    !exists
}

/// Whether there is no file (nor anything else) at `path`: the negation of
/// what `Path::exists` answers, through [`missing_from`]. That answer comes
/// from the file system at the moment of the call, so nothing about the
/// result can be promised here.
pub fn is_missing(path: &std::path::PathBuf) -> bool {
    missing_from(path_exists(path))
}

/// Builds a `String` from a literal.
fn owned(s: &str) -> (r: String)
    ensures
        r@ == s@,
{
    s.to_owned()
}

/// The template written on a first run: a placeholder group name and user
/// name, and four placeholder students of which the first is the user.
pub fn template_config() -> (c: Config)
    ensures
        c.general.group_name@ == "group name"@,
        c.general.my_name@ == "name surname 1"@,
        c.members.students@.len() == 4,
        c.members.students@[0]@ == "name surname 1"@,
        c.members.students@[1]@ == "name surname 2"@,
        c.members.students@[2]@ == "name surname 3"@,
        c.members.students@[3]@ == "name surname 4"@,
{
    let mut students: Vec<String> = Vec::new();
    students.push(owned("name surname 1"));
    students.push(owned("name surname 2"));
    students.push(owned("name surname 3"));
    students.push(owned("name surname 4"));
    Config {
        general: General { group_name: owned("group name"), my_name: owned("name surname 1") },
        members: Members { students },
    }
}

/// The template never validates: whatever the students' lower-case keys
/// are, a configuration holding the template's values breaks a rule; and
/// when those four keys differ, the rule it breaks is the placeholder rule.
pub proof fn law_template_is_refused(c: &Config)
    requires
        c.general.group_name@ == "group name"@,
        c.general.my_name@ == "name surname 1"@,
        c.members.students@.len() == 4,
        c.members.students@[0]@ == "name surname 1"@,
        c.members.students@[1]@ == "name surname 2"@,
        c.members.students@[2]@ == "name surname 3"@,
        c.members.students@[3]@ == "name surname 4"@,
    ensures
        validation_problem(c) is Some,
        (forall|i: int, j: int| 0 <= i < j < 4 ==> student_key(#[trigger] student_names(c)[i]) != student_key(#[trigger] student_names(c)[j]))
            ==> validation_problem(c) == Some(placeholder_message()),
{
    reveal_strlit("group name");
    reveal_strlit("name surname 1");
    let st = student_names(c);
    assert(st[0] == c.members.students@[0]@);
    lemma_trimmed_unchanged(c.general.group_name@);
    lemma_trimmed_unchanged(c.general.my_name@);
    let me = trimmed(c.general.my_name@);
    assert(eq_ignoring_ascii_case(trimmed(st[0]), me));
    if forall|i: int, j: int| 0 <= i < j < 4 ==> student_key(#[trigger] st[i]) != student_key(#[trigger] st[j]) {
        assert forall|j: int| 0 <= j < 4 implies !repeats_earlier(st, j) by {
            if repeats_earlier(st, j) {
                let keys = crate::config::student_keys(st);
                let i = choose|i: int| 0 <= i < j && #[trigger] keys[i] == keys[j];
                assert(keys[i] == student_key(st[i]) && keys[j] == student_key(st[j]));
            }
        }
    }
}

} // verus!
