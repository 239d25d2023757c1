//! The group's configuration: who is in the group, who the user is, and the
//! rules a configuration must meet before vEuros can be distributed.

use vstd::prelude::*;

use crate::text::{
    decimal, decimal_text, eq_ignore_ascii_case, eq_ignoring_ascii_case, to_lowercase, trim,
    trimmed, unicode_lowercase,
};

verus! {

#[verifier::external_type_specification]
#[verifier::external_body]
pub struct ExIoError(std::io::Error);

#[verifier::external_type_specification]
#[verifier::external_body]
pub struct ExTomlError(toml::de::Error);

/// The `[general]` table.
pub struct General {
    pub group_name: String,
    pub my_name: String,
}

/// The `[members]` table.
pub struct Members {
    pub students: Vec<String>,
}

/// A whole configuration file.
pub struct Config {
    pub general: General,
    pub members: Members,
}

/// Why no usable configuration could be had.
#[derive(Debug)]
pub enum ConfigError {
    /// There was no file; a template has been written in its place.
    Missing,
    /// The file could not be read.
    Io(std::io::Error),
    /// The file is not well-formed TOML of the expected shape.
    Parse(toml::de::Error),
    /// The file is well-formed but breaks one of the rules of [`validate`].
    Semantic(String),
}

/// Most students a group may list.
pub const MAX_STUDENTS: usize = 7;

/// Each string of `v` as its characters.
pub open spec fn texts(v: Seq<String>) -> Seq<Seq<char>> {
    v.map_values(|s: String| s@)
}

/// The students of `c`, each as its characters.
pub open spec fn student_names(c: &Config) -> Seq<Seq<char>> {
    texts(c.members.students@)
}

/// The key by which two student names count as the same: trimmed, then
/// lower-cased by Unicode's rules.
pub open spec fn student_key(s: Seq<char>) -> Seq<char> {
    unicode_lowercase(trimmed(s))
}

/// The keys of the students, in order.
pub open spec fn student_keys(st: Seq<Seq<char>>) -> Seq<Seq<char>> {
    st.map_values(|s: Seq<char>| student_key(s))
}

/// Some key before index `j` equals the one at `j`.
pub open spec fn repeats_before(keys: Seq<Seq<char>>, j: int) -> bool {
    exists|i: int| 0 <= i < j && #[trigger] keys[i] == keys[j]
}

/// `j` is the first index whose key repeats an earlier one.
pub open spec fn first_repeat_at(keys: Seq<Seq<char>>, j: int) -> bool {
    &&& 0 <= j < keys.len()
    &&& repeats_before(keys, j)
    &&& forall|k: int| 0 <= k < j ==> !repeats_before(keys, k)
}

/// Some earlier student has the same key as the one at `j`.
pub open spec fn repeats_earlier(st: Seq<Seq<char>>, j: int) -> bool {
    repeats_before(student_keys(st), j)
}

/// `j` is the first index whose name repeats an earlier one.
pub open spec fn is_first_repeat(st: Seq<Seq<char>>, j: int) -> bool {
    first_repeat_at(student_keys(st), j)
}

/// The first index whose key equals an earlier key, if there is one: the
/// duplicate that a set of the keys, filled in order, would refuse first.
pub fn first_repeat(keys: &Vec<String>) -> (r: Option<usize>)
    ensures
        match r {
            Some(j) => first_repeat_at(texts(keys@), j as int),
            None => forall|j: int| 0 <= j < keys@.len() ==> !repeats_before(texts(keys@), j),
        },
{
    let ghost ks = texts(keys@);
    let n = keys.len();
    for j in 0..n
        invariant
            n == keys@.len(),
            ks == texts(keys@),
            forall|k: int| 0 <= k < j ==> !repeats_before(ks, k),
    {
        for i in 0..j
            invariant
                j < n,
                n == keys@.len(),
                ks == texts(keys@),
                forall|i2: int| 0 <= i2 < i ==> ks[i2] != ks[j as int],
                forall|k: int| 0 <= k < j ==> !repeats_before(ks, k),
        {
            assert(ks[i as int] == keys@[i as int]@ && ks[j as int] == keys@[j as int]@);
            if keys[i] == keys[j] {
                assert(repeats_before(ks, j as int));
                return Some(j);
            }
        }
    }
    None
}

/// `name` matches some student once that student's name is trimmed.
pub open spec fn lists_name(st: Seq<Seq<char>>, name: Seq<char>) -> bool {
    exists|i: int| 0 <= i < st.len() && eq_ignoring_ascii_case(trimmed(#[trigger] st[i]), name)
}

/// The message for a student count outside one to seven.
pub open spec fn count_message(n: nat) -> Seq<char> {
    "[members] students must have 1-7 entries (found "@ + decimal(n) + ")."@
}

/// The message for a student listed twice.
pub open spec fn duplicate_message(name: Seq<char>) -> Seq<char> {
    "duplicate student name: \""@ + name + "\""@
}

/// The message for a user not among the students.
pub open spec fn unlisted_message(me: Seq<char>) -> Seq<char> {
    "my_name \""@ + me + "\" is not listed under [members] students"@
}

/// The message for a configuration still holding the template's placeholders.
pub open spec fn placeholder_message() -> Seq<char> {
    "config still contains placeholder values — update group_name and my_name"@
}

/// The placeholder group name of the template configuration.
pub open spec fn placeholder_group() -> Seq<char> {
    "group name"@
}

/// The placeholder user name of the template configuration.
pub open spec fn placeholder_name() -> Seq<char> {
    "name surname 1"@
}

/// The first rule that `c` breaks, as the message that reports it, or `None`
/// when `c` is usable. The rules, in the order they are checked: one to seven
/// students; no two students with the same name (trimmed, Unicode lower case);
/// the user (trimmed) among the students (trimmed, ASCII letters without case);
/// neither the group name nor the user's name (trimmed) left as the template's
/// placeholder.
pub open spec fn validation_problem(c: &Config) -> Option<Seq<char>> {
    let st = student_names(c);
    let me = trimmed(c.general.my_name@);
    let group = trimmed(c.general.group_name@);
    if st.len() == 0 || st.len() > MAX_STUDENTS {
        Some(count_message(st.len()))
    } else if exists|j: int| is_first_repeat(st, j) {
        Some(duplicate_message(st[choose|j: int| is_first_repeat(st, j)]))
    } else if !lists_name(st, me) {
        Some(unlisted_message(me))
    } else if group == placeholder_group() || me == placeholder_name() {
        Some(placeholder_message())
    } else {
        None
    }
}

/// `a == b` on string slices.
pub fn same_text(a: &str, b: &str) -> (r: bool)
    ensures
        r == (a@ == b@),
{
    a.to_owned() == b.to_owned()
}

/// Checks the rules of [`validation_problem`], in its order, and reports the
/// first one broken as [`ConfigError::Semantic`] with its message.
pub fn validate(config: &Config) -> (r: Result<(), ConfigError>)
    ensures
        match validation_problem(config) {
            None => r is Ok,
            Some(m) => r matches Err(ConfigError::Semantic(s)) && s@ == m,
        },
{
    let students = &config.members.students;
    let my_name = trim(config.general.my_name.as_str());
    let group_name = trim(config.general.group_name.as_str());
    let ghost st = student_names(config);
    let n = students.len();

    if n == 0 || n > MAX_STUDENTS {
        let mut m = String::new();
        m.append("[members] students must have 1-7 entries (found ");
        m.append(decimal_text(n as u64).as_str());
        m.append(").");
        return Err(ConfigError::Semantic(m));
    }

    let mut keys: Vec<String> = Vec::new();
    for j in 0..n
        invariant
            n == students@.len(),
            st == student_names(config),
            students == &config.members.students,
            texts(keys@) == student_keys(st).take(j as int),
    {
        assert(st[j as int] == students@[j as int]@);
        let ghost prev = keys@;
        keys.push(to_lowercase(trim(students[j].as_str())));
        assert(texts(keys@) == texts(prev).push(student_key(st[j as int])));
        assert(student_keys(st).take(j + 1) == student_keys(st).take(j as int).push(student_key(st[j as int])));
    }
    assert(student_keys(st).take(n as int) == student_keys(st));
    match first_repeat(&keys) {
        Some(j) => {
            proof {
                assert(texts(keys@) == student_keys(st));
                assert(is_first_repeat(st, j as int));
                let c = choose|c: int| is_first_repeat(st, c);
                assert(c == j) by {
                    if c < j {
                        assert(!repeats_earlier(st, c));
                    } else if c > j {
                        assert(!repeats_earlier(st, j as int));
                    }
                }
            }
            let mut m = String::new();
            m.append("duplicate student name: \"");
            m.append(students[j].as_str());
            m.append("\"");
            assert(st[j as int] == students@[j as int]@);
            assert(m@ == duplicate_message(st[j as int]));
            return Err(ConfigError::Semantic(m));
        },
        None => {
            assert(texts(keys@) == student_keys(st));
        },
    }
    assert(!exists|j: int| is_first_repeat(st, j));

    let mut listed = false;
    for i in 0..n
        invariant
            n == students@.len(),
            0 < n <= MAX_STUDENTS,
            st == student_names(config),
            students == &config.members.students,
            my_name@ == trimmed(config.general.my_name@),
            listed == exists|k: int|
                0 <= k < i && eq_ignoring_ascii_case(trimmed(#[trigger] st[k]), my_name@),
    {
        assert(st[i as int] == students@[i as int]@);
        if eq_ignore_ascii_case(trim(students[i].as_str()), my_name) {
            listed = true;
        }
    }
    if !listed {
        let mut m = String::new();
        m.append("my_name \"");
        m.append(my_name);
        m.append("\" is not listed under [members] students");
        return Err(ConfigError::Semantic(m));
    }

    if same_text(group_name, "group name") || same_text(my_name, "name surname 1") {
        let mut m = String::new();
        m.append("config still contains placeholder values — update group_name and my_name");
        return Err(ConfigError::Semantic(m));
    }
    Ok(())
}


/// The text shown for a missing configuration.
pub open spec fn missing_message() -> Seq<char> {
    "config not found — a default has been written, fill it in and run again"@
}

impl ConfigError {
    /// The text that reports this error to the user. For `Io` and `Parse` it
    /// is a fixed prefix followed by the outside error's own `Display` text.
    pub fn message(&self) -> (r: String)
        ensures
            match self {
                ConfigError::Missing => r@ == missing_message(),
                ConfigError::Io(e) => exists|t: String|
                    vstd::string::to_string_from_display_ensures::<std::io::Error>(e, t)
                        && r@ == "could not read config: "@ + t@,
                ConfigError::Parse(e) => exists|t: String|
                    vstd::string::to_string_from_display_ensures::<toml::de::Error>(e, t)
                        && r@ == "malformed config: "@ + t@,
                ConfigError::Semantic(s) => r@ == s@,
            },
    {
        match self {
            ConfigError::Missing => {
                let mut m = String::new();
                m.append("config not found — a default has been written, fill it in and run again");
                m
            },
            ConfigError::Io(e) => {
                let t = e.to_string();
                let mut m = String::new();
                m.append("could not read config: ");
                m.append(t.as_str());
                m
            },
            ConfigError::Parse(e) => {
                let t = e.to_string();
                let mut m = String::new();
                m.append("malformed config: ");
                m.append(t.as_str());
                m
            },
            ConfigError::Semantic(s) => s.clone(),
        }
    }
}

/// One line of the `students` array: the name quoted, indented, with a comma.
pub open spec fn student_line(name: Seq<char>) -> Seq<char> {
    "    \""@ + name + "\","@
}

/// The lines of the `students` array, joined by newlines.
pub open spec fn student_lines(st: Seq<Seq<char>>) -> Seq<char>
    decreases st.len(),
{
    if st.len() == 0 {
        Seq::empty()
    } else if st.len() == 1 {
        student_line(st[0])
    } else {
        student_lines(st.drop_last()) + "\n"@ + student_line(st.last())
    }
}

/// The configuration file text for `c`.
pub open spec fn rendered(c: &Config) -> Seq<char> {
    "[general]\ngroup_name = \""@ + c.general.group_name@ + "\"\nmy_name    = \""@
        + c.general.my_name@ + "\"\n\n[members]\nstudents = [\n"@ + student_lines(student_names(c))
        + "\n]\n"@
}

/// Renders `c` as the text of a configuration file. Names are written
/// between double quotes as they are, without escaping.
pub fn render_config(c: &Config) -> (r: String)
    ensures
        r@ == rendered(c),
{
    let students = &c.members.students;
    let ghost st = student_names(c);
    let mut lines = String::new();
    for i in 0..students.len()
        invariant
            students == &c.members.students,
            st == student_names(c),
            lines@ == student_lines(st.take(i as int)),
    {
        assert(st[i as int] == students@[i as int]@);
        assert(st.take(i + 1).drop_last() == st.take(i as int));
        assert(st.take(i + 1).last() == st[i as int]);
        if i > 0 {
            lines.append("\n");
        } else {
            assert(st.take(1) == seq![st[0]]);
        }
        lines.append("    \"");
        lines.append(students[i].as_str());
        lines.append("\",");
    }
    assert(st.take(students.len() as int) == st);
    let mut r = String::new();
    r.append("[general]\ngroup_name = \"");
    r.append(c.general.group_name.as_str());
    r.append("\"\nmy_name    = \"");
    r.append(c.general.my_name.as_str());
    r.append("\"\n\n[members]\nstudents = [\n");
    r.append(lines.as_str());
    r.append("\n]\n");
    r
}

proof fn lemma_some_first_repeat(keys: Seq<Seq<char>>, j: int)
    requires
        0 <= j < keys.len(),
        repeats_before(keys, j),
    ensures
        exists|k: int| first_repeat_at(keys, k),
    decreases j,
{
    if forall|k: int| 0 <= k < j ==> !repeats_before(keys, k) {
        assert(first_repeat_at(keys, j));
    } else {
        let k = choose|k: int| 0 <= k < j && repeats_before(keys, k);
        lemma_some_first_repeat(keys, k);
    }
}

/// A configuration is accepted exactly when it is usable: one to seven
/// students, no two of them with the same key (trimmed, Unicode lower case),
/// the user's trimmed name equal to some trimmed student's name with ASCII
/// letters compared without case, and neither the trimmed group name
/// `group name` nor the trimmed user name `name surname 1`.
pub proof fn law_validation_accepts_exactly_usable(c: &Config)
    ensures
        validation_problem(c) is None <==> {
            let st = student_names(c);
            let me = trimmed(c.general.my_name@);
            &&& 1 <= st.len() <= 7
            &&& forall|i: int, j: int| 0 <= i < j < st.len() ==> student_key(#[trigger] st[i]) != student_key(#[trigger] st[j])
            &&& exists|i: int| 0 <= i < st.len() && eq_ignoring_ascii_case(trimmed(#[trigger] st[i]), me)
            &&& trimmed(c.general.group_name@) != "group name"@
            &&& me != "name surname 1"@
        },
{
    let st = student_names(c);
    let keys = student_keys(st);
    if exists|i: int, j: int| 0 <= i < j < st.len() && student_key(#[trigger] st[i]) == student_key(#[trigger] st[j]) {
        let (i, j) = choose|i: int, j: int| 0 <= i < j < st.len() && student_key(#[trigger] st[i]) == student_key(#[trigger] st[j]);
        assert(keys[i] == student_key(st[i]) && keys[j] == student_key(st[j]));
        assert(repeats_before(keys, j));
        lemma_some_first_repeat(keys, j);
        let k = choose|k: int| first_repeat_at(keys, k);
        assert(is_first_repeat(st, k));
    } else {
        assert forall|j: int| !is_first_repeat(st, j) by {
            if is_first_repeat(st, j) {
                let i = choose|i: int| 0 <= i < j && #[trigger] keys[i] == keys[j];
                assert(keys[i] == student_key(st[i]) && keys[j] == student_key(st[j]));
            }
        }
    }
}

/// A configuration whose trimmed user name is the template's placeholder
/// `name surname 1` is never accepted, whatever its group name.
pub proof fn law_placeholder_name_is_refused(c: &Config)
    requires
        trimmed(c.general.my_name@) == "name surname 1"@,
    ensures
        validation_problem(c) is Some,
{
    law_validation_accepts_exactly_usable(c);
}

/// A configuration whose trimmed group name is the template's placeholder
/// `group name` is never accepted, whatever its students.
pub proof fn law_placeholder_group_is_refused(c: &Config)
    requires
        trimmed(c.general.group_name@) == "group name"@,
    ensures
        validation_problem(c) is Some,
{
    law_validation_accepts_exactly_usable(c);
}

/// Of the rules a configuration breaks, the first in the order count,
/// duplicates, listing, placeholders is the one reported. A wrong count is
/// reported with the number of students found; a duplicate with the name (as
/// written) of the first student whose key an earlier student already has; a
/// missing user with the user's trimmed name.
pub proof fn law_first_broken_rule_is_reported(c: &Config)
    ensures
        ({
            let st = student_names(c);
            let me = trimmed(c.general.my_name@);
            let count_ok = 1 <= st.len() <= 7;
            let has_pair = exists|i: int, j: int| 0 <= i < j < st.len() && student_key(#[trigger] st[i]) == student_key(#[trigger] st[j]);
            let listed = exists|i: int| 0 <= i < st.len() && eq_ignoring_ascii_case(trimmed(#[trigger] st[i]), me);
            &&& !count_ok ==> validation_problem(c) == Some(count_message(st.len()))
            &&& count_ok && has_pair ==> exists|j: int| {
                &&& 0 <= j < st.len()
                &&& (exists|i: int| 0 <= i < j && student_key(#[trigger] st[i]) == student_key(st[j]))
                &&& (forall|k: int, i: int| 0 <= i < k < j ==> student_key(#[trigger] st[i]) != student_key(#[trigger] st[k]))
                &&& validation_problem(c) == Some(duplicate_message(st[j]))
            }
            &&& count_ok && !has_pair && !listed ==> validation_problem(c) == Some(unlisted_message(me))
            &&& count_ok && !has_pair && listed ==> (validation_problem(c) is Some <==> validation_problem(c) == Some(placeholder_message()))
        }),
{
    let st = student_names(c);
    let keys = student_keys(st);
    law_validation_accepts_exactly_usable(c);
    if 1 <= st.len() <= 7 && exists|i: int, j: int| 0 <= i < j < st.len() && student_key(#[trigger] st[i]) == student_key(#[trigger] st[j]) {
        let (i0, j0) = choose|i: int, j: int| 0 <= i < j < st.len() && student_key(#[trigger] st[i]) == student_key(#[trigger] st[j]);
        assert(keys[i0] == student_key(st[i0]) && keys[j0] == student_key(st[j0]));
        lemma_some_first_repeat(keys, j0);
        let j = choose|j: int| first_repeat_at(keys, j);
        assert(is_first_repeat(st, j));
        let c0 = choose|c: int| is_first_repeat(st, c);
        assert(c0 == j) by {
            if c0 < j {
                assert(!repeats_before(keys, c0));
            } else if c0 > j {
                assert(!repeats_before(keys, j));
            }
        }
        let i1 = choose|i: int| 0 <= i < j && #[trigger] keys[i] == keys[j];
        assert(keys[i1] == student_key(st[i1]) && keys[j] == student_key(st[j]));
        assert forall|k: int, i: int| 0 <= i < k < j implies student_key(#[trigger] st[i]) != student_key(#[trigger] st[k]) by {
            assert(!repeats_before(keys, k));
            assert(keys[i] == student_key(st[i]) && keys[k] == student_key(st[k]));
        }
    }
    if 1 <= st.len() <= 7 && !(exists|i: int, j: int| 0 <= i < j < st.len() && student_key(#[trigger] st[i]) == student_key(#[trigger] st[j])) {
        assert forall|j: int| !is_first_repeat(st, j) by {
            if is_first_repeat(st, j) {
                let i = choose|i: int| 0 <= i < j && #[trigger] keys[i] == keys[j];
                assert(keys[i] == student_key(st[i]) && keys[j] == student_key(st[j]));
            }
        }
    }
}

} // verus!
