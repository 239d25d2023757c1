//! The setup wizard: asks for the group name, the user's name, the team
//! size and the other members' names, one field at a time.

use vstd::prelude::*;

use crate::clipboard::ClipboardAction;
use crate::config::{lists_name, texts, Config, General, Members, MAX_STUDENTS};
use crate::text::{
    control, decimal, decimal_text, eq_ignore_ascii_case, eq_ignoring_ascii_case, is_control, lemma_trimmed_ends,
    lemma_trimmed_idempotent, parse_usize, parsed_usize, pop_char, push_char, trim, trimmed,
};

verus! {

/// The field the wizard is asking for.
#[derive(PartialEq, Eq, Structural, Clone, Copy, Debug)]
pub enum Step {
    GroupName,
    MyName,
    MemberCount,
    /// The member at this index (the user is member 0).
    MemberName(usize),
    Confirm,
}

/// The wizard's state.
pub struct SetupState {
    step: Step,
    group_name: String,
    my_name: String,
    member_count: usize,
    members: Vec<String>,
    /// What has been typed into the current field.
    input: String,
    /// The whole input is selected: the next character replaces it.
    selected_all: bool,
    /// Why the last Enter was refused.
    error: Option<String>,
}

/// What the wizard's state holds.
pub struct SetupView {
    pub step: Step,
    pub group_name: Seq<char>,
    pub my_name: Seq<char>,
    pub member_count: nat,
    pub members: Seq<Seq<char>>,
    pub input: Seq<char>,
    pub selected_all: bool,
    pub error: Option<Seq<char>>,
}

impl View for SetupState {
    type V = SetupView;

    closed spec fn view(&self) -> SetupView {
        SetupView {
            step: self.step,
            group_name: self.group_name@,
            my_name: self.my_name@,
            member_count: self.member_count as nat,
            members: texts(self.members@),
            input: self.input@,
            selected_all: self.selected_all,
            error: match self.error {
                Some(e) => Some(e@),
                None => None,
            },
        }
    }
}

/// The members gathered so far are a usable roster for user `me`: the user
/// first, every name non-empty and trimmed, and no two names equal when
/// ASCII letters are compared without case.
pub open spec fn roster_ok(members: Seq<Seq<char>>, me: Seq<char>) -> bool {
    &&& members.len() >= 1
    &&& members[0] == me
    &&& forall|i: int| 0 <= i < members.len() ==> (#[trigger] members[i]).len() > 0 && trimmed(members[i]) == members[i]
    &&& forall|i: int, j: int| 0 <= i < j < members.len() ==> !eq_ignoring_ascii_case(#[trigger] members[i], #[trigger] members[j])
}

impl SetupView {
    /// What the wizard keeps true from step to step: once past the group
    /// name, the group name is non-empty and trimmed; once the user's name is
    /// taken the roster starts with it; and while members are asked for, or
    /// at the confirmation, the roster is usable and holds as many names as
    /// have been asked for so far, never more than [`MAX_STUDENTS`].
    pub open spec fn consistent(self) -> bool {
        &&& (self.step != Step::GroupName ==> self.group_name.len() > 0 && trimmed(self.group_name) == self.group_name)
        &&& match self.step {
            Step::GroupName | Step::MyName => true,
            Step::MemberCount => {
                &&& self.members == seq![self.my_name]
                &&& roster_ok(self.members, self.my_name)
            },
            Step::MemberName(k) => {
                &&& 1 <= k == self.members.len() < self.member_count <= MAX_STUDENTS
                &&& roster_ok(self.members, self.my_name)
            },
            Step::Confirm => {
                &&& 1 <= self.members.len() == self.member_count <= MAX_STUDENTS
                &&& roster_ok(self.members, self.my_name)
            },
        }
    }

    /// A fresh wizard: nothing filled in, asking for the group name.
    pub open spec fn fresh() -> SetupView {
        SetupView {
            step: Step::GroupName,
            group_name: Seq::empty(),
            my_name: Seq::empty(),
            member_count: 0,
            members: Seq::empty(),
            input: Seq::empty(),
            selected_all: false,
            error: None,
        }
    }

    /// A wizard prefilled from `c`, asking for the group name with the
    /// current one already typed in.
    pub open spec fn prefilled(c: &Config) -> SetupView {
        SetupView {
            step: Step::GroupName,
            group_name: c.general.group_name@,
            my_name: c.general.my_name@,
            member_count: c.members.students@.len(),
            members: texts(c.members.students@),
            input: c.general.group_name@,
            selected_all: false,
            error: None,
        }
    }

    /// The state after Enter; see [`SetupState::advance`].
    pub open spec fn advanced(self) -> SetupView {
        let v = SetupView { error: None, selected_all: false, ..self };
        let val = trimmed(self.input);
        match self.step {
            Step::GroupName => if val.len() == 0 {
                SetupView { error: Some("Group name cannot be empty."@), ..v }
            } else {
                SetupView { group_name: val, input: self.my_name, step: Step::MyName, ..v }
            },
            Step::MyName => if val.len() == 0 {
                SetupView { error: Some("Your name cannot be empty."@), ..v }
            } else {
                SetupView {
                    my_name: val,
                    members: seq![val],
                    input: Seq::empty(),
                    step: Step::MemberCount,
                    ..v
                }
            },
            Step::MemberCount => match parsed_usize(val) {
                Some(n) => if 1 <= n <= MAX_STUDENTS {
                    SetupView {
                        member_count: n as nat,
                        input: Seq::empty(),
                        step: if n == 1 { Step::Confirm } else { Step::MemberName(1) },
                        ..v
                    }
                } else {
                    SetupView { error: Some("Enter a number between 1 and 7."@), ..v }
                },
                None => SetupView { error: Some("Please enter a number."@), ..v },
            },
            Step::MemberName(idx) => if val.len() == 0 {
                SetupView { error: Some("Name cannot be empty."@), ..v }
            } else if exists|i: int| 0 <= i < self.members.len() && eq_ignoring_ascii_case(trimmed(#[trigger] self.members[i]), val) {
                SetupView {
                    error: Some(if eq_ignoring_ascii_case(val, self.my_name) {
                        "Your name has already been added."@
                    } else {
                        "\""@ + val + "\" has already been added."@
                    }),
                    ..v
                }
            } else {
                SetupView {
                    members: self.members.push(val),
                    input: Seq::empty(),
                    step: if idx + 1 < self.member_count { Step::MemberName((idx + 1) as usize) } else { Step::Confirm },
                    ..v
                }
            },
            Step::Confirm => v,
        }
    }
}

/// One key or clipboard event while a field is being filled in.
pub enum SetupEvent {
    /// A typed character.
    Char(char),
    /// The outcome of a clipboard shortcut on the input.
    Clipboard(ClipboardAction),
    Backspace,
    Enter,
}

impl SetupView {
    /// The state after `e`. At the confirmation step these events do nothing.
    /// A control character is ignored; another one replaces the whole input
    /// when it is selected, else is appended. Backspace empties a selected
    /// input, else takes off its last character. Enter is [`SetupView::advanced`].
    pub open spec fn handled(self, e: SetupEvent) -> SetupView {
        if self.step == Step::Confirm {
            self
        } else {
            match e {
                SetupEvent::Char(c) => if is_control(c) {
                    self
                } else if self.selected_all {
                    SetupView { input: seq![c], selected_all: false, ..self }
                } else {
                    SetupView { input: self.input.push(c), ..self }
                },
                SetupEvent::Clipboard(ClipboardAction::Replace(t)) => SetupView { input: t@, selected_all: false, ..self },
                SetupEvent::Clipboard(ClipboardAction::SelectAll) => SetupView { selected_all: true, ..self },
                SetupEvent::Clipboard(ClipboardAction::Noop) => self,
                SetupEvent::Backspace => if self.selected_all {
                    SetupView { input: Seq::empty(), selected_all: false, ..self }
                } else if self.input.len() > 0 {
                    SetupView { input: self.input.drop_last(), ..self }
                } else {
                    self
                },
                SetupEvent::Enter => self.advanced(),
            }
        }
    }
}

/// The title and the hint shown while `step` is being filled in.
pub fn step_labels(step: Step) -> (r: (&'static str, &'static str))
    ensures
        match step {
            Step::GroupName => r.0@ == "Setup — Group name"@ && r.1@ == "Enter your group's name"@,
            Step::MyName => r.0@ == "Setup — Your name"@ && r.1@ == "Enter your full name as registered at LNU"@,
            Step::MemberCount => r.0@ == "Setup — Team size"@ && r.1@ == "How many members in total? (1-7)"@,
            Step::MemberName(_) => r.0@ == "Setup — Member name"@ && r.1@ == "Enter this member's full name"@,
            Step::Confirm => r.0@ == ""@ && r.1@ == ""@,
        },
{
    match step {
        Step::GroupName => ("Setup — Group name", "Enter your group's name"),
        Step::MyName => ("Setup — Your name", "Enter your full name as registered at LNU"),
        Step::MemberCount => ("Setup — Team size", "How many members in total? (1-7)"),
        Step::MemberName(_) => ("Setup — Member name", "Enter this member's full name"),
        Step::Confirm => ("", ""),
    }
}

/// Font size and padding of the confirmation screen.
pub const CONFIRM_FONT_SIZE: i32 = 20;
pub const CONFIRM_PAD: i32 = 24;

/// A `String` holding `s`.
fn owned(s: &str) -> (r: String)
    ensures
        r@ == s@,
{
    s.to_owned()
}

/// A `String` holding the one character `c`.
fn single(c: char) -> (r: String)
    ensures
        r@ == seq![c],
{
    let mut r = String::new();
    push_char(&mut r, c);
    assert(r@ == seq![c]);
    r
}

impl SetupState {
    /// A fresh wizard: nothing filled in, asking for the group name.
    pub fn new() -> (s: SetupState)
        ensures
            s@ == SetupView::fresh(),
            s@.consistent(),
    {
        let s = SetupState {
            step: Step::GroupName,
            group_name: String::new(),
            my_name: String::new(),
            member_count: 0,
            members: Vec::new(),
            input: String::new(),
            selected_all: false,
            error: None,
        };
        assert(texts(s.members@) =~= Seq::<Seq<char>>::empty());
        s
    }

    /// A wizard prefilled from an existing configuration, asking for the
    /// group name with the current one already typed in.
    pub fn from_config(c: &Config) -> (s: SetupState)
        ensures
            s@ == SetupView::prefilled(c),
            s@.consistent(),
    {
        SetupState {
            step: Step::GroupName,
            group_name: c.general.group_name.clone(),
            my_name: c.general.my_name.clone(),
            member_count: c.members.students.len(),
            members: c.members.students.clone(),
            input: c.general.group_name.clone(),
            selected_all: false,
            error: None,
        }
    }

    /// The configuration the wizard has gathered.
    pub fn to_config(&self) -> (c: Config)
        ensures
            c.general.group_name@ == self@.group_name,
            c.general.my_name@ == self@.my_name,
            texts(c.members.students@) == self@.members,
    {
        Config {
            general: General { group_name: self.group_name.clone(), my_name: self.my_name.clone() },
            members: Members { students: self.members.clone() },
        }
    }

    /// The step being filled in.
    pub fn step(&self) -> (r: Step)
        ensures
            r == self@.step,
    {
        self.step
    }

    /// The group name taken so far.
    pub fn group_name(&self) -> (r: &String)
        ensures
            r@ == self@.group_name,
    {
        &self.group_name
    }

    /// The user's name taken so far.
    pub fn my_name(&self) -> (r: &String)
        ensures
            r@ == self@.my_name,
    {
        &self.my_name
    }

    /// The team size taken so far.
    pub fn member_count(&self) -> (r: usize)
        ensures
            r == self@.member_count,
    {
        self.member_count
    }

    /// The members taken so far, the user first.
    pub fn members(&self) -> (r: &Vec<String>)
        ensures
            texts(r@) == self@.members,
    {
        &self.members
    }

    /// What has been typed into the current field.
    pub fn input(&self) -> (r: &String)
        ensures
            r@ == self@.input,
    {
        &self.input
    }

    /// Whether the whole input is selected.
    pub fn selected_all(&self) -> (r: bool)
        ensures
            r == self@.selected_all,
    {
        self.selected_all
    }

    /// Why the last Enter was refused, if it was.
    pub fn error(&self) -> (r: &Option<String>)
        ensures
            match r {
                Some(e) => self@.error == Some(e@),
                None => self@.error is None,
            },
    {
        &self.error
    }

    /// The wizard's first state: prefilled from `prefill` when there is a
    /// configuration to edit, else fresh.
    pub fn start(prefill: Option<&Config>) -> (s: SetupState)
        ensures
            match prefill {
                Some(c) => s@ == SetupView::prefilled(c),
                None => s@ == SetupView::fresh(),
            },
            s@.consistent(),
    {
        match prefill {
            Some(c) => SetupState::from_config(c),
            None => SetupState::new(),
        }
    }

    /// The Y and N keys at the confirmation step (Y is looked at first). Y
    /// hands back the configuration gathered, leaving the wizard as it is;
    /// N starts over from `prefill`. Elsewhere, and with neither key, nothing
    /// happens.
    pub fn confirm_keys(&mut self, yes: bool, no: bool, prefill: Option<&Config>) -> (r: Option<Config>)
        requires
            old(self)@.consistent(),
        ensures
            final(self)@.consistent(),
            old(self)@.step != Step::Confirm ==> r is None && final(self)@ == old(self)@,
            old(self)@.step == Step::Confirm && yes ==> final(self)@ == old(self)@,
            old(self)@.step == Step::Confirm && yes ==> (r matches Some(c) && {
                &&& c.general.group_name@ == old(self)@.group_name
                &&& c.general.my_name@ == old(self)@.my_name
                &&& texts(c.members.students@) == old(self)@.members
                &&& c.general.group_name@.len() > 0
                &&& trimmed(c.general.group_name@) == c.general.group_name@
                &&& 1 <= c.members.students@.len() <= MAX_STUDENTS
                &&& roster_ok(texts(c.members.students@), c.general.my_name@)
            }),
            old(self)@.step == Step::Confirm && !yes && no ==> r is None && (match prefill {
                Some(c) => final(self)@ == SetupView::prefilled(c),
                None => final(self)@ == SetupView::fresh(),
            }),
            old(self)@.step == Step::Confirm && !yes && !no ==> r is None && final(self)@ == old(self)@,
    {
        if self.step != Step::Confirm {
            return None;
        }
        if yes {
            proof {
                law_confirmed_roster_is_listed(self@);
            }
            let c = self.to_config();
            assert(c.members.students@.len() == texts(c.members.students@).len());
            return Some(c);
        }
        if no {
            *self = SetupState::start(prefill);
        }
        None
    }

    /// Enter: takes the current field's input if it is acceptable and moves
    /// to the next step, or records why it is not; see [`SetupView::advanced`].
    pub fn advance(&mut self)
        requires
            old(self)@.consistent(),
        ensures
            final(self)@ == old(self)@.advanced(),
            final(self)@.consistent(),
    {
        self.error = None;
        self.selected_all = false;
        match self.step {
            Step::GroupName => {
                let val = trim(self.input.as_str()).to_owned();
                if val.as_str().unicode_len() == 0 {
                    self.error = Some(owned("Group name cannot be empty."));
                    return;
                }
                proof {
                    lemma_trimmed_idempotent(self.input@);
                }
                self.group_name = val;
                self.input = self.my_name.clone();
                self.step = Step::MyName;
            },
            Step::MyName => {
                let val = trim(self.input.as_str()).to_owned();
                if val.as_str().unicode_len() == 0 {
                    self.error = Some(owned("Your name cannot be empty."));
                    return;
                }
                proof {
                    lemma_trimmed_idempotent(self.input@);
                }
                self.my_name = val.clone();
                let mut members: Vec<String> = Vec::new();
                members.push(val);
                self.members = members;
                self.input = String::new();
                self.step = Step::MemberCount;
                assert(texts(self.members@) == seq![self.my_name@]);
            },
            Step::MemberCount => {
                match parse_usize(trim(self.input.as_str())) {
                    Some(n) => {
                        if 1 <= n && n <= MAX_STUDENTS {
                            self.member_count = n;
                            self.input = String::new();
                            self.step = if n == 1 { Step::Confirm } else { Step::MemberName(1) };
                        } else {
                            self.error = Some(owned("Enter a number between 1 and 7."));
                        }
                    },
                    None => {
                        self.error = Some(owned("Please enter a number."));
                    },
                }
            },
            Step::MemberName(idx) => {
                let val = trim(self.input.as_str()).to_owned();
                if val.as_str().unicode_len() == 0 {
                    self.error = Some(owned("Name cannot be empty."));
                    return;
                }
                let ghost ms = texts(self.members@);
                let mut duplicate = false;
                for i in 0..self.members.len()
                    invariant
                        ms == texts(self.members@),
                        duplicate == exists|k: int| 0 <= k < i && eq_ignoring_ascii_case(trimmed(#[trigger] ms[k]), val@),
                {
                    assert(ms[i as int] == self.members@[i as int]@);
                    if eq_ignore_ascii_case(trim(self.members[i].as_str()), val.as_str()) {
                        duplicate = true;
                    }
                }
                if duplicate {
                    if eq_ignore_ascii_case(val.as_str(), self.my_name.as_str()) {
                        self.error = Some(owned("Your name has already been added."));
                    } else {
                        let mut m = owned("\"");
                        m.append(val.as_str());
                        m.append("\" has already been added.");
                        self.error = Some(m);
                    }
                    return;
                }
                proof {
                    lemma_trimmed_idempotent(self.input@);
                    lemma_trimmed_ends(self.input@);
                    assert forall|i: int| 0 <= i < ms.len() implies !eq_ignoring_ascii_case(#[trigger] ms[i], val@) by {
                        assert(trimmed(ms[i]) == ms[i]);
                    }
                }
                let ghost prev = self.members@;
                self.members.push(val);
                self.input = String::new();
                self.step = if idx + 1 < self.member_count { Step::MemberName(idx + 1) } else { Step::Confirm };
                proof {
                    assert(texts(self.members@) == texts(prev).push(val@));
                    let m = texts(self.members@);
                    assert forall|i: int, j: int| 0 <= i < j < m.len() implies !eq_ignoring_ascii_case(#[trigger] m[i], #[trigger] m[j]) by {
                        if j == m.len() - 1 {
                            assert(m[i] == ms[i]);
                        } else {
                            assert(m[i] == ms[i] && m[j] == ms[j]);
                        }
                    }
                }
            },
            Step::Confirm => {},
        }
    }

    /// Handles one event; see [`SetupView::handled`].
    pub fn handle(&mut self, e: SetupEvent)
        requires
            old(self)@.consistent(),
        ensures
            final(self)@ == old(self)@.handled(e),
            final(self)@.consistent(),
    {
        if self.step == Step::Confirm {
            return;
        }
        match e {
            SetupEvent::Char(c) => {
                if !control(c) {
                    if self.selected_all {
                        self.input = single(c);
                        self.selected_all = false;
                    } else {
                        push_char(&mut self.input, c);
                    }
                }
            },
            SetupEvent::Clipboard(action) => match action {
                ClipboardAction::Replace(t) => {
                    self.input = t;
                    self.selected_all = false;
                },
                ClipboardAction::SelectAll => {
                    self.selected_all = true;
                },
                ClipboardAction::Noop => {},
            },
            SetupEvent::Backspace => {
                if self.selected_all {
                    self.input = String::new();
                    self.selected_all = false;
                } else {
                    pop_char(&mut self.input);
                }
            },
            SetupEvent::Enter => self.advance(),
        }
    }

    /// The height of the confirmation window: a line for the title, the
    /// group, the user, the members heading and each member, with padding.
    pub fn confirm_win_h(&self) -> (h: i32)
        requires
            26 * (4 + self@.members.len()) + 72 <= i32::MAX,
        ensures
            h == 24 + 26 * (4 + self@.members.len()) + 48,
    {
        let line_h: i32 = CONFIRM_FONT_SIZE + 6;
        assert(self.members@.len() == self@.members.len());
        let n_lines: i32 = 4 + self.members.len() as i32;
        CONFIRM_PAD + line_h * n_lines + CONFIRM_PAD * 2
    }
}

/// The line of the confirmation screen for member `i` (counted from 0):
/// `  <i+1>. <name>`, with ` (you)` after the user's name (trimmed name
/// equal to `my_name`, ASCII letters without case).
pub open spec fn member_line(i: nat, name: Seq<char>, my_name: Seq<char>) -> Seq<char> {
    let base = "  "@ + decimal(i + 1) + ". "@ + name;
    if eq_ignoring_ascii_case(trimmed(name), my_name) {
        base + " (you)"@
    } else {
        base
    }
}

/// Executable form of [`member_line`].
pub fn member_label(i: usize, name: &str, my_name: &str) -> (r: String)
    requires
        i < usize::MAX,
    ensures
        r@ == member_line(i as nat, name@, my_name@),
{
    let mut r = owned("  ");
    r.append(decimal_text((i + 1) as u64).as_str());
    r.append(". ");
    r.append(name);
    if eq_ignore_ascii_case(trim(name), my_name) {
        r.append(" (you)");
    }
    r
}

/// A roster the wizard has brought to its confirmation meets the count and
/// membership rules of the configuration: one to [`MAX_STUDENTS`] members,
/// the user's (trimmed) name among them, and the rest of the roster rules
/// of [`roster_ok`]; the group name and the user's name are non-empty and
/// trimmed.
pub proof fn law_confirmed_roster_is_listed(v: SetupView)
    requires
        v.consistent(),
        v.step == Step::Confirm,
    ensures
        v.group_name.len() > 0,
        trimmed(v.group_name) == v.group_name,
        v.my_name.len() > 0,
        trimmed(v.my_name) == v.my_name,
        1 <= v.members.len() <= MAX_STUDENTS,
        v.members.len() == v.member_count,
        lists_name(v.members, trimmed(v.my_name)),
        roster_ok(v.members, v.my_name),
{
    assert(trimmed(v.members[0]) == v.members[0]);
    assert(eq_ignoring_ascii_case(trimmed(v.members[0]), trimmed(v.my_name)));
}

/// At the team-size step, Enter accepts every trimmed input that reads as a
/// number from 1 to 7: the team size becomes that number, no error is shown,
/// and the wizard moves on, to the confirmation for a team of one and to the
/// second member otherwise. The names taken so far stay as they are.
pub proof fn law_team_size_accepted(v: SetupView, n: usize)
    requires
        v.step == Step::MemberCount,
        parsed_usize(trimmed(v.input)) == Some(n),
        1 <= n <= 7,
    ensures
        v.advanced().member_count == n,
        v.advanced().error is None,
        v.advanced().step == (if n == 1 { Step::Confirm } else { Step::MemberName(1) }),
        v.advanced().members == v.members,
        v.advanced().group_name == v.group_name,
        v.advanced().my_name == v.my_name,
{
}

/// At the team-size step, Enter refuses every input that does not read as a
/// number from 1 to 7: the wizard stays at that step with an error shown and
/// the team size unchanged.
pub proof fn law_team_size_refused(v: SetupView)
    requires
        v.step == Step::MemberCount,
        match parsed_usize(trimmed(v.input)) {
            Some(n) => n < 1 || n > 7,
            None => true,
        },
    ensures
        v.advanced().step == Step::MemberCount,
        v.advanced().error is Some,
        v.advanced().member_count == v.member_count,
        v.advanced().members == v.members,
{
}

/// Enter on the group-name and user-name steps: a blank input (nothing but
/// whitespace) is refused with an error and the step stays; otherwise the
/// trimmed input is taken. The group name moves on to the user's name, with
/// the current user name typed in; the user's name starts the roster with
/// that name alone and moves on to the team size with an empty input.
pub proof fn law_names_taken_or_refused(v: SetupView)
    requires
        v.step == Step::GroupName || v.step == Step::MyName,
    ensures
        trimmed(v.input).len() == 0 ==> v.advanced().step == v.step && v.advanced().error is Some
            && v.advanced().group_name == v.group_name && v.advanced().my_name == v.my_name,
        trimmed(v.input).len() > 0 && v.step == Step::GroupName ==> {
            &&& v.advanced().group_name == trimmed(v.input)
            &&& v.advanced().step == Step::MyName
            &&& v.advanced().input == v.my_name
            &&& v.advanced().error is None
        },
        trimmed(v.input).len() > 0 && v.step == Step::MyName ==> {
            &&& v.advanced().my_name == trimmed(v.input)
            &&& v.advanced().members.len() == 1
            &&& v.advanced().members[0] == trimmed(v.input)
            &&& v.advanced().step == Step::MemberCount
            &&& v.advanced().input.len() == 0
            &&& v.advanced().error is None
            &&& v.advanced().group_name == v.group_name
        },
{
}

/// Enter on a member's step: a blank input, or one equal (trimmed, ASCII
/// letters without case) to a member already taken, is refused with an
/// error and nothing else changes; any other input is added, trimmed, at
/// the end of the roster, and the wizard asks for the next member, or
/// confirms once the team is full.
pub proof fn law_member_taken_or_refused(v: SetupView, k: usize)
    requires
        v.step == Step::MemberName(k),
        v.consistent(),
    ensures
        ({
            let val = trimmed(v.input);
            let w = v.advanced();
            let taken = exists|i: int| 0 <= i < v.members.len() && eq_ignoring_ascii_case(#[trigger] v.members[i], val);
            &&& (val.len() == 0 || taken) ==> w.error is Some && w.members == v.members && w.step == v.step
            &&& (val.len() > 0 && !taken) ==> {
                &&& w.members.len() == v.members.len() + 1
                &&& w.members.subrange(0, v.members.len() as int) == v.members
                &&& w.members.last() == val
                &&& w.error is None
                &&& w.input.len() == 0
                &&& (k + 1 < v.member_count ==> w.step == Step::MemberName((k + 1) as usize))
                &&& (k + 1 >= v.member_count ==> w.step == Step::Confirm)
            }
        }),
{
    let val = trimmed(v.input);
    let w = v.advanced();
    assert forall|i: int| 0 <= i < v.members.len() implies trimmed(#[trigger] v.members[i]) == v.members[i] by {}
    if val.len() > 0 && !(exists|i: int| 0 <= i < v.members.len() && eq_ignoring_ascii_case(#[trigger] v.members[i], val)) {
        assert(w.members == v.members.push(val));
        assert(w.members.subrange(0, v.members.len() as int) =~= v.members);
    } else if val.len() > 0 {
        let i = choose|i: int| 0 <= i < v.members.len() && eq_ignoring_ascii_case(#[trigger] v.members[i], val);
        assert(trimmed(v.members[i]) == v.members[i]);
    }
}

/// Typing while a field is filled in: a control character changes nothing;
/// any other character replaces a selected input, or else goes at its end.
/// Backspace empties a selected input, or else takes off its last character.
/// At the confirmation none of this changes anything.
pub proof fn law_typing_edits_the_input(v: SetupView, c: char)
    ensures
        v.step != Step::Confirm && !is_control(c) && !v.selected_all ==> {
            &&& v.handled(SetupEvent::Char(c)).input.len() == v.input.len() + 1
            &&& v.handled(SetupEvent::Char(c)).input.subrange(0, v.input.len() as int) == v.input
            &&& v.handled(SetupEvent::Char(c)).input.last() == c
        },
        v.step != Step::Confirm && !is_control(c) && v.selected_all ==> {
            &&& v.handled(SetupEvent::Char(c)).input.len() == 1
            &&& v.handled(SetupEvent::Char(c)).input[0] == c
            &&& !v.handled(SetupEvent::Char(c)).selected_all
        },
        is_control(c) ==> v.handled(SetupEvent::Char(c)) == v,
        v.step != Step::Confirm && !v.selected_all && v.input.len() > 0 ==> v.handled(SetupEvent::Backspace).input == v.input.subrange(0, v.input.len() - 1),
        v.step != Step::Confirm && v.selected_all ==> v.handled(SetupEvent::Backspace).input.len() == 0,
        v.step != Step::Confirm && !is_control(c) && !v.selected_all ==> v.handled(SetupEvent::Char(c)).handled(SetupEvent::Backspace) == v,
        v.step == Step::Confirm ==> v.handled(SetupEvent::Char(c)) == v && v.handled(SetupEvent::Backspace) == v && v.handled(SetupEvent::Enter) == v,
{
    if v.step != Step::Confirm && !is_control(c) && !v.selected_all {
        assert(v.input.push(c).subrange(0, v.input.len() as int) =~= v.input);
        assert(v.input.push(c).drop_last() =~= v.input);
    }
}

} // verus!
