//! The assignment screen: one digit field per peer, a running count of the
//! vEuros left, and a confirmation once exactly 50 have been given.

use vstd::prelude::*;

use crate::config::{texts, MAX_STUDENTS};
use crate::text::{is_ascii_digit, parse_u32, parsed_u32, pop_char, push_char};
use crate::veuros::{amounts_of, names_of, sum_of, Assignment, TOTAL};

verus! {

/// Which of the two screens is shown.
#[derive(PartialEq, Eq, Structural, Clone, Copy, Debug)]
pub enum Screen {
    Assign,
    Confirm,
}

/// How the assignment screen was left.
pub enum Outcome {
    /// The user confirmed these amounts.
    Done(Vec<Assignment>),
    /// The user asked to edit the configuration.
    EditConfig,
}

/// One input event of a frame, in the order the screen reads them.
#[derive(PartialEq, Eq, Structural, Clone, Copy, Debug)]
pub enum FormEvent {
    /// A click on the "Edit config" button.
    EditClicked,
    /// A click on the amount field of this peer (ignored when there is no
    /// such peer).
    FieldClicked(usize),
    Tab,
    /// A typed character.
    Char(char),
    Backspace,
    Enter,
    /// The Y key.
    Yes,
    /// The N key.
    No,
}

/// The state of the assignment screen.
pub struct AssignForm {
    peers: Vec<String>,
    buffers: Vec<String>,
    active: usize,
    screen: Screen,
}

/// What the assignment screen holds.
pub struct FormView {
    pub peers: Seq<Seq<char>>,
    pub buffers: Seq<Seq<char>>,
    pub active: nat,
    pub screen: Screen,
}

impl View for AssignForm {
    type V = FormView;

    closed spec fn view(&self) -> FormView {
        FormView {
            peers: texts(self.peers@),
            buffers: texts(self.buffers@),
            active: self.active as nat,
            screen: self.screen,
        }
    }
}

/// The amount a field stands for: its digits read as a `u32`, or 0 when
/// they are empty or too large.
pub open spec fn field_value(b: Seq<char>) -> nat {
    match parsed_u32(b) {
        Some(n) => n as nat,
        None => 0,
    }
}

/// The sum of the amounts that the fields stand for.
pub open spec fn fields_total(b: Seq<Seq<char>>) -> nat
    decreases b.len(),
{
    if b.len() == 0 {
        0
    } else {
        fields_total(b.drop_last()) + field_value(b.last())
    }
}

impl FormView {
    /// The vEuros not yet given; negative when the fields ask for too many.
    pub open spec fn remaining(self) -> int {
        TOTAL - fields_total(self.buffers)
    }

    /// One field per peer, at most [`MAX_STUDENTS`] of them, holding only
    /// digits; the active field exists (or is 0 when there are no peers);
    /// and the confirmation is shown only while exactly [`TOTAL`] is given.
    pub open spec fn well_formed(self) -> bool {
        &&& self.buffers.len() == self.peers.len()
        &&& self.peers.len() <= MAX_STUDENTS
        &&& (self.peers.len() == 0 ==> self.active == 0)
        &&& (self.peers.len() > 0 ==> self.active < self.peers.len())
        &&& forall|i: int, j: int| 0 <= i < self.buffers.len() && 0 <= j < self.buffers[i].len() ==> is_ascii_digit(#[trigger] self.buffers[i][j])
        &&& (self.screen == Screen::Confirm ==> self.remaining() == 0)
    }

    /// `e` can be taken: Tab, Backspace and digits work on the active field,
    /// so these need a peer.
    pub open spec fn admits(self, e: FormEvent) -> bool {
        self.screen == Screen::Assign ==> match e {
            FormEvent::Tab | FormEvent::Backspace => self.peers.len() > 0,
            FormEvent::Char(c) => is_ascii_digit(c) ==> self.peers.len() > 0,
            _ => true,
        }
    }

    /// The state after `e`.
    pub open spec fn after(self, e: FormEvent) -> FormView {
        match self.screen {
            Screen::Assign => match e {
                FormEvent::FieldClicked(i) => if i < self.peers.len() {
                    FormView { active: i as nat, ..self }
                } else {
                    self
                },
                FormEvent::Tab => FormView { active: (self.active + 1) % self.peers.len(), ..self },
                FormEvent::Char(c) => if is_ascii_digit(c) {
                    FormView { buffers: self.buffers.update(self.active as int, self.buffers[self.active as int].push(c)), ..self }
                } else {
                    self
                },
                FormEvent::Backspace => {
                    let b = self.buffers[self.active as int];
                    if b.len() > 0 {
                        FormView { buffers: self.buffers.update(self.active as int, b.drop_last()), ..self }
                    } else {
                        self
                    }
                },
                FormEvent::Enter => if self.remaining() == 0 {
                    FormView { screen: Screen::Confirm, ..self }
                } else {
                    self
                },
                _ => self,
            },
            Screen::Confirm => match e {
                FormEvent::No => FormView { screen: Screen::Assign, ..self },
                _ => self,
            },
        }
    }

    /// `e` ends the screen with "Edit config".
    pub open spec fn edits(self, e: FormEvent) -> bool {
        self.screen == Screen::Assign && e == FormEvent::EditClicked
    }

    /// `e` ends the screen with the confirmed amounts.
    pub open spec fn confirms(self, e: FormEvent) -> bool {
        self.screen == Screen::Confirm && e == FormEvent::Yes
    }

    /// The amount each field stands for, in order.
    pub open spec fn amounts(self) -> Seq<nat> {
        self.buffers.map_values(|b: Seq<char>| field_value(b))
    }
}

/// The amounts given by the fields, each at most `u32::MAX`, add up to their total.
proof fn lemma_fields_total_bound(b: Seq<Seq<char>>)
    ensures
        fields_total(b) <= b.len() * 0xFFFF_FFFF,
    decreases b.len(),
{
    if b.len() > 0 {
        lemma_fields_total_bound(b.drop_last());
    }
}

/// The assignments made from fields sum to the fields' total.
proof fn lemma_assignments_total(a: Seq<Assignment>, b: Seq<Seq<char>>)
    requires
        a.len() == b.len(),
        forall|i: int| 0 <= i < a.len() ==> (#[trigger] a[i]).amount == field_value(b[i]),
    ensures
        sum_of(amounts_of(a)) == fields_total(b),
    decreases a.len(),
{
    if a.len() > 0 {
        let a2 = a.drop_last();
        let b2 = b.drop_last();
        assert forall|i: int| 0 <= i < a2.len() implies (#[trigger] a2[i]).amount == field_value(b2[i]) by {
            assert(a2[i] == a[i] && b2[i] == b[i]);
        }
        lemma_assignments_total(a2, b2);
        assert(amounts_of(a).drop_last() == amounts_of(a2));
    }
}

/// A field's amount: its digits read as a `u32`, or 0.
fn field_amount(b: &String) -> (n: u32)
    ensures
        n == field_value(b@),
{
    match parse_u32(b.as_str()) {
        Some(n) => n,
        None => 0,
    }
}

/// The hint under the fields: how to confirm when exactly [`TOTAL`] is
/// given, a warning when more is asked for, else how to pick a field.
pub fn remaining_hint(remaining: i64) -> (r: &'static str)
    ensures
        remaining == 0 ==> r@ == "Press Enter to confirm"@,
        remaining < 0 ==> r@ == "Over budget — reduce some values"@,
        remaining > 0 ==> r@ == "Click or Tab to select a field"@,
{
    if remaining == 0 {
        "Press Enter to confirm"
    } else if remaining < 0 {
        "Over budget — reduce some values"
    } else {
        "Click or Tab to select a field"
    }
}

/// The height of the assignment window for `peers` peers: a header, one
/// row per peer, the hint row and the button row, with padding.
pub fn window_height(peers: usize) -> (h: i32)
    requires
        176 + 48 * peers <= i32::MAX,
    ensures
        h == 176 + 48 * peers,
{
    let pad: i32 = 24;
    let row_h: i32 = 48;
    let box_h: i32 = 32;
    pad * 3 + row_h * (peers as i32) + pad * 2 + box_h + pad
}

impl AssignForm {
    /// A screen for `peers`, every field empty, the first one active.
    pub fn new(peers: Vec<String>) -> (f: AssignForm)
        requires
            peers@.len() <= MAX_STUDENTS,
        ensures
            f@.peers == texts(peers@),
            f@.buffers.len() == peers@.len(),
            forall|i: int| 0 <= i < peers@.len() ==> (#[trigger] f@.buffers[i]).len() == 0,
            f@.active == 0,
            f@.screen == Screen::Assign,
            f@.well_formed(),
    {
        let n = peers.len();
        let mut buffers: Vec<String> = Vec::new();
        for i in 0..n
            invariant
                buffers@.len() == i,
                forall|k: int| 0 <= k < i ==> (#[trigger] buffers@[k])@.len() == 0,
        {
            buffers.push(String::new());
        }
        AssignForm { peers, buffers, active: 0, screen: Screen::Assign }
    }

    /// The number of peers.
    pub fn peer_count(&self) -> (n: usize)
        ensures
            n == self@.peers.len(),
    {
        self.peers.len()
    }

    /// The name of peer `i`.
    pub fn peer(&self, i: usize) -> (s: &String)
        requires
            i < self@.peers.len(),
        ensures
            s@ == self@.peers[i as int],
    {
        &self.peers[i]
    }

    /// What has been typed for peer `i`.
    pub fn field(&self, i: usize) -> (s: &String)
        requires
            self@.well_formed(),
            i < self@.peers.len(),
        ensures
            s@ == self@.buffers[i as int],
    {
        &self.buffers[i]
    }

    /// The index of the active field.
    pub fn active(&self) -> (i: usize)
        ensures
            i == self@.active,
    {
        self.active
    }

    /// The screen shown.
    pub fn screen(&self) -> (s: Screen)
        ensures
            s == self@.screen,
    {
        self.screen
    }

    /// The vEuros left: [`TOTAL`] minus what the fields ask for.
    pub fn remaining(&self) -> (r: i64)
        requires
            self@.well_formed(),
        ensures
            r == self@.remaining(),
    {
        let ghost b = self@.buffers;
        let mut total: u64 = 0;
        for i in 0..self.buffers.len()
            invariant
                b == texts(self.buffers@),
                b.len() <= MAX_STUDENTS,
                total == fields_total(b.take(i as int)),
        {
            proof {
                assert(b.take(i + 1).drop_last() == b.take(i as int));
                assert(b.take(i + 1).last() == self.buffers@[i as int]@);
                lemma_fields_total_bound(b.take(i as int));
            }
            total = total + field_amount(&self.buffers[i]) as u64;
        }
        assert(b.take(b.len() as int) == b);
        proof {
            lemma_fields_total_bound(b);
        }
        50i64 - total as i64
    }

    /// One assignment per peer, with the amount its field stands for.
    pub fn assignments(&self) -> (r: Vec<Assignment>)
        requires
            self@.well_formed(),
        ensures
            names_of(r@) == self@.peers,
            r@.len() == self@.buffers.len(),
            forall|i: int| 0 <= i < r@.len() ==> (#[trigger] r@[i]).amount == field_value(self@.buffers[i]),
            sum_of(amounts_of(r@)) == fields_total(self@.buffers),
    {
        let mut r: Vec<Assignment> = Vec::new();
        for i in 0..self.peers.len()
            invariant
                self@.well_formed(),
                r@.len() == i,
                names_of(r@) == self@.peers.take(i as int),
                forall|k: int| 0 <= k < i ==> (#[trigger] r@[k]).amount == field_value(self@.buffers[k]),
        {
            let ghost prev = r@;
            let amount = field_amount(&self.buffers[i]);
            r.push(Assignment { name: self.peers[i].clone(), amount });
            assert(names_of(r@) == names_of(prev).push(self@.peers[i as int]));
            assert(self@.peers.take(i + 1) == self@.peers.take(i as int).push(self@.peers[i as int]));
        }
        assert(self@.peers.take(self.peers.len() as int) == self@.peers);
        proof {
            lemma_assignments_total(r@, self@.buffers);
        }
        r
    }

    /// Takes one event; see [`FormView::after`]. The screen ends on the
    /// "Edit config" button, or on Y at the confirmation with one assignment
    /// per peer, whose amounts add up to exactly [`TOTAL`].
    pub fn handle(&mut self, e: FormEvent) -> (r: Option<Outcome>)
        requires
            old(self)@.well_formed(),
            old(self)@.admits(e),
        ensures
            final(self)@.well_formed(),
            if old(self)@.edits(e) {
                r matches Some(Outcome::EditConfig) && final(self)@ == old(self)@
            } else if old(self)@.confirms(e) {
                &&& final(self)@ == old(self)@
                &&& r matches Some(Outcome::Done(a)) && {
                    &&& names_of(a@) == old(self)@.peers
                    &&& a@.len() == old(self)@.buffers.len()
                    &&& forall|i: int| 0 <= i < a@.len() ==> (#[trigger] a@[i]).amount == field_value(old(self)@.buffers[i])
                    &&& sum_of(amounts_of(a@)) == TOTAL
                }
            } else {
                r is None && final(self)@ == old(self)@.after(e)
            },
    {
        let ghost v = self@;
        match self.screen {
            Screen::Assign => match e {
                FormEvent::EditClicked => {
                    return Some(Outcome::EditConfig);
                },
                FormEvent::FieldClicked(i) => {
                    if i < self.peers.len() {
                        self.active = i;
                    }
                },
                FormEvent::Tab => {
                    self.active = (self.active + 1) % self.peers.len();
                },
                FormEvent::Char(c) => {
                    if '0' <= c && c <= '9' {
                        let k = self.active;
                        let mut b = self.buffers[k].clone();
                        push_char(&mut b, c);
                        self.buffers.set(k, b);
                        proof {
                            assert(texts(self.buffers@) == v.buffers.update(k as int, v.buffers[k as int].push(c)));
                            let nb = self@.buffers;
                            assert forall|i: int, j: int| 0 <= i < nb.len() && 0 <= j < nb[i].len() implies is_ascii_digit(#[trigger] nb[i][j]) by {
                                if i != k {
                                    assert(nb[i] == v.buffers[i]);
                                } else if j < v.buffers[i].len() {
                                    assert(nb[i][j] == v.buffers[i][j]);
                                }
                            }
                        }
                    }
                },
                FormEvent::Backspace => {
                    let k = self.active;
                    let mut b = self.buffers[k].clone();
                    pop_char(&mut b);
                    self.buffers.set(k, b);
                    proof {
                        let nb = self@.buffers;
                        if v.buffers[k as int].len() > 0 {
                            assert(nb == v.buffers.update(k as int, v.buffers[k as int].drop_last()));
                        } else {
                            assert(nb == v.buffers);
                        }
                        assert forall|i: int, j: int| 0 <= i < nb.len() && 0 <= j < nb[i].len() implies is_ascii_digit(#[trigger] nb[i][j]) by {
                            if i != k {
                                assert(nb[i] == v.buffers[i]);
                            } else {
                                assert(nb[i][j] == v.buffers[i][j]);
                            }
                        }
                    }
                },
                FormEvent::Enter => {
                    if self.remaining() == 0 {
                        self.screen = Screen::Confirm;
                    }
                },
                _ => {},
            },
            Screen::Confirm => match e {
                FormEvent::Yes => {
                    let a = self.assignments();
                    return Some(Outcome::Done(a));
                },
                FormEvent::No => {
                    self.screen = Screen::Assign;
                },
                _ => {},
            },
        }
        None
    }
}

/// Every event the screen takes keeps it well-formed: one digit-only field
/// per peer, an existing active field, and the confirmation shown only while
/// exactly [`TOTAL`] is given.
pub proof fn law_event_keeps_form_well_formed(v: FormView, e: FormEvent)
    requires
        v.well_formed(),
        v.admits(e),
    ensures
        v.after(e).well_formed(),
{
    let w = v.after(e);
    if v.screen == Screen::Assign {
        match e {
            FormEvent::Char(c) => {
                if is_ascii_digit(c) {
                    let k = v.active as int;
                    assert forall|i: int, j: int| 0 <= i < w.buffers.len() && 0 <= j < w.buffers[i].len() implies is_ascii_digit(#[trigger] w.buffers[i][j]) by {
                        if i != k {
                            assert(w.buffers[i] == v.buffers[i]);
                        } else if j < v.buffers[i].len() {
                            assert(w.buffers[i][j] == v.buffers[i][j]);
                        }
                    }
                }
            },
            FormEvent::Backspace => {
                let k = v.active as int;
                assert forall|i: int, j: int| 0 <= i < w.buffers.len() && 0 <= j < w.buffers[i].len() implies is_ascii_digit(#[trigger] w.buffers[i][j]) by {
                    if i != k {
                        assert(w.buffers[i] == v.buffers[i]);
                    } else {
                        assert(w.buffers[i][j] == v.buffers[i][j]);
                    }
                }
            },
            _ => {},
        }
    }
}

/// At the confirmation the fields ask for exactly [`TOTAL`].
pub proof fn law_confirmation_gives_total(v: FormView)
    requires
        v.well_formed(),
        v.screen == Screen::Confirm,
    ensures
        fields_total(v.buffers) == TOTAL,
{
}

/// On the assignment screen, Backspace takes the last character off the
/// active field, if it has one, and leaves every other field, the active
/// field's index and the screen as they were.
pub proof fn law_backspace_drops_last_digit(v: FormView)
    requires
        v.well_formed(),
        v.screen == Screen::Assign,
        v.peers.len() > 0,
    ensures
        ({
            let w = v.after(FormEvent::Backspace);
            let b = v.buffers[v.active as int];
            &&& w.buffers.len() == v.buffers.len()
            &&& forall|i: int| 0 <= i < v.buffers.len() && i != v.active ==> #[trigger] w.buffers[i] == v.buffers[i]
            &&& b.len() > 0 ==> w.buffers[v.active as int] == b.subrange(0, b.len() - 1)
            &&& b.len() == 0 ==> w.buffers[v.active as int] == b
            &&& w.active == v.active
            &&& w.screen == v.screen
            &&& w.peers == v.peers
        }),
{
}

/// On the assignment screen, typing a digit and then Backspace gives the
/// screen back exactly as it was.
pub proof fn law_digit_then_backspace_restores(v: FormView, c: char)
    requires
        v.well_formed(),
        v.screen == Screen::Assign,
        v.peers.len() > 0,
        is_ascii_digit(c),
    ensures
        v.after(FormEvent::Char(c)).after(FormEvent::Backspace) == v,
{
    let k = v.active as int;
    let w = v.after(FormEvent::Char(c));
    assert(w.buffers[k] == v.buffers[k].push(c));
    assert(w.buffers[k].drop_last() =~= v.buffers[k]);
    assert(w.after(FormEvent::Backspace).buffers =~= v.buffers);
}

/// The other events of the assignment screen. Tab moves to the next field,
/// wrapping around after the last. A click on a field makes it active, and
/// a click beside every field changes nothing. A digit goes at the end of
/// the active field only; any other character changes nothing. Enter opens
/// the confirmation exactly when the fields ask for [`TOTAL`]. At the
/// confirmation N goes back, and nothing else but Y changes anything.
pub proof fn law_form_events(v: FormView, e: FormEvent, c: char, i: usize)
    requires
        v.well_formed(),
    ensures
        v.screen == Screen::Assign && v.peers.len() > 0 ==> v.after(FormEvent::Tab).active
            == (if v.active + 1 == v.peers.len() { 0 } else { v.active + 1 }),
        v.screen == Screen::Assign && i < v.peers.len() ==> v.after(FormEvent::FieldClicked(i)).active == i,
        v.screen == Screen::Assign && i >= v.peers.len() ==> v.after(FormEvent::FieldClicked(i)) == v,
        v.screen == Screen::Assign && is_ascii_digit(c) && v.peers.len() > 0 ==> {
            let w = v.after(FormEvent::Char(c));
            &&& w.buffers[v.active as int] == v.buffers[v.active as int].push(c)
            &&& forall|j: int| 0 <= j < v.buffers.len() && j != v.active ==> #[trigger] w.buffers[j] == v.buffers[j]
            &&& w.buffers.len() == v.buffers.len()
        },
        v.screen == Screen::Assign && !is_ascii_digit(c) ==> v.after(FormEvent::Char(c)) == v,
        v.screen == Screen::Assign ==> (v.after(FormEvent::Enter).screen == Screen::Confirm <==> fields_total(v.buffers) == TOTAL),
        v.screen == Screen::Assign ==> v.after(FormEvent::Enter).buffers == v.buffers,
        v.screen == Screen::Confirm ==> v.after(FormEvent::No).screen == Screen::Assign && v.after(FormEvent::No).buffers == v.buffers,
        v.screen == Screen::Confirm && e != FormEvent::No ==> v.after(e) == v,
        v.screen == Screen::Assign && e == FormEvent::Yes ==> v.after(e) == v,
{
    if v.screen == Screen::Assign && v.peers.len() > 0 {
        let n = v.peers.len() as int;
        let a = v.active as int;
        if a + 1 == n {
            assert((a + 1) % n == 0) by (nonlinear_arith)
                requires
                    a + 1 == n,
                    n > 0,
            ;
        } else {
            assert((a + 1) % n == a + 1) by (nonlinear_arith)
                requires
                    0 <= a,
                    a + 1 < n,
            ;
        }
    }
}

/// At the confirmation, the amounts the fields stand for add up to exactly
/// [`TOTAL`]: each field's amount is its digits read as a whole number (0
/// when it is empty or too large for a `u32`).
pub proof fn law_field_amounts(b: Seq<char>)
    ensures
        parsed_u32(b) matches Some(n) ==> field_value(b) == n,
        parsed_u32(b) is None ==> field_value(b) == 0,
        b.len() == 0 ==> field_value(b) == 0,
{
}

} // verus!
