//! Distributing the 50 vEuros among the user's peers, one amount at a time.

use vstd::prelude::*;

use crate::config::{student_names, texts, Config};
use crate::text::{
    digits_value, eq_ignore_ascii_case, eq_ignoring_ascii_case, lemma_trimmed_unchanged, parse_u32, parsed_u32,
    trim, trimmed, unsigned_digits,
};

verus! {

/// The number of vEuros each user distributes.
pub const TOTAL: u32 = 50;

/// An amount of vEuros given to one peer.
pub struct Assignment {
    pub name: String,
    pub amount: u32,
}

/// The sum of `a`.
pub open spec fn sum_of(a: Seq<u32>) -> nat
    decreases a.len(),
{
    if a.len() == 0 {
        0
    } else {
        sum_of(a.drop_last()) + a.last() as nat
    }
}

/// The amounts of a list of assignments.
pub open spec fn amounts_of(a: Seq<Assignment>) -> Seq<u32> {
    a.map_values(|x: Assignment| x.amount)
}

/// The names of a list of assignments.
pub open spec fn names_of(a: Seq<Assignment>) -> Seq<Seq<char>> {
    a.map_values(|x: Assignment| x.name@)
}

/// The peers of the user among `students`: each student trimmed, in order,
/// leaving out those equal to `me` when ASCII letters are compared without case.
pub open spec fn peer_names(students: Seq<Seq<char>>, me: Seq<char>) -> Seq<Seq<char>>
    decreases students.len(),
{
    if students.len() == 0 {
        Seq::empty()
    } else {
        let rest = peer_names(students.drop_last(), me);
        let t = trimmed(students.last());
        if eq_ignoring_ascii_case(t, me) {
            rest
        } else {
            rest.push(t)
        }
    }
}

/// The peers that the user distributes vEuros to.
pub fn peers(config: &Config) -> (r: Vec<String>)
    ensures
        texts(r@) == peer_names(student_names(config), trimmed(config.general.my_name@)),
{
    let me = trim(config.general.my_name.as_str());
    let students = &config.members.students;
    let ghost st = student_names(config);
    let mut r: Vec<String> = Vec::new();
    for i in 0..students.len()
        invariant
            students == &config.members.students,
            st == student_names(config),
            me@ == trimmed(config.general.my_name@),
            texts(r@) == peer_names(st.take(i as int), me@),
    {
        assert(st[i as int] == students@[i as int]@);
        assert(st.take(i + 1).drop_last() == st.take(i as int));
        assert(st.take(i + 1).last() == st[i as int]);
        let t = trim(students[i].as_str());
        if !eq_ignore_ascii_case(t, me) {
            let ghost prev = r@;
            r.push(t.to_owned());
            assert(texts(r@) == texts(prev).push(t@));
        }
    }
    assert(st.take(students.len() as int) == st);
    r
}


/// How an amount typed for a peer was taken.
#[derive(PartialEq, Eq, Structural, Clone, Copy, Debug)]
pub enum AmountCheck {
    /// The amount was given to the peer.
    Accepted(u32),
    /// The amount is more than the vEuros still left; nothing changed.
    TooMuch,
    /// The text is not a whole number; nothing changed.
    NotANumber,
}

/// One round of the console dialogue: the peers are asked in order, each
/// for an amount no greater than what is still left.
pub struct Round {
    peers: Vec<String>,
    assignments: Vec<Assignment>,
    left: u32,
}


/// What a round holds: the peers, the names and amounts given so far, and
/// the vEuros not yet given.
pub struct RoundView {
    pub peers: Seq<Seq<char>>,
    pub names: Seq<Seq<char>>,
    pub amounts: Seq<u32>,
    pub left: nat,
}

impl RoundView {
    /// The amounts went to the first peers, in order; they and the vEuros
    /// left add up to [`TOTAL`].
    pub open spec fn well_formed(self) -> bool {
        &&& self.amounts.len() == self.names.len()
        &&& self.names.len() <= self.peers.len()
        &&& self.names == self.peers.take(self.names.len() as int)
        &&& sum_of(self.amounts) + self.left == TOTAL
    }

    /// Every peer has been given an amount.
    pub open spec fn complete(self) -> bool {
        self.amounts.len() == self.peers.len()
    }
}

impl View for Round {
    type V = RoundView;

    closed spec fn view(&self) -> RoundView {
        RoundView {
            peers: texts(self.peers@),
            names: names_of(self.assignments@),
            amounts: amounts_of(self.assignments@),
            left: self.left as nat,
        }
    }
}

/// The outcome of typing `input` for the next peer of a round in state `v`:
/// the trimmed text read as a `u32`, taken when it is no more than what is left.
pub open spec fn offer_outcome(v: RoundView, input: Seq<char>) -> AmountCheck {
    match parsed_u32(trimmed(input)) {
        Some(n) => if n <= v.left {
            AmountCheck::Accepted(n)
        } else {
            AmountCheck::TooMuch
        },
        None => AmountCheck::NotANumber,
    }
}

impl Round {
    /// A round over `peers` in which nothing has been given yet.
    pub fn new(peers: Vec<String>) -> (r: Round)
        ensures
            r@.peers == texts(peers@),
            r@.amounts == Seq::<u32>::empty(),
            r@.left == TOTAL,
            r@.well_formed(),
    {
        let r = Round { peers, assignments: Vec::new(), left: TOTAL };
        assert(amounts_of(r.assignments@) == Seq::<u32>::empty());
        assert(names_of(r.assignments@) == texts(r.peers@).take(0));
        r
    }

    /// The vEuros not yet given.
    pub fn left(&self) -> (n: u32)
        ensures
            n == self@.left,
    {
        self.left
    }

    /// The peer to be asked next, if any is left.
    pub fn next_peer(&self) -> (p: Option<String>)
        requires
            self@.well_formed(),
        ensures
            match p {
                Some(name) => !self@.complete() && name@ == self@.peers[self@.amounts.len() as int],
                None => self@.complete(),
            },
    {
        let k = self.assignments.len();
        if k < self.peers.len() {
            Some(self.peers[k].clone())
        } else {
            None
        }
    }

    /// Takes `input` as the amount for the next peer; see [`offer_outcome`].
    pub fn offer(&mut self, input: &str) -> (r: AmountCheck)
        requires
            old(self)@.well_formed(),
            !old(self)@.complete(),
        ensures
            r == offer_outcome(old(self)@, input@),
            final(self)@.peers == old(self)@.peers,
            final(self)@.well_formed(),
            match r {
                AmountCheck::Accepted(n) => {
                    &&& final(self)@.amounts == old(self)@.amounts.push(n)
                    &&& final(self)@.names == old(self)@.peers.take(final(self)@.amounts.len() as int)
                    &&& final(self)@.left == old(self)@.left - n
                },
                _ => final(self)@ == old(self)@,
            },
    {
        match parse_u32(trim(input)) {
            Some(n) => {
                if n <= self.left {
                    let k = self.assignments.len();
                    let name = self.peers[k].clone();
                    let ghost prev = self.assignments@;
                    let ghost pv = self@;
                    self.assignments.push(Assignment { name, amount: n });
                    self.left = self.left - n;
                    proof {
                        assert(self.assignments@.drop_last() == prev);
                        assert(amounts_of(self.assignments@).drop_last() == amounts_of(prev));
                        assert(amounts_of(self.assignments@) == amounts_of(prev).push(n));
                        assert(names_of(self.assignments@) == names_of(prev).push(pv.peers[k as int]));
                        assert(self@.names == pv.peers.take(k + 1));
                    }
                    AmountCheck::Accepted(n)
                } else {
                    AmountCheck::TooMuch
                }
            },
            None => AmountCheck::NotANumber,
        }
    }

    /// How the round ends: short by what is left, or full when nothing is.
    pub fn end(&self) -> (r: RoundEnd)
        ensures
            self@.left > 0 ==> r == RoundEnd::Short(self@.left as u32),
            self@.left == 0 ==> r == RoundEnd::Full,
    {
        if self.left > 0 {
            RoundEnd::Short(self.left)
        } else {
            RoundEnd::Full
        }
    }

    /// The answer to "are you sure?" after a full round: on yes (see
    /// [`is_yes`]) the amounts given, every peer's in order, adding up to
    /// exactly [`TOTAL`]; otherwise nothing, and the round starts over.
    pub fn accept(self, answer: &str) -> (r: Option<Vec<Assignment>>)
        requires
            self@.well_formed(),
            self@.complete(),
            self@.left == 0,
        ensures
            r is Some <==> eq_ignoring_ascii_case(trimmed(answer@), "y"@),
            r matches Some(a) ==> {
                &&& names_of(a@) == self@.peers
                &&& amounts_of(a@) == self@.amounts
                &&& sum_of(amounts_of(a@)) == TOTAL
            },
    {
        if is_yes(answer) {
            let ghost v = self@;
            let a = self.into_assignments();
            assert(v.peers.take(v.names.len() as int) == v.peers);
            Some(a)
        } else {
            None
        }
    }

    /// The amounts given, each with the name of its peer.
    pub fn into_assignments(self) -> (r: Vec<Assignment>)
        ensures
            amounts_of(r@) == self@.amounts,
            names_of(r@) == self@.names,
    {
        self.assignments
    }
}

/// How a round that has asked every peer ends.
#[derive(PartialEq, Eq, Structural, Clone, Copy, Debug)]
pub enum RoundEnd {
    /// This many vEuros were left unassigned: the round starts over.
    Short(u32),
    /// All vEuros were given: the user is asked to confirm.
    Full,
}

/// Whether the user's answer, trimmed, is `y` or `Y`.
pub fn is_yes(answer: &str) -> (r: bool)
    ensures
        r == eq_ignoring_ascii_case(trimmed(answer@), "y"@),
{
    eq_ignore_ascii_case(trim(answer), "y")
}

proof fn lemma_sum_bounds(a: Seq<u32>)
    ensures
        forall|i: int| 0 <= i < a.len() ==> (#[trigger] a[i]) <= sum_of(a),
    decreases a.len(),
{
    if a.len() > 0 {
        lemma_sum_bounds(a.drop_last());
        assert forall|i: int| 0 <= i < a.len() implies (#[trigger] a[i]) <= sum_of(a) by {
            if i < a.len() - 1 {
                assert(a[i] == a.drop_last()[i]);
            }
        }
    }
}

/// In every round, however the peers answered, the amounts given never add
/// up to more than [`TOTAL`], no single amount exceeds it, and a round with
/// nothing left has given exactly [`TOTAL`].
pub proof fn law_round_never_exceeds_total(v: RoundView)
    requires
        v.well_formed(),
    ensures
        sum_of(v.amounts) <= TOTAL,
        forall|i: int| 0 <= i < v.amounts.len() ==> (#[trigger] v.amounts[i]) <= TOTAL,
        v.left == 0 ==> sum_of(v.amounts) == TOTAL,
{
    lemma_sum_bounds(v.amounts);
}

/// The user is never among their own peers: no peer equals the user's
/// trimmed name (ASCII letters without case), and every peer is some
/// student's trimmed name.
pub proof fn law_peers_exclude_user(students: Seq<Seq<char>>, me: Seq<char>)
    ensures
        forall|i: int| 0 <= i < peer_names(students, me).len() ==> !eq_ignoring_ascii_case(#[trigger] peer_names(students, me)[i], me),
        forall|i: int| 0 <= i < peer_names(students, me).len() ==> exists|j: int| 0 <= j < students.len() && #[trigger] peer_names(students, me)[i] == trimmed(students[j]),
        peer_names(students, me).len() <= students.len(),
    decreases students.len(),
{
    if students.len() > 0 {
        let rest = students.drop_last();
        law_peers_exclude_user(rest, me);
        let p = peer_names(students, me);
        let pr = peer_names(rest, me);
        assert forall|i: int| 0 <= i < p.len() implies exists|j: int| 0 <= j < students.len() && #[trigger] p[i] == trimmed(students[j]) by {
            if i < pr.len() {
                assert(p[i] == pr[i]);
                let j = choose|j: int| 0 <= j < rest.len() && pr[i] == trimmed(rest[j]);
                assert(rest[j] == students[j]);
            } else {
                assert(p[i] == trimmed(students[students.len() - 1]));
            }
        }
        assert forall|i: int| 0 <= i < p.len() implies !eq_ignoring_ascii_case(#[trigger] p[i], me) by {
            if i < pr.len() {
                assert(p[i] == pr[i]);
            }
        }
    }
}

/// Whatever is typed for a peer that reads (trimmed) as a whole number `n`
/// is taken exactly when `n` is no more than what is left, and refused as
/// too much otherwise.
pub proof fn law_amounts_within_left_are_taken(v: RoundView, input: Seq<char>, n: u32)
    requires
        parsed_u32(trimmed(input)) == Some(n),
    ensures
        n <= v.left ==> offer_outcome(v, input) == AmountCheck::Accepted(n),
        n > v.left ==> offer_outcome(v, input) == AmountCheck::TooMuch,
{
}

/// Typing `0` for a peer is always taken, so a round with nothing left can
/// still be completed.
pub proof fn law_zero_is_always_taken(v: RoundView)
    ensures
        offer_outcome(v, "0"@) == AmountCheck::Accepted(0),
{
    reveal_strlit("0");
    let s = "0"@;
    lemma_trimmed_unchanged(s);
    assert(unsigned_digits(s) == s);
    assert(s.drop_last() =~= Seq::<char>::empty());
    assert(digits_value(s.drop_last()) == 0);
    assert(digits_value(s) == 0);
    law_amounts_within_left_are_taken(v, s, 0);
}

/// Typing for a peer something that does not read (trimmed) as a whole
/// number is refused as such, whatever is left.
pub proof fn law_non_numbers_are_refused(v: RoundView, input: Seq<char>)
    requires
        parsed_u32(trimmed(input)) is None,
    ensures
        offer_outcome(v, input) == AmountCheck::NotANumber,
{
}

/// Every student who is not the user is among the peers: the peers are the
/// students' trimmed names, in order, without the user's.
pub proof fn law_peers_are_the_others(students: Seq<Seq<char>>, me: Seq<char>, k: int)
    requires
        0 <= k < students.len(),
        !eq_ignoring_ascii_case(trimmed(students[k]), me),
    ensures
        exists|j: int| 0 <= j < peer_names(students, me).len() && peer_names(students, me)[j] == trimmed(students[k]),
    decreases students.len(),
{
    let rest = students.drop_last();
    if k < students.len() - 1 {
        assert(rest[k] == students[k]);
        law_peers_are_the_others(rest, me, k);
        let j = choose|j: int| 0 <= j < peer_names(rest, me).len() && peer_names(rest, me)[j] == trimmed(rest[k]);
        assert(peer_names(students, me)[j] == peer_names(rest, me)[j]);
    } else {
        let p = peer_names(students, me);
        assert(p[p.len() - 1] == trimmed(students.last()));
    }
}

} // verus!
