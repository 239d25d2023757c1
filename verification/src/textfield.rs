//! A single-line text field with a cursor and a selection, counted in
//! characters.

use vstd::prelude::*;

use crate::clipboard::Shortcut;
use crate::text::{admits, chars_of, is_control, string_of, CharFilter};

verus! {

/// A text field: its characters, the cursor (the number of characters
/// before it), an optional selection anchor, and the filter that decides
/// which typed characters are let in. The selection, when the anchor is
/// set, spans from the smaller to the larger of the anchor and the cursor.
pub struct TextField {
    text: Vec<char>,
    cursor: usize,
    anchor: Option<usize>,
    filter: CharFilter,
}

/// What a text field holds.
pub struct FieldView {
    pub text: Seq<char>,
    pub cursor: nat,
    pub anchor: Option<nat>,
    pub filter: CharFilter,
}

impl View for TextField {
    type V = FieldView;

    closed spec fn view(&self) -> FieldView {
        FieldView {
            text: self.text@,
            cursor: self.cursor as nat,
            anchor: match self.anchor {
                Some(a) => Some(a as nat),
                None => None,
            },
            filter: self.filter,
        }
    }
}

/// The smaller of `a` and `b`.
pub open spec fn min_nat(a: nat, b: nat) -> nat {
    if a <= b {
        a
    } else {
        b
    }
}

/// The larger of `a` and `b`.
pub open spec fn max_nat(a: nat, b: nat) -> nat {
    if a <= b {
        b
    } else {
        a
    }
}

impl FieldView {
    /// The cursor and the anchor lie within the text.
    pub open spec fn well_formed(self) -> bool {
        &&& self.cursor <= self.text.len()
        &&& match self.anchor {
            Some(a) => a <= self.text.len(),
            None => true,
        }
    }

    /// Every character of the text is one the filter lets in.
    pub open spec fn text_admitted(self) -> bool {
        forall|i: int| 0 <= i < self.text.len() ==> admits(self.filter, #[trigger] self.text[i])
    }

    /// The selected span `(lo, hi)`, if the anchor is set.
    pub open spec fn selection(self) -> Option<(nat, nat)> {
        match self.anchor {
            Some(a) => Some((min_nat(a, self.cursor), max_nat(a, self.cursor))),
            None => None,
        }
    }

    /// The selected characters (none without a selection).
    pub open spec fn selected_text(self) -> Seq<char> {
        match self.selection() {
            Some((lo, hi)) => self.text.subrange(lo as int, hi as int),
            None => Seq::empty(),
        }
    }

    /// The field with its selection taken out and the cursor where it began.
    pub open spec fn without_selection(self) -> FieldView {
        match self.selection() {
            Some((lo, hi)) => FieldView {
                text: self.text.subrange(0, lo as int) + self.text.subrange(hi as int, self.text.len() as int),
                cursor: lo,
                anchor: None,
                ..self
            },
            None => self,
        }
    }

    /// With shift held the anchor is kept, or set at the cursor; without
    /// shift it is cleared.
    pub open spec fn anchored(self, shift: bool) -> FieldView {
        if shift {
            match self.anchor {
                Some(_) => self,
                None => FieldView { anchor: Some(self.cursor), ..self },
            }
        } else {
            FieldView { anchor: None, ..self }
        }
    }

    /// The Left key: without shift a selection collapses to its start;
    /// otherwise the cursor steps one character left, if it can.
    pub open spec fn moved_left(self, shift: bool) -> FieldView {
        if !shift && self.anchor is Some {
            FieldView { cursor: min_nat(self.anchor->0, self.cursor), anchor: None, ..self }
        } else {
            let w = self.anchored(shift);
            FieldView { cursor: if w.cursor > 0 { (w.cursor - 1) as nat } else { w.cursor }, ..w }
        }
    }

    /// The Right key: without shift a selection collapses to its end;
    /// otherwise the cursor steps one character right, if it can.
    pub open spec fn moved_right(self, shift: bool) -> FieldView {
        if !shift && self.anchor is Some {
            FieldView { cursor: max_nat(self.anchor->0, self.cursor), anchor: None, ..self }
        } else {
            let w = self.anchored(shift);
            FieldView { cursor: if w.cursor < w.text.len() { w.cursor + 1 } else { w.cursor }, ..w }
        }
    }

    /// The Home key.
    pub open spec fn moved_home(self, shift: bool) -> FieldView {
        FieldView { cursor: 0, ..self.anchored(shift) }
    }

    /// The End key.
    pub open spec fn moved_end(self, shift: bool) -> FieldView {
        FieldView { cursor: self.text.len(), ..self.anchored(shift) }
    }

    /// Typing `c`: a character the filter refuses changes nothing; otherwise
    /// the selection is replaced by `c` and the cursor follows it.
    pub open spec fn inserted(self, c: char) -> FieldView {
        if !admits(self.filter, c) {
            self
        } else {
            let w = self.without_selection();
            FieldView { text: w.text.insert(w.cursor as int, c), cursor: w.cursor + 1, ..w }
        }
    }

    /// Typing each character of `s` in turn.
    pub open spec fn inserted_all(self, s: Seq<char>) -> FieldView
        decreases s.len(),
    {
        if s.len() == 0 {
            self
        } else {
            self.inserted(s[0]).inserted_all(s.drop_first())
        }
    }

    /// The selection spans at least one character.
    pub open spec fn selects_something(self) -> bool {
        match self.selection() {
            Some((lo, hi)) => lo < hi,
            None => false,
        }
    }

    /// Backspace: takes out the selection when it spans any characters;
    /// otherwise clears the (empty) selection and takes out the character
    /// before the cursor, if there is one.
    pub open spec fn backspaced(self) -> FieldView {
        let w = self.without_selection();
        if self.selects_something() {
            w
        } else if w.cursor == 0 {
            w
        } else {
            FieldView {
                text: w.text.remove(w.cursor - 1),
                cursor: (w.cursor - 1) as nat,
                ..w
            }
        }
    }

    /// Delete: takes out the selection when it spans any characters;
    /// otherwise clears the (empty) selection and takes out the character
    /// after the cursor, if there is one.
    pub open spec fn deleted_forward(self) -> FieldView {
        let w = self.without_selection();
        if self.selects_something() {
            w
        } else if w.cursor >= w.text.len() {
            w
        } else {
            FieldView { text: w.text.remove(w.cursor as int), ..w }
        }
    }

    /// Select all: the anchor at the start and the cursor at the end.
    pub open spec fn all_selected(self) -> FieldView {
        FieldView { anchor: Some(0), cursor: self.text.len(), ..self }
    }
}

impl TextField {
    /// An empty field that lets in what `filter` admits.
    pub fn new(filter: CharFilter) -> (f: TextField)
        ensures
            f@ == (FieldView { text: Seq::empty(), cursor: 0, anchor: None, filter }),
            f@.well_formed(),
    {
        TextField { text: Vec::new(), cursor: 0, anchor: None, filter }
    }

    /// A field holding `text` (whatever the filter), with the cursor at its end.
    pub fn with_text(text: String, filter: CharFilter) -> (f: TextField)
        ensures
            f@ == (FieldView { text: text@, cursor: text@.len(), anchor: None, filter }),
            f@.well_formed(),
    {
        let v = chars_of(text.as_str());
        let n = v.len();
        TextField { text: v, cursor: n, anchor: None, filter }
    }

    /// Replaces the text, with the cursor at its end and no selection.
    pub fn set_text(&mut self, text: String)
        ensures
            final(self)@ == (FieldView { text: text@, cursor: text@.len(), anchor: None, ..old(self)@ }),
            final(self)@.well_formed(),
    {
        let v = chars_of(text.as_str());
        self.cursor = v.len();
        self.text = v;
        self.anchor = None;
    }

    /// Empties the field.
    pub fn clear(&mut self)
        ensures
            final(self)@ == (FieldView { text: Seq::empty(), cursor: 0, anchor: None, ..old(self)@ }),
            final(self)@.well_formed(),
    {
        self.text = Vec::new();
        self.cursor = 0;
        self.anchor = None;
    }

    /// The text.
    pub fn text(&self) -> (s: String)
        ensures
            s@ == self@.text,
    {
        string_of(&self.text)
    }

    /// The cursor, as the number of characters before it.
    pub fn cursor(&self) -> (c: usize)
        ensures
            c == self@.cursor,
    {
        self.cursor
    }

    /// Whether the field holds no characters.
    pub fn is_empty(&self) -> (b: bool)
        ensures
            b == (self@.text.len() == 0),
    {
        self.text.len() == 0
    }

    /// Whether the selection anchor is set.
    pub fn has_selection(&self) -> (b: bool)
        ensures
            b == (self@.anchor is Some),
    {
        self.anchor.is_some()
    }

    /// The selected span, as character indices `(lo, hi)`.
    pub fn selection(&self) -> (r: Option<(usize, usize)>)
        ensures
            match r {
                Some((lo, hi)) => self@.selection() == Some((lo as nat, hi as nat)),
                None => self@.selection() is None,
            },
    {
        match self.anchor {
            Some(a) => {
                if a <= self.cursor {
                    Some((a, self.cursor))
                } else {
                    Some((self.cursor, a))
                }
            },
            None => None,
        }
    }

    /// The characters from index `lo` up to `hi`.
    pub fn slice(&self, lo: usize, hi: usize) -> (s: String)
        requires
            lo <= hi <= self@.text.len(),
        ensures
            s@ == self@.text.subrange(lo as int, hi as int),
    {
        let mut s = String::new();
        let mut i = lo;
        while i < hi
            invariant
                lo <= i <= hi,
                hi <= self.text@.len(),
                s@ == self.text@.subrange(lo as int, i as int),
            decreases hi - i,
        {
            crate::text::push_char(&mut s, self.text[i]);
            assert(s@ == self.text@.subrange(lo as int, i + 1));
            i = i + 1;
        }
        s
    }

    /// The selected characters.
    pub fn selected_text(&self) -> (s: String)
        requires
            self@.well_formed(),
        ensures
            s@ == self@.selected_text(),
    {
        match self.selection() {
            Some((lo, hi)) => self.slice(lo, hi),
            None => String::new(),
        }
    }

    /// Keeps or sets the anchor with shift held; clears it without.
    fn update_anchor(&mut self, shift: bool)
        requires
            old(self)@.well_formed(),
        ensures
            final(self)@ == old(self)@.anchored(shift),
            final(self)@.well_formed(),
    {
        if shift {
            if self.anchor.is_none() {
                self.anchor = Some(self.cursor);
            }
        } else {
            self.anchor = None;
        }
    }

    /// The Left key; see [`FieldView::moved_left`].
    pub fn move_left(&mut self, shift: bool)
        requires
            old(self)@.well_formed(),
        ensures
            final(self)@ == old(self)@.moved_left(shift),
            final(self)@.well_formed(),
    {
        if !shift {
            if let Some((lo, _)) = self.selection() {
                self.cursor = lo;
                self.anchor = None;
                return;
            }
        }
        self.update_anchor(shift);
        if self.cursor > 0 {
            self.cursor = self.cursor - 1;
        }
    }

    /// The Right key; see [`FieldView::moved_right`].
    pub fn move_right(&mut self, shift: bool)
        requires
            old(self)@.well_formed(),
        ensures
            final(self)@ == old(self)@.moved_right(shift),
            final(self)@.well_formed(),
    {
        if !shift {
            if let Some((_, hi)) = self.selection() {
                self.cursor = hi;
                self.anchor = None;
                return;
            }
        }
        self.update_anchor(shift);
        if self.cursor < self.text.len() {
            self.cursor = self.cursor + 1;
        }
    }

    /// The Home key; see [`FieldView::moved_home`].
    pub fn move_home(&mut self, shift: bool)
        requires
            old(self)@.well_formed(),
        ensures
            final(self)@ == old(self)@.moved_home(shift),
            final(self)@.well_formed(),
    {
        self.update_anchor(shift);
        self.cursor = 0;
    }

    /// The End key; see [`FieldView::moved_end`].
    pub fn move_end(&mut self, shift: bool)
        requires
            old(self)@.well_formed(),
        ensures
            final(self)@ == old(self)@.moved_end(shift),
            final(self)@.well_formed(),
    {
        self.update_anchor(shift);
        self.cursor = self.text.len();
    }

    /// Takes out the selection, if there is one, and clears it; says whether
    /// anything was deleted.
    fn delete_selection(&mut self) -> (deleted: bool)
        requires
            old(self)@.well_formed(),
        ensures
            deleted == old(self)@.selects_something(),
            final(self)@ == old(self)@.without_selection(),
            final(self)@.well_formed(),
    {
        match self.selection() {
            Some((lo, hi)) => {
                let n = self.text.len();
                let mut t: Vec<char> = Vec::new();
                for i in 0..lo
                    invariant
                        lo <= hi <= n,
                        n == self.text@.len(),
                        t@ == self.text@.subrange(0, i as int),
                {
                    t.push(self.text[i]);
                    assert(t@ == self.text@.subrange(0, i + 1));
                }
                let ghost front = t@;
                for i in hi..n
                    invariant
                        lo <= hi <= n,
                        n == self.text@.len(),
                        front == self.text@.subrange(0, lo as int),
                        t@ == front + self.text@.subrange(hi as int, i as int),
                {
                    t.push(self.text[i]);
                    assert(self.text@.subrange(hi as int, i + 1) == self.text@.subrange(hi as int, i as int).push(self.text@[i as int]));
                }
                self.text = t;
                self.cursor = lo;
                self.anchor = None;
                lo < hi
            },
            None => false,
        }
    }

    /// Types `c`; see [`FieldView::inserted`].
    pub fn insert_char(&mut self, c: char)
        requires
            old(self)@.well_formed(),
        ensures
            final(self)@ == old(self)@.inserted(c),
            final(self)@.well_formed(),
    {
        if !self.filter.accepts(c) {
            return;
        }
        self.delete_selection();
        self.text.insert(self.cursor, c);
        assert(self.cursor < self.text.len());
        self.cursor = self.cursor + 1;
    }

    /// Types each character of `s` in turn.
    pub fn insert_str(&mut self, s: &str)
        requires
            old(self)@.well_formed(),
        ensures
            final(self)@ == old(self)@.inserted_all(s@),
            final(self)@.well_formed(),
    {
        let v = chars_of(s);
        let ghost start = self@;
        assert(s@.skip(0) == s@);
        for i in 0..v.len()
            invariant
                v@ == s@,
                self@.well_formed(),
                start.inserted_all(s@) == self@.inserted_all(s@.skip(i as int)),
        {
            assert(s@.skip(i as int)[0] == v@[i as int]);
            assert(s@.skip(i as int).drop_first() == s@.skip(i + 1));
            self.insert_char(v[i]);
        }
    }

    /// A typed character, as a key press delivers it: control characters
    /// are ignored, others are typed.
    pub fn input_char(&mut self, c: char)
        requires
            old(self)@.well_formed(),
        ensures
            final(self)@ == if is_control(c) { old(self)@ } else { old(self)@.inserted(c) },
            final(self)@.well_formed(),
    {
        if !crate::text::control(c) {
            self.insert_char(c);
        }
    }

    /// The Backspace key; see [`FieldView::backspaced`].
    pub fn backspace(&mut self)
        requires
            old(self)@.well_formed(),
        ensures
            final(self)@ == old(self)@.backspaced(),
            final(self)@.well_formed(),
    {
        if self.delete_selection() || self.cursor == 0 {
            return;
        }
        self.cursor = self.cursor - 1;
        self.text.remove(self.cursor);
    }

    /// The Delete key; see [`FieldView::deleted_forward`].
    pub fn delete_forward(&mut self)
        requires
            old(self)@.well_formed(),
        ensures
            final(self)@ == old(self)@.deleted_forward(),
            final(self)@.well_formed(),
    {
        if self.delete_selection() || self.cursor >= self.text.len() {
            return;
        }
        self.text.remove(self.cursor);
    }

    /// Selects the whole text (Ctrl/Cmd+A).
    pub fn select_all(&mut self)
        requires
            old(self)@.well_formed(),
        ensures
            final(self)@ == old(self)@.all_selected(),
            final(self)@.well_formed(),
    {
        self.anchor = Some(0);
        self.cursor = self.text.len();
    }

    /// Cuts the selection (Ctrl/Cmd+X): returns the selected characters, for
    /// the clipboard, and takes them out of the field.
    pub fn cut(&mut self) -> (s: String)
        requires
            old(self)@.well_formed(),
        ensures
            s@ == old(self)@.selected_text(),
            final(self)@ == old(self)@.without_selection(),
            final(self)@.well_formed(),
    {
        let s = self.selected_text();
        self.delete_selection();
        s
    }

    /// A clipboard shortcut on the field. Select-all selects the whole text;
    /// copy hands back the selected characters for the clipboard; cut hands
    /// them back and takes them out; paste types the clipboard's text (when
    /// it could be read, `pasted`). The result is the text to put on the
    /// clipboard, if any.
    pub fn apply_shortcut(&mut self, s: Shortcut, pasted: Option<String>) -> (copy: Option<String>)
        requires
            old(self)@.well_formed(),
        ensures
            final(self)@.well_formed(),
            match s {
                Shortcut::Nothing => copy is None && final(self)@ == old(self)@,
                Shortcut::SelectAll => copy is None && final(self)@ == old(self)@.all_selected(),
                Shortcut::Copy => final(self)@ == old(self)@ && (copy matches Some(t) && t@ == old(self)@.selected_text()),
                Shortcut::Cut => final(self)@ == old(self)@.without_selection() && (copy matches Some(t) && t@ == old(self)@.selected_text()),
                Shortcut::Paste => copy is None && (match pasted {
                    Some(p) => final(self)@ == old(self)@.inserted_all(p@),
                    None => final(self)@ == old(self)@,
                }),
            },
    {
        match s {
            Shortcut::Nothing => None,
            Shortcut::SelectAll => {
                self.select_all();
                None
            },
            Shortcut::Copy => Some(self.selected_text()),
            Shortcut::Cut => Some(self.cut()),
            Shortcut::Paste => {
                match pasted {
                    Some(p) => self.insert_str(p.as_str()),
                    None => {},
                }
                None
            },
        }
    }
}

/// Backspace right after typing a character the filter lets in, with no
/// selection, gives back the field as it was.
pub proof fn law_backspace_undoes_typing(v: FieldView, c: char)
    requires
        v.well_formed(),
        v.anchor is None,
        admits(v.filter, c),
    ensures
        v.inserted(c).backspaced() == v,
        v.inserted(c).well_formed(),
{
    let w = v.inserted(c);
    assert(w.text.remove(v.cursor as int) =~= v.text);
}

/// Select-all selects the whole text, and a cut then leaves the field empty.
pub proof fn law_select_all_covers_text(v: FieldView)
    requires
        v.well_formed(),
    ensures
        v.all_selected().selected_text() == v.text,
        v.all_selected().without_selection().text.len() == 0,
        v.all_selected().without_selection().cursor == 0,
{
    assert(v.text.subrange(0, v.text.len() as int) =~= v.text);
    assert(v.all_selected().without_selection().text =~= Seq::<char>::empty());
}

/// Typing a character the filter lets in puts it just before the cursor,
/// in place of the selection if there is one, and leaves no selection.
pub proof fn law_typing_replaces_selection(v: FieldView, c: char)
    requires
        v.well_formed(),
        admits(v.filter, c),
    ensures
        ({
            let w = v.inserted(c);
            let lo = match v.selection() {
                Some(sel) => sel.0,
                None => v.cursor,
            };
            let hi = match v.selection() {
                Some(sel) => sel.1,
                None => v.cursor,
            };
            &&& w.text == v.text.subrange(0, lo as int).push(c) + v.text.subrange(hi as int, v.text.len() as int)
            &&& w.cursor == lo + 1
            &&& w.anchor is None
        }),
{
    let w = v.inserted(c);
    let u = v.without_selection();
    match v.selection() {
        Some(sel) => {
            assert(w.text =~= v.text.subrange(0, sel.0 as int).push(c) + v.text.subrange(sel.1 as int, v.text.len() as int));
        },
        None => {
            assert(w.text =~= v.text.subrange(0, v.cursor as int).push(c) + v.text.subrange(v.cursor as int, v.text.len() as int));
        },
    }
}

proof fn lemma_without_selection_keeps(v: FieldView)
    requires
        v.well_formed(),
        v.text_admitted(),
    ensures
        v.without_selection().well_formed(),
        v.without_selection().text_admitted(),
        v.without_selection().filter == v.filter,
{
    if let Some((lo, hi)) = v.selection() {
        let w = v.without_selection();
        assert forall|i: int| 0 <= i < w.text.len() implies admits(w.filter, #[trigger] w.text[i]) by {
            if i < lo {
                assert(w.text[i] == v.text[i]);
            } else {
                assert(w.text[i] == v.text[i - lo + hi]);
            }
        }
    }
}

proof fn lemma_inserted_keeps(v: FieldView, c: char)
    requires
        v.well_formed(),
        v.text_admitted(),
    ensures
        v.inserted(c).well_formed(),
        v.inserted(c).text_admitted(),
        v.inserted(c).filter == v.filter,
{
    if admits(v.filter, c) {
        lemma_without_selection_keeps(v);
        let w = v.without_selection();
        let x = v.inserted(c);
        assert forall|i: int| 0 <= i < x.text.len() implies admits(x.filter, #[trigger] x.text[i]) by {
            if i < w.cursor {
                assert(x.text[i] == w.text[i]);
            } else if i > w.cursor {
                assert(x.text[i] == w.text[i - 1]);
            }
        }
    }
}

proof fn lemma_inserted_all_keeps(v: FieldView, s: Seq<char>)
    requires
        v.well_formed(),
        v.text_admitted(),
    ensures
        v.inserted_all(s).well_formed(),
        v.inserted_all(s).text_admitted(),
    decreases s.len(),
{
    if s.len() > 0 {
        lemma_inserted_keeps(v, s[0]);
        lemma_inserted_all_keeps(v.inserted(s[0]), s.drop_first());
    }
}

/// Editing never brings in a character the filter refuses: from a text whose
/// characters the filter all lets in, typing (one character or a paste),
/// Backspace, Delete, cutting the selection, moving and selecting all give
/// such a text again. (`with_text` and `set_text` take any text.)
pub proof fn law_edits_keep_text_admitted(v: FieldView, c: char, s: Seq<char>, shift: bool)
    requires
        v.well_formed(),
        v.text_admitted(),
    ensures
        v.inserted(c).text_admitted(),
        v.inserted_all(s).text_admitted(),
        v.backspaced().text_admitted(),
        v.deleted_forward().text_admitted(),
        v.without_selection().text_admitted(),
        v.moved_left(shift).text_admitted(),
        v.moved_right(shift).text_admitted(),
        v.moved_home(shift).text_admitted(),
        v.moved_end(shift).text_admitted(),
        v.all_selected().text_admitted(),
{
    lemma_inserted_keeps(v, c);
    lemma_inserted_all_keeps(v, s);
    lemma_without_selection_keeps(v);
    let w = v.without_selection();
    let b = v.backspaced();
    assert forall|i: int| 0 <= i < b.text.len() implies admits(b.filter, #[trigger] b.text[i]) by {
        if !v.selects_something() && w.cursor > 0 {
            if i < w.cursor - 1 {
                assert(b.text[i] == w.text[i]);
            } else {
                assert(b.text[i] == w.text[i + 1]);
            }
        }
    }
    let d = v.deleted_forward();
    assert forall|i: int| 0 <= i < d.text.len() implies admits(d.filter, #[trigger] d.text[i]) by {
        if !v.selects_something() && w.cursor < w.text.len() {
            if i < w.cursor {
                assert(d.text[i] == w.text[i]);
            } else {
                assert(d.text[i] == w.text[i + 1]);
            }
        }
    }
}

/// Backspace and Delete with a selection spanning at least one character
/// take out exactly the selected characters: the text before the selection
/// followed by the text after it, the cursor where the selection began, and
/// no selection left.
pub proof fn law_deleting_a_selection_removes_exactly_it(v: FieldView, lo: nat, hi: nat)
    requires
        v.well_formed(),
        v.selection() == Some((lo, hi)),
        lo < hi,
    ensures
        v.backspaced().text == v.text.subrange(0, lo as int) + v.text.subrange(hi as int, v.text.len() as int),
        v.backspaced().cursor == lo,
        v.backspaced().anchor is None,
        v.backspaced().text.len() == v.text.len() - (hi - lo),
        v.deleted_forward().text == v.text.subrange(0, lo as int) + v.text.subrange(hi as int, v.text.len() as int),
        v.deleted_forward().cursor == lo,
        v.deleted_forward().anchor is None,
{
}

/// Backspace with no selection (or an empty one) takes out the one character
/// before the cursor, if there is one, and the cursor steps back over it;
/// Delete takes out the one character after the cursor, if there is one, and
/// the cursor stays. Either way no selection is left.
pub proof fn law_deleting_without_selection_removes_one(v: FieldView)
    requires
        v.well_formed(),
        !v.selects_something(),
    ensures
        v.cursor > 0 ==> v.backspaced().text == v.text.subrange(0, v.cursor - 1) + v.text.subrange(v.cursor as int, v.text.len() as int),
        v.cursor > 0 ==> v.backspaced().cursor == v.cursor - 1,
        v.cursor == 0 ==> v.backspaced().text == v.text && v.backspaced().cursor == 0,
        v.backspaced().anchor is None,
        v.cursor < v.text.len() ==> v.deleted_forward().text == v.text.subrange(0, v.cursor as int) + v.text.subrange(v.cursor + 1int, v.text.len() as int),
        v.cursor == v.text.len() ==> v.deleted_forward().text == v.text,
        v.deleted_forward().cursor == v.cursor,
        v.deleted_forward().anchor is None,
{
    let w = v.without_selection();
    if let Some((lo, hi)) = v.selection() {
        assert(lo == v.cursor && hi == v.cursor);
        assert(w.text =~= v.text);
    }
    assert(w.text == v.text);
    assert(w.cursor == v.cursor);
    if v.cursor > 0 {
        assert(v.backspaced().text =~= v.text.subrange(0, v.cursor - 1) + v.text.subrange(v.cursor as int, v.text.len() as int));
    }
    if v.cursor < v.text.len() {
        assert(v.deleted_forward().text =~= v.text.subrange(0, v.cursor as int) + v.text.subrange(v.cursor + 1int, v.text.len() as int));
    }
}

/// Moving never changes the text. Without shift it leaves no selection:
/// Left and Right step one character (staying within the text) when nothing
/// is selected, and collapse a selection to its start or end otherwise;
/// Home and End go to the start and end. With shift the cursor moves the
/// same way one character, or to the start or end, and the selection's
/// anchor is where the cursor was when the selection began.
pub proof fn law_moves_keep_text(v: FieldView, shift: bool)
    requires
        v.well_formed(),
    ensures
        v.moved_left(shift).text == v.text,
        v.moved_right(shift).text == v.text,
        v.moved_home(shift).text == v.text,
        v.moved_end(shift).text == v.text,
        v.moved_home(shift).cursor == 0,
        v.moved_end(shift).cursor == v.text.len(),
        !shift ==> v.moved_left(shift).anchor is None && v.moved_right(shift).anchor is None
            && v.moved_home(shift).anchor is None && v.moved_end(shift).anchor is None,
        !shift && v.anchor is None ==> v.moved_left(shift).cursor == (if v.cursor > 0 { v.cursor - 1 } else { 0 }),
        !shift && v.anchor is None ==> v.moved_right(shift).cursor == (if v.cursor < v.text.len() { v.cursor + 1 } else { v.cursor }),
        !shift && v.anchor is Some ==> v.moved_left(shift).cursor == (if v.anchor->0 < v.cursor { v.anchor->0 } else { v.cursor }),
        !shift && v.anchor is Some ==> v.moved_right(shift).cursor == (if v.anchor->0 < v.cursor { v.cursor } else { v.anchor->0 }),
        shift && v.anchor is None ==> v.moved_left(shift).anchor == Some(v.cursor) && v.moved_right(shift).anchor == Some(v.cursor)
            && v.moved_home(shift).anchor == Some(v.cursor) && v.moved_end(shift).anchor == Some(v.cursor),
        shift && v.anchor is Some ==> v.moved_left(shift).anchor == v.anchor && v.moved_right(shift).anchor == v.anchor,
        shift ==> v.moved_left(shift).cursor == (if v.cursor > 0 { v.cursor - 1 } else { 0 }),
        shift ==> v.moved_right(shift).cursor == (if v.cursor < v.text.len() { v.cursor + 1 } else { v.cursor }),
{
}

/// Typing a character the filter refuses changes nothing; typing one it
/// lets in, with nothing selected, puts it at the cursor, moves the cursor
/// past it and grows the text by one.
pub proof fn law_typing_inserts_at_cursor(v: FieldView, c: char)
    requires
        v.well_formed(),
    ensures
        !admits(v.filter, c) ==> v.inserted(c) == v,
        admits(v.filter, c) && v.anchor is None ==> {
            &&& v.inserted(c).text.len() == v.text.len() + 1
            &&& v.inserted(c).text[v.cursor as int] == c
            &&& v.inserted(c).text.subrange(0, v.cursor as int) == v.text.subrange(0, v.cursor as int)
            &&& v.inserted(c).text.subrange(v.cursor + 1int, v.text.len() + 1int) == v.text.subrange(v.cursor as int, v.text.len() as int)
            &&& v.inserted(c).cursor == v.cursor + 1
            &&& v.inserted(c).anchor is None
        },
{
    if admits(v.filter, c) && v.anchor is None {
        let w = v.inserted(c);
        assert(w.text.subrange(0, v.cursor as int) =~= v.text.subrange(0, v.cursor as int));
        assert(w.text.subrange(v.cursor + 1int, v.text.len() + 1int) =~= v.text.subrange(v.cursor as int, v.text.len() as int));
    }
}

} // verus!
