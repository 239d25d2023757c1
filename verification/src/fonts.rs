//! Which of the two font faces draws a text, and which characters each face
//! is loaded with.

use vstd::prelude::*;

use crate::text::{chars_of, push_char};

verus! {

/// The two font faces of the interface.
#[derive(PartialEq, Eq, Structural, Clone, Copy, Debug)]
pub enum FontFace {
    Latin,
    Cjk,
}

/// Code points in the CJK Unified Ideographs blocks, Hiragana, Katakana,
/// and the Korean Hangul syllables block.
pub open spec fn is_cjk(c: char) -> bool {
    let n = c as u32;
    ||| 0x3040 <= n <= 0x30FF
    ||| 0x3400 <= n <= 0x4DBF
    ||| 0x4E00 <= n <= 0x9FFF
    ||| 0xAC00 <= n <= 0xD7AF
    ||| 0xF900 <= n <= 0xFAFF
    ||| 0x20000 <= n <= 0x2A6DF
}

/// Executable form of [`is_cjk`].
pub fn cjk(c: char) -> (b: bool)
    ensures
        b == is_cjk(c),
{
    let n = c as u32;
    (0x3040 <= n && n <= 0x30FF) || (0x3400 <= n && n <= 0x4DBF) || (0x4E00 <= n && n <= 0x9FFF)
        || (0xAC00 <= n && n <= 0xD7AF) || (0xF900 <= n && n <= 0xFAFF) || (0x20000 <= n && n
        <= 0x2A6DF)
}

/// The face for `text`: the CJK face when any of its characters is CJK,
/// else the Latin face.
pub fn face_for(text: &str) -> (f: FontFace)
    ensures
        f == (if exists|i: int| 0 <= i < text@.len() && is_cjk(#[trigger] text@[i]) {
            FontFace::Cjk
        } else {
            FontFace::Latin
        }),
{
    let v = chars_of(text);
    for i in 0..v.len()
        invariant
            v@ == text@,
            forall|k: int| 0 <= k < i ==> !is_cjk(#[trigger] text@[k]),
    {
        if cjk(v[i]) {
            return FontFace::Cjk;
        }
    }
    FontFace::Latin
}

/// Calls `char::from_u32`, which gives the character with code point `n`
/// when `n` is a Unicode scalar value (at most `0x10FFFF`, not a surrogate)
/// and `None` otherwise.
#[verifier::external_body]
fn char_from_u32(n: u32) -> (r: Option<char>)
    ensures
        r is Some <==> (n <= 0x10FFFF && !(0xD800 <= n <= 0xDFFF)),
        r matches Some(c) ==> c as u32 == n,
{
    char::from_u32(n)
}

/// The code points `lo` up to `hi`, in order.
pub open spec fn code_range(lo: nat, hi: nat) -> Seq<nat> {
    Seq::new((hi + 1 - lo) as nat, |i: int| (lo + i) as nat)
}

/// The code points of the characters of `s`.
pub open spec fn code_points(s: Seq<char>) -> Seq<nat> {
    s.map_values(|c: char| (c as u32) as nat)
}

/// Appends the characters of code points `lo..=hi` to `s`.
fn push_range(s: &mut String, lo: u32, hi: u32)
    requires
        lo <= hi <= 0x10FFFF,
        hi < 0xD800 || lo > 0xDFFF,
    ensures
        code_points(final(s)@) == code_points(old(s)@) + code_range(lo as nat, hi as nat),
{
    let mut n = lo;
    let ghost start = code_points(old(s)@);
    while n <= hi
        invariant
            lo <= n <= hi + 1,
            hi <= 0x10FFFF,
            hi < 0xD800 || lo > 0xDFFF,
            code_points(s@) == start + code_range(lo as nat, hi as nat).take(n - lo),
        decreases hi + 1 - n,
    {
        let ghost before = s@;
        match char_from_u32(n) {
            Some(c) => {
                push_char(s, c);
                assert(s@ == before.push(c));
                assert(code_points(s@) =~= code_points(before).push(n as nat));
            },
            None => {},
        }
        assert(code_range(lo as nat, hi as nat).take(n + 1 - lo) == code_range(lo as nat, hi as nat).take(n - lo).push(n as nat));
        n = n + 1;
    }
    assert(code_range(lo as nat, hi as nat) == code_range(lo as nat, hi as nat).take(hi + 1 - lo));
}

/// The code points the Latin face is loaded with: Basic Latin and Latin
/// Extended A and B, Greek and Coptic, Cyrillic, General Punctuation.
pub open spec fn latin_code_points() -> Seq<nat> {
    code_range(0x20, 0x24F) + code_range(0x370, 0x3FF) + code_range(0x400, 0x4FF) + code_range(0x2000, 0x206F)
}

/// The code points the CJK face is loaded with: Hiragana and Katakana, CJK
/// Extension A, CJK Unified Ideographs, Hangul Syllables, CJK Compatibility
/// Ideographs.
pub open spec fn cjk_code_points() -> Seq<nat> {
    code_range(0x3040, 0x30FF) + code_range(0x3400, 0x4DBF) + code_range(0x4E00, 0x9FFF)
        + code_range(0xAC00, 0xD7AF) + code_range(0xF900, 0xFAFF)
}

/// The characters of [`latin_code_points`], in order.
pub fn latin_codepoints() -> (s: String)
    ensures
        code_points(s@) == latin_code_points(),
{
    let mut s = String::new();
    assert(code_points(s@) == Seq::<nat>::empty());
    push_range(&mut s, 0x20, 0x24F);
    push_range(&mut s, 0x370, 0x3FF);
    push_range(&mut s, 0x400, 0x4FF);
    push_range(&mut s, 0x2000, 0x206F);
    s
}

/// The characters of [`cjk_code_points`], in order.
pub fn cjk_codepoints() -> (s: String)
    ensures
        code_points(s@) == cjk_code_points(),
{
    let mut s = String::new();
    assert(code_points(s@) == Seq::<nat>::empty());
    push_range(&mut s, 0x3040, 0x30FF);
    push_range(&mut s, 0x3400, 0x4DBF);
    push_range(&mut s, 0x4E00, 0x9FFF);
    push_range(&mut s, 0xAC00, 0xD7AF);
    push_range(&mut s, 0xF900, 0xFAFF);
    s
}

} // verus!
