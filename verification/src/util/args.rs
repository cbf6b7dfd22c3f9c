//! X11-style arguments: single-dash long options, matched case-insensitively, with
//! values as `-opt value` or `-opt=value`; the first argument that is no option (or
//! what follows a `--`) is the command to run.

use vstd::prelude::*;

verus! {

/// A fixed-choice option value (an enum).
pub trait ArgEnum: Sized + Copy {
    /// The value that a text in lower case names.
    spec fn named(s: Seq<char>) -> Option<Self>;

    /// The accepted value strings, in help-display order.
    spec fn names() -> Seq<Seq<char>>;

    /// The accepted value strings, in help-display order.
    fn variants() -> (v: Vec<&'static str>)
        ensures
            v@.map_values(|s: &'static str| s@) == Self::names(),
            forall|s: Seq<char>| #[trigger] Self::named(s) is Some <==> Self::names().contains(s),
    ;

    /// Parses a value string (case-insensitive); `None` if unrecognised.
    fn from_arg(s: &Vec<char>) -> (r: Option<Self>)
        ensures
            r == Self::named(lowered(s@)),
    ;
}

/// An ASCII letter in lower case.
pub open spec fn lower(c: char) -> char {
    if 65 <= c as u32 <= 90 {
        ((c as u32 + 32) as u32) as char
    } else {
        c
    }
}

/// The text with its ASCII letters in lower case.
pub open spec fn lowered(s: Seq<char>) -> Seq<char> {
    s.map_values(|c: char| lower(c))
}

/// The text with its ASCII letters in lower case.
pub fn to_lower(v: &Vec<char>, from: usize, to: usize) -> (r: Vec<char>)
    requires
        from <= to <= v@.len(),
    ensures
        r@ == lowered(v@.subrange(from as int, to as int)),
{
    let ghost s = v@.subrange(from as int, to as int);
    let mut r: Vec<char> = Vec::new();
    let mut i: usize = from;
    while i < to
        invariant
            from <= i <= to <= v@.len(),
            s == v@.subrange(from as int, to as int),
            r@.len() == i - from,
            forall|j: int| 0 <= j < i - from ==> #[trigger] r@[j] == lower(s[j]),
        decreases to - i,
    {
        let c: char = v[i];
        assert(s[i - from] == c);
        if 65 <= c as u32 && c as u32 <= 90 {
            let b: u8 = (c as u32 + 32) as u8;
            r.push(b as char);
        } else {
            r.push(c);
        }
        i += 1;
    }
    assert(r@ =~= lowered(s));
    r
}

/// Whether the characters are those of a literal.
pub fn is_text(v: &Vec<char>, text: &str) -> (b: bool)
    ensures
        b == (v@ == text@),
{
    let t = crate::util::list::chars(text);
    if v.len() != t.len() {
        return false;
    }
    let mut i: usize = 0;
    while i < v.len()
        invariant
            i <= v.len(),
            v@.len() == t@.len(),
            t@ == text@,
            forall|j: int| 0 <= j < i ==> v@[j] == t@[j],
        decreases v.len() - i,
    {
        if v[i] != t[i] {
            return false;
        }
        i += 1;
    }
    assert(v@ =~= t@);
    true
}

/// Lower case is that of the ASCII letters alone, and of a text letter by letter.
pub proof fn law_lower_case_is_that_of_the_letters(s: Seq<char>, i: int)
    requires
        0 <= i < s.len(),
    ensures
        lowered(s).len() == s.len(),
        'A' as u32 <= s[i] as u32 <= 'Z' as u32 ==> lowered(s)[i] as u32 - 'a' as u32 == s[i] as u32 - 'A' as u32,
        !('A' as u32 <= s[i] as u32 <= 'Z' as u32) ==> lowered(s)[i] == s[i],
        lowered(lowered(s)) == lowered(s),
{
    assert forall|c: char| lower(#[trigger] lower(c)) == lower(c) by {
        if 65 <= c as u32 <= 90 {
            let v = (c as u32 + 32) as u32;
            assert(97 <= v <= 122);
            assert((v as char) as u32 == v);
        }
    }
    assert(lowered(lowered(s)) =~= lowered(s));
    if 65 <= s[i] as u32 <= 90 {
        let v = (s[i] as u32 + 32) as u32;
        assert((v as char) as u32 == v);
    }
}

} // verus!
