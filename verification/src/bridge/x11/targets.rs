//! The X targets a Wayland-backed selection converts to, in one table, so
//! what `TARGETS` advertises and what a conversion produces cannot disagree.
//!
//! Only text is translated by name; any other mime type is offered as a
//! target under its own name and served raw. `MULTIPLE`, which the ICCCM
//! requires of owners, is deliberately not supported: no Xlib requestor we
//! know of uses it. Nor is `COMPOUND_TEXT`.

use crate::util::list;
use vstd::prelude::*;
use vstd::utf8::*;

verus! {

/// The bytes of a mime type's name.
pub open spec fn bytes_of(name: Seq<char>) -> Seq<u8> {
    encode_utf8(name)
}

/// What a named text target is delivered as, and whether that is Latin-1; `None`
/// for a target that is not a text target.
///
/// The ICCCM says `TEXT` "is not defined as a type; it will never be the returned
/// type", so it is delivered as the encoding we actually hold. `STRING` is ISO
/// Latin-1 by definition, and Wayland text is UTF-8.
pub open spec fn text_target(target: Seq<u8>) -> Option<(Seq<u8>, bool)> {
    if target == bytes_of("UTF8_STRING"@) {
        Some((bytes_of("UTF8_STRING"@), false))
    } else if target == bytes_of("TEXT"@) {
        Some((bytes_of("UTF8_STRING"@), false))
    } else if target == bytes_of("STRING"@) {
        Some((bytes_of("STRING"@), true))
    } else {
        None
    }
}

/// Mime types of the form `text/*`.
pub open spec fn is_text(m: Seq<char>) -> bool {
    bytes_of("text/"@).is_prefix_of(bytes_of(m))
}

pub open spec fn text_like() -> spec_fn(Seq<char>) -> bool {
    |m: Seq<char>| is_text(m)
}

/// The mime type that text is best had as: one that is UTF-8 text however it is
/// labelled (the names are what other X bridges, and our own sources, put on the
/// Wayland side), most faithful first, else any other `text/*`.
pub open spec fn text_mime(mimes: Seq<Seq<char>>) -> Option<Seq<char>> {
    if mimes.contains("text/plain;charset=utf-8"@) {
        Some("text/plain;charset=utf-8"@)
    } else if mimes.contains("UTF8_STRING"@) {
        Some("UTF8_STRING"@)
    } else if mimes.contains("text/plain"@) {
        Some("text/plain"@)
    } else if mimes.contains("TEXT"@) {
        Some("TEXT"@)
    } else {
        match list::first_index(mimes, text_like()) {
            Some(i) => Some(mimes[i]),
            None => None,
        }
    }
}

/// A mime type of the list that has these bytes as its name.
pub open spec fn offers(mimes: Seq<Seq<char>>, target: Seq<u8>) -> bool {
    exists|i: int| 0 <= i < mimes.len() && bytes_of(#[trigger] mimes[i]) == target
}

/// How to satisfy one conversion request.
#[derive(Debug, PartialEq, Eq)]
pub struct Conversion {
    /// The mime type to ask Wayland for.
    pub mime: String,
    /// The property type to deliver it as; `None` for the target atom itself.
    pub type_: Option<&'static [u8]>,
    /// Whether the (UTF-8) bytes must be transcoded to Latin-1 first.
    pub latin1: bool,
}

/// A conversion, with its names as sequences.
#[verifier::ext_equal]
pub struct ConversionView {
    pub mime: Seq<char>,
    pub type_: Option<Seq<u8>>,
    pub latin1: bool,
}

impl View for Conversion {
    type V = ConversionView;

    open spec fn view(&self) -> ConversionView {
        ConversionView {
            mime: self.mime@,
            type_: match self.type_ {
                Some(t) => Some(t@),
                None => None,
            },
            latin1: self.latin1,
        }
    }
}

/// The mime type and delivery for `target` from what the selection offers, `None`
/// if it cannot be converted.
pub open spec fn resolution(target: Seq<u8>, mimes: Seq<Seq<char>>) -> Option<ConversionView> {
    match text_target(target) {
        Some((type_, latin1)) => match text_mime(mimes) {
            Some(mime) => Some(ConversionView { mime, type_: Some(type_), latin1 }),
            None => None,
        },
        // a mime type used directly as the target
        None => if target.contains(47u8) && offers(mimes, target) {
            Some(ConversionView { mime: decode_utf8(target), type_: None, latin1: false })
        } else {
            None
        },
    }
}

/// Whether the list has the name.
fn has_mime(mimes: &Vec<String>, name: &str) -> (b: bool)
    ensures
        b == list::texts(mimes@).contains(name@),
{
    let want = name.to_owned();
    let mut i: usize = 0;
    while i < mimes.len()
        invariant
            i <= mimes.len(),
            want@ == name@,
            forall|j: int| 0 <= j < i ==> #[trigger] list::texts(mimes@)[j] != name@,
        decreases mimes.len() - i,
    {
        if mimes[i] == want {
            assert(list::texts(mimes@)[i as int] == name@);
            return true;
        }
        i += 1;
    }
    false
}

/// Whether `a` begins with `b`.
fn begins_with(a: &[u8], b: &[u8]) -> (r: bool)
    ensures
        r == b@.is_prefix_of(a@),
{
    if a.len() < b.len() {
        return false;
    }
    let mut i: usize = 0;
    while i < b.len()
        invariant
            i <= b.len() <= a.len(),
            forall|j: int| 0 <= j < i ==> a@[j] == b@[j],
        decreases b.len() - i,
    {
        if a[i] != b[i] {
            assert(a@.subrange(0, b@.len() as int)[i as int] != b@[i as int]);
            return false;
        }
        i += 1;
    }
    assert(a@.subrange(0, b@.len() as int) =~= b@);
    true
}

/// The mime type that text is best had as; see [`text_mime`].
fn best_text(mimes: &Vec<String>) -> (r: Option<String>)
    ensures
        r is Some == text_mime(list::texts(mimes@)) is Some,
        r matches Some(m) ==> Some(m@) == text_mime(list::texts(mimes@)),
{
    if has_mime(mimes, "text/plain;charset=utf-8") {
        return Some("text/plain;charset=utf-8".to_owned());
    }
    if has_mime(mimes, "UTF8_STRING") {
        return Some("UTF8_STRING".to_owned());
    }
    if has_mime(mimes, "text/plain") {
        return Some("text/plain".to_owned());
    }
    if has_mime(mimes, "TEXT") {
        return Some("TEXT".to_owned());
    }
    // any other text/* is better than nothing
    let ghost ms = list::texts(mimes@);
    let mut i: usize = 0;
    while i < mimes.len()
        invariant
            i <= mimes.len(),
            ms == list::texts(mimes@),
            !ms.contains("text/plain;charset=utf-8"@),
            !ms.contains("UTF8_STRING"@),
            !ms.contains("text/plain"@),
            !ms.contains("TEXT"@),
            forall|j: int| 0 <= j < i ==> !text_like()(#[trigger] ms[j]),
        decreases mimes.len() - i,
    {
        if begins_with(mimes[i].as_str().as_bytes(), "text/".as_bytes()) {
            proof {
                list::lemma_first_index_is(ms, text_like(), i as int);
            }
            return Some(mimes[i].clone());
        }
        i += 1;
    }
    proof {
        list::lemma_first_index_none(ms, text_like());
    }
    None
}

/// Picks the mime type and delivery for `target` from what the selection
/// offers, or `None` if it cannot be converted.
pub fn resolve(target: &[u8], mimes: &Vec<String>) -> (r: Option<Conversion>)
    ensures
        r is Some == resolution(target@, list::texts(mimes@)) is Some,
        r matches Some(c) ==> Some(c@) == resolution(target@, list::texts(mimes@)),
{
    let utf8 = list::same_bytes(target, "UTF8_STRING".as_bytes());
    let text = list::same_bytes(target, "TEXT".as_bytes());
    let string = list::same_bytes(target, "STRING".as_bytes());
    if utf8 || text || string {
        return match best_text(mimes) {
            Some(mime) => {
                if utf8 || text {
                    Some(Conversion { mime, type_: Some("UTF8_STRING".as_bytes()), latin1: false })
                } else {
                    Some(Conversion { mime, type_: Some("STRING".as_bytes()), latin1: true })
                }
            },
            None => None,
        };
    }
    // a mime type used directly as the target
    if !has_slash(target) {
        return None;
    }
    let ghost ms = list::texts(mimes@);
    let mut i: usize = 0;
    while i < mimes.len()
        invariant
            i <= mimes.len(),
            ms == list::texts(mimes@),
            text_target(target@) is None,
            target@.contains(47u8),
            forall|j: int| 0 <= j < i ==> bytes_of(#[trigger] ms[j]) != target@,
        decreases mimes.len() - i,
    {
        if list::same_bytes(mimes[i].as_str().as_bytes(), target) {
            proof {
                assert(bytes_of(ms[i as int]) == target@);
                encode_utf8_decode_utf8(ms[i as int]);
            }
            return Some(Conversion { mime: mimes[i].clone(), type_: None, latin1: false });
        }
        i += 1;
    }
    None
}

/// Whether there is a `/` among the bytes.
fn has_slash(b: &[u8]) -> (r: bool)
    ensures
        r == b@.contains(47u8),
{
    let mut i: usize = 0;
    while i < b.len()
        invariant
            i <= b.len(),
            forall|j: int| 0 <= j < i ==> b@[j] != 47u8,
        decreases b.len() - i,
    {
        if b[i] == 47 {
            assert(b@[i as int] == 47u8);
            return true;
        }
        i += 1;
    }
    false
}

/// What each of the byte strings is.
pub open spec fn names(s: Seq<Vec<u8>>) -> Seq<Seq<u8>> {
    s.map_values(|v: Vec<u8>| v@)
}

/// The target list with a mime type added: once, and only if it is one (it has a
/// `/`).
pub open spec fn adding(list: Seq<Seq<u8>>, mime: Seq<char>) -> Seq<Seq<u8>> {
    if bytes_of(mime).contains(47u8) && !list.contains(bytes_of(mime)) {
        list.push(bytes_of(mime))
    } else {
        list
    }
}

/// The text targets, in their order, if there is text at all.
pub open spec fn text_targets(mimes: Seq<Seq<char>>) -> Seq<Seq<u8>> {
    if text_mime(mimes) is Some {
        seq![bytes_of("UTF8_STRING"@), bytes_of("TEXT"@), bytes_of("STRING"@)]
    } else {
        Seq::empty()
    }
}

/// The text targets, then the first `n` mime types that are new.
pub open spec fn listing(mimes: Seq<Seq<char>>, n: int) -> Seq<Seq<u8>>
    decreases n,
{
    if n <= 0 {
        text_targets(mimes)
    } else {
        adding(listing(mimes, n - 1), mimes[n - 1])
    }
}

/// The target names to list for `TARGETS`, beyond `TARGETS` and `TIMESTAMP`
/// themselves: exactly those [`resolve`] would accept, each once.
pub fn advertised(mimes: &Vec<String>) -> (out: Vec<Vec<u8>>)
    ensures
        names(out@) == listing(list::texts(mimes@), mimes@.len() as int),
{
    let ghost ms = list::texts(mimes@);
    let mut out: Vec<Vec<u8>> = Vec::new();
    if best_text(mimes).is_some() {
        out.push(list::copy_bytes("UTF8_STRING".as_bytes()));
        out.push(list::copy_bytes("TEXT".as_bytes()));
        out.push(list::copy_bytes("STRING".as_bytes()));
    }
    assert(names(out@) =~= text_targets(ms));
    let mut i: usize = 0;
    while i < mimes.len()
        invariant
            i <= mimes.len(),
            ms == list::texts(mimes@),
            names(out@) == listing(ms, i as int),
        decreases mimes.len() - i,
    {
        let m = mimes[i].as_str().as_bytes();
        if has_slash(m) && !has_name(&out, m) {
            let ghost before = out@;
            out.push(list::copy_bytes(m));
            assert(names(out@) =~= names(before).push(m@));
        }
        i += 1;
    }
    out
}

/// Whether the list has the name.
fn has_name(v: &Vec<Vec<u8>>, name: &[u8]) -> (b: bool)
    ensures
        b == names(v@).contains(name@),
{
    let mut i: usize = 0;
    while i < v.len()
        invariant
            i <= v.len(),
            forall|j: int| 0 <= j < i ==> #[trigger] names(v@)[j] != name@,
        decreases v.len() - i,
    {
        if list::same_bytes(v[i].as_slice(), name) {
            assert(names(v@)[i as int] == name@);
            return true;
        }
        i += 1;
    }
    false
}

/// A character in Latin-1, `?` for what does not fit.
pub open spec fn latin1_byte(c: char) -> u8 {
    if (c as u32) < 256 {
        (c as u32) as u8
    } else {
        63u8
    }
}

/// What `String::from_utf8_lossy` makes of bytes: the characters they encode, with
/// U+FFFD for what is not UTF-8.
pub uninterp spec fn utf8_lossy(bytes: Seq<u8>) -> Seq<char>;

/// [`String::from_utf8_lossy`]. Bytes that are UTF-8 are decoded; of others the
/// contract gives the result its name alone.
#[verifier::external_body]
pub(crate) fn from_utf8_lossy(bytes: &[u8]) -> (s: String)
    ensures
        s@ == utf8_lossy(bytes@),
        valid_utf8(bytes@) ==> s@ == decode_utf8(bytes@),
{
    String::from_utf8_lossy(bytes).into_owned()
}

/// UTF-8 to ISO Latin-1, with `?` for what does not fit (and for bytes that
/// were not UTF-8 to begin with).
pub fn to_latin1(utf8: &[u8]) -> (out: Vec<u8>)
    ensures
        out@ == utf8_lossy(utf8@).map_values(|c: char| latin1_byte(c)),
        valid_utf8(utf8@) ==> out@ == decode_utf8(utf8@).map_values(|c: char| latin1_byte(c)),
{
    let s = from_utf8_lossy(utf8);
    latin1(s.as_str())
}

/// A text in ISO Latin-1, with `?` for what does not fit.
pub fn latin1(text: &str) -> (out: Vec<u8>)
    ensures
        out@ == text@.map_values(|c: char| latin1_byte(c)),
{
    let mut out: Vec<u8> = Vec::new();
    for c in it: text.chars()
        invariant
            out@.len() == it.index(),
            it.seq() == text@,
            forall|j: int| 0 <= j < out@.len() ==> #[trigger] out@[j] == latin1_byte(text@[j]),
    {
        let v: u32 = c as u32;
        if v < 256 {
            out.push(v as u8);
        } else {
            out.push(63);
        }
    }
    assert(out@ =~= text@.map_values(|c: char| latin1_byte(c)));
    out
}

proof fn lemma_ascii_bytes(s: Seq<char>)
    requires
        forall|i: int| 0 <= i < s.len() ==> (#[trigger] s[i]) as u32 <= 0x7f,
    ensures
        bytes_of(s).len() == s.len(),
        forall|i: int| 0 <= i < s.len() ==> #[trigger] bytes_of(s)[i] == s[i] as u32,
    decreases s.len(),
{
    if s.len() > 0 {
        let r = s.drop_first();
        assert forall|i: int| 0 <= i < r.len() implies (#[trigger] r[i]) as u32 <= 0x7f by {
            assert(r[i] == s[i + 1]);
        }
        lemma_ascii_bytes(r);
        let v = s[0] as u32;
        assert(v <= 0x7f ==> (v & 0x7F) == v) by (bit_vector);
        assert(encode_scalar(v) =~= seq![v as u8]);
        assert forall|i: int| 0 <= i < s.len() implies #[trigger] bytes_of(s)[i] == s[i] as u32 by {
            if i > 0 {
                assert(bytes_of(s)[i] == bytes_of(r)[i - 1]);
            }
        }
    }
}

/// The names of the text targets are three different ones, and no mime types.
pub proof fn law_text_targets_are_no_mimes()
    ensures
        !bytes_of("UTF8_STRING"@).contains(47u8),
        !bytes_of("TEXT"@).contains(47u8),
        !bytes_of("STRING"@).contains(47u8),
        bytes_of("UTF8_STRING"@) != bytes_of("TEXT"@),
        bytes_of("UTF8_STRING"@) != bytes_of("STRING"@),
        bytes_of("TEXT"@) != bytes_of("STRING"@),
{
    reveal_strlit("UTF8_STRING");
    reveal_strlit("TEXT");
    reveal_strlit("STRING");
    lemma_ascii_bytes("UTF8_STRING"@);
    lemma_ascii_bytes("TEXT"@);
    lemma_ascii_bytes("STRING"@);
    assert(bytes_of("TEXT"@)[0] == 84);
    assert(bytes_of("STRING"@)[0] == 83);
}

/// Names that differ are spelled differently.
pub proof fn lemma_names_apart(a: Seq<char>, b: Seq<char>)
    ensures
        bytes_of(a) == bytes_of(b) ==> a == b,
{
    encode_utf8_decode_utf8(a);
    encode_utf8_decode_utf8(b);
}

proof fn lemma_listing(mimes: Seq<Seq<char>>, n: int)
    requires
        0 <= n <= mimes.len(),
    ensures
        listing(mimes, n).no_duplicates(),
        forall|t: Seq<u8>| #[trigger]
            listing(mimes, n).contains(t) <==> text_targets(mimes).contains(t) || (t.contains(47u8) && offers(
                mimes.take(n),
                t,
            )),
    decreases n,
{
    law_text_targets_are_no_mimes();
    let l = listing(mimes, n);
    if n == 0 {
        assert(l.no_duplicates());
    } else {
        lemma_listing(mimes, n - 1);
        let k = listing(mimes, n - 1);
        let b = bytes_of(mimes[n - 1]);
        assert forall|t: Seq<u8>| #[trigger] l.contains(t) <==> text_targets(mimes).contains(t) || (t.contains(47u8)
            && offers(mimes.take(n), t)) by {
            assert(offers(mimes.take(n), t) <==> offers(mimes.take(n - 1), t) || b == t) by {
                if offers(mimes.take(n - 1), t) {
                    let i = choose|i: int| 0 <= i < n - 1 && bytes_of(#[trigger] mimes.take(n - 1)[i]) == t;
                    assert(bytes_of(mimes.take(n)[i]) == t);
                }
                if b == t {
                    assert(bytes_of(mimes.take(n)[n - 1]) == t);
                }
                if offers(mimes.take(n), t) {
                    let i = choose|i: int| 0 <= i < n && bytes_of(#[trigger] mimes.take(n)[i]) == t;
                    if i < n - 1 {
                        assert(bytes_of(mimes.take(n - 1)[i]) == t);
                    }
                }
            }
            assert(k.contains(t) <==> text_targets(mimes).contains(t) || (t.contains(47u8) && offers(
                mimes.take(n - 1),
                t,
            )));
            if b.contains(47u8) && !k.contains(b) {
                assert(k.push(b).contains(t) <==> k.contains(t) || t == b) by {
                    if k.contains(t) {
                        let i = k.index_of(t);
                        assert(k.push(b)[i] == t);
                    }
                    if t == b {
                        assert(k.push(b)[k.len() as int] == t);
                    }
                }
            }
        }
        assert(l.no_duplicates()) by {
            if b.contains(47u8) && !k.contains(b) {
                assert forall|i: int, j: int| 0 <= i < l.len() && 0 <= j < l.len() && i != j implies l[i] != l[j] by {
                    if i == k.len() {
                        assert(k.contains(k[j]));
                    } else if j == k.len() {
                        assert(k.contains(k[i]));
                    }
                }
            }
        }
    }
}

/// `TARGETS` advertises exactly what converts, each name once.
pub proof fn law_advertised_is_what_converts(mimes: Seq<Seq<char>>, target: Seq<u8>)
    ensures
        listing(mimes, mimes.len() as int).contains(target) <==> resolution(target, mimes) is Some,
        listing(mimes, mimes.len() as int).no_duplicates(),
{
    law_text_targets_are_no_mimes();
    lemma_listing(mimes, mimes.len() as int);
    assert(mimes.take(mimes.len() as int) =~= mimes);
    let t = text_targets(mimes);
    if text_mime(mimes) is Some {
        assert(t[0] == bytes_of("UTF8_STRING"@) && t[1] == bytes_of("TEXT"@) && t[2] == bytes_of("STRING"@));
    }
    if offers(mimes, target) && target.contains(47u8) {
        assert(text_target(target) is None);
    }
}

/// A conversion asks only for a mime type that is offered.
pub proof fn law_conversions_ask_for_what_is_offered(mimes: Seq<Seq<char>>, target: Seq<u8>)
    ensures
        resolution(target, mimes) matches Some(c) ==> mimes.contains(c.mime),
{
    list::lemma_first_index(mimes, text_like());
    if let Some(c) = resolution(target, mimes) {
        if text_target(target) is None {
            let i = choose|i: int| 0 <= i < mimes.len() && bytes_of(#[trigger] mimes[i]) == target;
            encode_utf8_decode_utf8(mimes[i]);
        }
    }
}

/// Text is delivered as its target says: `UTF8_STRING` as such, `TEXT` as that too, and
/// `STRING` as such, in Latin-1.
pub proof fn law_text_is_delivered_as_its_target_says(mimes: Seq<Seq<char>>)
    requires
        text_mime(mimes) is Some,
    ensures
        resolution(bytes_of("UTF8_STRING"@), mimes) matches Some(c) && c.type_ == Some(bytes_of("UTF8_STRING"@))
            && !c.latin1,
        resolution(bytes_of("TEXT"@), mimes) matches Some(c) && c.type_ == Some(bytes_of("UTF8_STRING"@)) && !c.latin1,
        resolution(bytes_of("STRING"@), mimes) matches Some(c) && c.type_ == Some(bytes_of("STRING"@)) && c.latin1,
{
    law_text_targets_are_no_mimes();
}

/// Text is had as what is most surely UTF-8 of what is offered, and as any other text only
/// where that is all there is.
pub proof fn law_text_is_had_as_utf8_where_it_can_be(mimes: Seq<Seq<char>>, m: Seq<char>)
    ensures
        mimes.contains("text/plain;charset=utf-8"@) ==> text_mime(mimes) == Some("text/plain;charset=utf-8"@),
        mimes.contains("UTF8_STRING"@) && !mimes.contains("text/plain;charset=utf-8"@) ==> text_mime(mimes) == Some(
            "UTF8_STRING"@,
        ),
        text_mime(mimes) == Some("TEXT"@) ==> !mimes.contains("text/plain"@) && !mimes.contains("UTF8_STRING"@)
            && !mimes.contains("text/plain;charset=utf-8"@),
        text_mime(mimes) == Some("text/plain"@) ==> !mimes.contains("UTF8_STRING"@) && !mimes.contains(
            "text/plain;charset=utf-8"@,
        ),
        mimes.contains(m) && bytes_of("text/"@).is_prefix_of(bytes_of(m)) ==> text_mime(mimes) is Some,
        text_mime(mimes) matches Some(t) ==> mimes.contains(t),
{
    reveal_strlit("text/plain;charset=utf-8");
    assert("text/plain;charset=utf-8"@.len() == 24);
    reveal_strlit("UTF8_STRING");
    assert("UTF8_STRING"@.len() == 11);
    reveal_strlit("text/plain");
    assert("text/plain"@.len() == 10);
    reveal_strlit("TEXT");
    assert("TEXT"@.len() == 4);
    list::lemma_first_index(mimes, text_like());
    if mimes.contains(m) && is_text(m) {
        let i = mimes.index_of(m);
        assert(text_like()(mimes[i]));
    }
    if let Some(i) = list::first_index(mimes, text_like()) {
        assert(mimes.contains(mimes[i]));
    }
}

/// Any other mime type converts to itself, as it is.
pub proof fn law_other_mimes_are_served_raw(mimes: Seq<Seq<char>>, m: Seq<char>)
    requires
        mimes.contains(m),
        bytes_of(m).contains(47u8),
    ensures
        resolution(bytes_of(m), mimes) == Some(ConversionView { mime: m, type_: None, latin1: false }),
{
    law_text_targets_are_no_mimes();
    encode_utf8_decode_utf8(m);
    let i = mimes.index_of(m);
    assert(bytes_of(mimes[i]) == bytes_of(m));
}

} // verus!
