//! The extensions that are offered.

use crate::util::list;
use vstd::prelude::*;
use x11rb_protocol::x11_utils::{ExtInfoProvider, ExtensionInformation};

verus! {

/// An extension and its numbers. They are arbitrary but unique for the server, and
/// leave room for all events and errors of an extension.
#[derive(Clone, Copy, Debug)]
pub struct ExtDef {
    pub name: &'static str,
    pub major_opcode: u8,
    pub first_event: u8,
    pub first_error: u8,
}

pub const SHM_OPCODE: u8 = 130;

pub const XTEST_OPCODE: u8 = 131;

pub const RANDR_OPCODE: u8 = 132;

pub const DAMAGE_OPCODE: u8 = 133;

pub const BIGREQ_OPCODE: u8 = 134;

pub const XFIXES_OPCODE: u8 = 135;

pub const RANDR_FIRST_EVENT: u8 = 75;

pub const DAMAGE_FIRST_EVENT: u8 = 80;

pub const XFIXES_FIRST_EVENT: u8 = 90;

/// The table of extensions.
pub struct Extensions(pub Vec<ExtDef>);

/// What the table says of an extension.
#[verifier::ext_equal]
pub struct ExtView {
    pub name: Seq<char>,
    pub major_opcode: u8,
    pub first_event: u8,
    pub first_error: u8,
}

impl View for ExtDef {
    type V = ExtView;

    open spec fn view(&self) -> ExtView {
        ExtView {
            name: self.name@,
            major_opcode: self.major_opcode,
            first_event: self.first_event,
            first_error: self.first_error,
        }
    }
}

impl View for Extensions {
    type V = Seq<ExtView>;

    open spec fn view(&self) -> Seq<ExtView> {
        self.0@.map_values(|e: ExtDef| e@)
    }
}

/// The extensions that are offered.
pub open spec fn offered() -> Seq<ExtView> {
    seq![
        (ExtView { name: "MIT-SHM"@, major_opcode: SHM_OPCODE, first_event: 65, first_error: 130 }),
        (ExtView { name: "XTEST"@, major_opcode: XTEST_OPCODE, first_event: 70, first_error: 135 }),
        (ExtView { name: "RANDR"@, major_opcode: RANDR_OPCODE, first_event: RANDR_FIRST_EVENT, first_error: 140 }),
        (ExtView { name: "DAMAGE"@, major_opcode: DAMAGE_OPCODE, first_event: DAMAGE_FIRST_EVENT, first_error: 145 }),
        (ExtView { name: "BIG-REQUESTS"@, major_opcode: BIGREQ_OPCODE, first_event: 85, first_error: 150 }),
        (ExtView { name: "XFIXES"@, major_opcode: XFIXES_OPCODE, first_event: XFIXES_FIRST_EVENT, first_error: 155 }),
    ]
}

/// The table of [`offered`].
pub fn extensions() -> (e: Extensions)
    ensures
        e@ == offered(),
{
    let mut v: Vec<ExtDef> = Vec::new();
    v.push(ExtDef { name: "MIT-SHM", major_opcode: SHM_OPCODE, first_event: 65, first_error: 130 });
    v.push(ExtDef { name: "XTEST", major_opcode: XTEST_OPCODE, first_event: 70, first_error: 135 });
    v.push(ExtDef { name: "RANDR", major_opcode: RANDR_OPCODE, first_event: RANDR_FIRST_EVENT, first_error: 140 });
    v.push(ExtDef { name: "DAMAGE", major_opcode: DAMAGE_OPCODE, first_event: DAMAGE_FIRST_EVENT, first_error: 145 });
    v.push(ExtDef { name: "BIG-REQUESTS", major_opcode: BIGREQ_OPCODE, first_event: 85, first_error: 150 });
    v.push(ExtDef { name: "XFIXES", major_opcode: XFIXES_OPCODE, first_event: XFIXES_FIRST_EVENT, first_error: 155 });
    let e = Extensions(v);
    assert(e@ =~= offered());
    e
}

/// An ASCII letter in lower case.
pub open spec fn lower(b: u8) -> u8 {
    if 65 <= b <= 90 {
        (b + 32) as u8
    } else {
        b
    }
}

/// Equal but for the case of ASCII letters.
pub open spec fn same_but_case(a: Seq<u8>, b: Seq<u8>) -> bool {
    a.len() == b.len() && forall|i: int| 0 <= i < a.len() ==> lower(#[trigger] a[i]) == lower(b[i])
}

/// The extension that has the name.
pub open spec fn named(name: Seq<u8>) -> spec_fn(ExtView) -> bool {
    |e: ExtView| same_but_case(vstd::utf8::encode_utf8(e.name), name)
}

fn eq_ignore_case(a: &[u8], b: &[u8]) -> (r: bool)
    ensures
        r == same_but_case(a@, b@),
{
    if a.len() != b.len() {
        return false;
    }
    let mut i: usize = 0;
    while i < a.len()
        invariant
            i <= a.len(),
            a.len() == b.len(),
            forall|j: int| 0 <= j < i ==> lower(#[trigger] a@[j]) == lower(b@[j]),
        decreases a.len() - i,
    {
        let x: u8 = if 65 <= a[i] && a[i] <= 90 { a[i] + 32 } else { a[i] };
        let y: u8 = if 65 <= b[i] && b[i] <= 90 { b[i] + 32 } else { b[i] };
        if x != y {
            assert(lower(a@[i as int]) != lower(b@[i as int]));
            return false;
        }
        i += 1;
    }
    true
}

impl Extensions {
    /// Look up an extension by name (case-insensitive like `QueryExtension`).
    pub fn lookup(&self, name: &[u8]) -> (r: Option<ExtDef>)
        ensures
            r is Some == list::first_index(self@, named(name@)) is Some,
            r matches Some(e) ==> e@ == self@[list::first_index(self@, named(name@))->0],
    {
        let mut i: usize = 0;
        while i < self.0.len()
            invariant
                i <= self.0.len(),
                forall|j: int| 0 <= j < i ==> !named(name@)(#[trigger] self@[j]),
            decreases self.0.len() - i,
        {
            if eq_ignore_case(self.0[i].name.as_bytes(), name) {
                proof {
                    list::lemma_first_index_is(self@, named(name@), i as int);
                }
                return Some(self.0[i]);
            }
            i += 1;
        }
        proof {
            list::lemma_first_index_none(self@, named(name@));
        }
        None
    }

    /// The extension whose requests have the major opcode.
    pub fn by_opcode(&self, major_opcode: u8) -> (r: Option<ExtDef>)
        ensures
            r is Some == list::first_index(self@, with_opcode(major_opcode)) is Some,
            r matches Some(e) ==> e@ == self@[list::first_index(self@, with_opcode(major_opcode))->0],
    {
        let mut i: usize = 0;
        while i < self.0.len()
            invariant
                i <= self.0.len(),
                forall|j: int| 0 <= j < i ==> !with_opcode(major_opcode)(#[trigger] self@[j]),
            decreases self.0.len() - i,
        {
            if self.0[i].major_opcode == major_opcode {
                proof {
                    list::lemma_first_index_is(self@, with_opcode(major_opcode), i as int);
                }
                return Some(self.0[i]);
            }
            i += 1;
        }
        proof {
            list::lemma_first_index_none(self@, with_opcode(major_opcode));
        }
        None
    }
}

/// `x11rb_protocol::x11_utils::ExtensionInformation`: an extension's numbers.
#[verifier::external_type_specification]
#[verifier::external_body]
pub struct ExExtensionInformation(ExtensionInformation);

/// An `x11rb_protocol::x11_utils::ExtensionInformation`, from its three numbers. Nothing
/// is said of it: it only goes back to `x11rb_protocol`.
#[verifier::external_body]
fn information(e: ExtDef) -> (i: ExtensionInformation) {
    ExtensionInformation { major_opcode: e.major_opcode, first_event: e.first_event, first_error: e.first_error }
}

/// How the request grammar of `x11rb_protocol` finds out whose request it is.
impl ExtInfoProvider for Extensions {
    fn get_from_major_opcode(&self, major_opcode: u8) -> Option<(&str, ExtensionInformation)> {
        match self.by_opcode(major_opcode) {
            Some(e) => Some((e.name, information(e))),
            None => None,
        }
    }

    /// The server does not receive events.
    fn get_from_event_code(&self, _event_code: u8) -> Option<(&str, ExtensionInformation)> {
        None
    }

    /// Nor errors.
    fn get_from_error_code(&self, _error_code: u8) -> Option<(&str, ExtensionInformation)> {
        None
    }
}

/// The extension that has the major opcode.
pub open spec fn with_opcode(major_opcode: u8) -> spec_fn(ExtView) -> bool {
    |e: ExtView| e.major_opcode == major_opcode
}

/// No two extensions share a major opcode, and their events do not overlap.
pub proof fn law_extensions_do_not_collide(i: int, j: int)
    requires
        0 <= i < j < offered().len(),
    ensures
        offered()[i].major_opcode != offered()[j].major_opcode,
        offered()[i].first_event + 5 <= offered()[j].first_event,
        offered()[i].first_error + 5 <= offered()[j].first_error,
{
}

/// An extension has one entry, which has the opcode that its requests come under and the
/// number that its events start from.
pub proof fn law_extensions_have_their_opcodes(i: int)
    requires
        0 <= i < offered().len(),
    ensures
        offered().len() == 6,
        offered()[i].name == "MIT-SHM"@ <==> offered()[i].major_opcode == SHM_OPCODE,
        offered()[i].name == "XTEST"@ <==> offered()[i].major_opcode == XTEST_OPCODE,
        offered()[i].name == "RANDR"@ <==> offered()[i].major_opcode == RANDR_OPCODE,
        offered()[i].name == "DAMAGE"@ <==> offered()[i].major_opcode == DAMAGE_OPCODE,
        offered()[i].name == "BIG-REQUESTS"@ <==> offered()[i].major_opcode == BIGREQ_OPCODE,
        offered()[i].name == "XFIXES"@ <==> offered()[i].major_opcode == XFIXES_OPCODE,
        offered()[i].name == "RANDR"@ ==> offered()[i].first_event == RANDR_FIRST_EVENT,
        offered()[i].name == "DAMAGE"@ ==> offered()[i].first_event == DAMAGE_FIRST_EVENT,
        offered()[i].name == "XFIXES"@ ==> offered()[i].first_event == XFIXES_FIRST_EVENT,
        offered()[i].major_opcode >= 128 && offered()[i].first_event >= 64 && offered()[i].first_error >= 128,
{
    reveal_strlit("MIT-SHM");
    assert("MIT-SHM"@.len() == 7);
    reveal_strlit("XTEST");
    assert("XTEST"@.len() == 5);
    reveal_strlit("RANDR");
    assert("RANDR"@.len() == 5);
    reveal_strlit("DAMAGE");
    assert("DAMAGE"@.len() == 6);
    reveal_strlit("BIG-REQUESTS");
    assert("BIG-REQUESTS"@.len() == 12);
    reveal_strlit("XFIXES");
    assert("XFIXES"@.len() == 6);
    assert("XTEST"@[0] == 'X');
    assert("RANDR"@[0] == 'R');
    assert("DAMAGE"@[0] == 'D');
    assert("XFIXES"@[0] == 'X');
}

} // verus!
