//! Interned atoms, beginning with the predefined ones (which is required for
//! protocol compatibility).

use crate::util::list;
use vstd::prelude::*;
use vstd::utf8::encode_utf8;

verus! {

pub const XA_PRIMARY: u32 = 1;

pub const XA_ATOM: u32 = 4;

pub const XA_INTEGER: u32 = 19;

/// The predefined atoms, numbered from 1.
pub open spec fn predefined() -> Seq<Seq<char>> {
    seq![
        "PRIMARY"@, "SECONDARY"@, "ARC"@, "ATOM"@, "BITMAP"@, "CARDINAL"@, "COLORMAP"@,
        "CURSOR"@, "CUT_BUFFER0"@, "CUT_BUFFER1"@, "CUT_BUFFER2"@, "CUT_BUFFER3"@,
        "CUT_BUFFER4"@, "CUT_BUFFER5"@, "CUT_BUFFER6"@, "CUT_BUFFER7"@, "DRAWABLE"@,
        "FONT"@, "INTEGER"@, "PIXMAP"@, "POINT"@, "RECTANGLE"@, "RESOURCE_MANAGER"@,
        "RGB_COLOR_MAP"@, "RGB_BEST_MAP"@, "RGB_BLUE_MAP"@, "RGB_DEFAULT_MAP"@,
        "RGB_GRAY_MAP"@, "RGB_GREEN_MAP"@, "RGB_RED_MAP"@, "STRING"@, "VISUALID"@,
        "WINDOW"@, "WM_COMMAND"@, "WM_HINTS"@, "WM_CLIENT_MACHINE"@, "WM_ICON_NAME"@,
        "WM_ICON_SIZE"@, "WM_NAME"@, "WM_NORMAL_HINTS"@, "WM_SIZE_HINTS"@,
        "WM_ZOOM_HINTS"@, "MIN_SPACE"@, "NORM_SPACE"@, "MAX_SPACE"@, "END_SPACE"@,
        "SUPERSCRIPT_X"@, "SUPERSCRIPT_Y"@, "SUBSCRIPT_X"@, "SUBSCRIPT_Y"@,
        "UNDERLINE_POSITION"@, "UNDERLINE_THICKNESS"@, "STRIKEOUT_ASCENT"@,
        "STRIKEOUT_DESCENT"@, "ITALIC_ANGLE"@, "X_HEIGHT"@, "QUAD_WIDTH"@, "WEIGHT"@,
        "POINT_SIZE"@, "RESOLUTION"@, "COPYRIGHT"@, "NOTICE"@, "FONT_NAME"@,
        "FAMILY_NAME"@, "FULL_NAME"@, "CAP_HEIGHT"@, "WM_CLASS"@, "WM_TRANSIENT_FOR"@,
    ]
}

/// The names of the predefined atoms as bytes.
pub open spec fn predefined_bytes() -> Seq<Seq<u8>> {
    predefined().map_values(|s: Seq<char>| encode_utf8(s))
}

/// The table of atoms, shared by every connection as X shares them. An atom is the
/// place of its name, counted from 1.
pub struct Atoms {
    names: Vec<Vec<u8>>,
}

impl View for Atoms {
    type V = Seq<Seq<u8>>;

    closed spec fn view(&self) -> Seq<Seq<u8>> {
        self.names@.map_values(|v: Vec<u8>| v@)
    }
}

/// The name, exactly.
pub open spec fn spelled(name: Seq<u8>) -> spec_fn(Seq<u8>) -> bool {
    |n: Seq<u8>| n == name
}

/// The atom of a name, 0 if it is not interned.
pub open spec fn atom_of(names: Seq<Seq<u8>>, name: Seq<u8>) -> int {
    match list::first_index(names, spelled(name)) {
        Some(i) => i + 1,
        None => 0,
    }
}

/// The table with the name in it, for as long as there are numbers left.
pub open spec fn interned(names: Seq<Seq<u8>>, name: Seq<u8>) -> Seq<Seq<u8>> {
    if atom_of(names, name) == 0 && names.len() < u32::MAX {
        names.push(name)
    } else {
        names
    }
}

/// The name of an atom.
pub open spec fn name_of(names: Seq<Seq<u8>>, id: u32) -> Option<Seq<u8>> {
    if 1 <= id <= names.len() {
        Some(names[id - 1])
    } else {
        None
    }
}

impl Default for Atoms {
    fn default() -> (a: Self)
        ensures
            a.wf(),
            a@ == predefined_bytes(),
    {
        let literals: Vec<&str> = vec![
            "PRIMARY", "SECONDARY", "ARC", "ATOM", "BITMAP", "CARDINAL", "COLORMAP",
            "CURSOR", "CUT_BUFFER0", "CUT_BUFFER1", "CUT_BUFFER2", "CUT_BUFFER3",
            "CUT_BUFFER4", "CUT_BUFFER5", "CUT_BUFFER6", "CUT_BUFFER7", "DRAWABLE",
            "FONT", "INTEGER", "PIXMAP", "POINT", "RECTANGLE", "RESOURCE_MANAGER",
            "RGB_COLOR_MAP", "RGB_BEST_MAP", "RGB_BLUE_MAP", "RGB_DEFAULT_MAP",
            "RGB_GRAY_MAP", "RGB_GREEN_MAP", "RGB_RED_MAP", "STRING", "VISUALID",
            "WINDOW", "WM_COMMAND", "WM_HINTS", "WM_CLIENT_MACHINE", "WM_ICON_NAME",
            "WM_ICON_SIZE", "WM_NAME", "WM_NORMAL_HINTS", "WM_SIZE_HINTS",
            "WM_ZOOM_HINTS", "MIN_SPACE", "NORM_SPACE", "MAX_SPACE", "END_SPACE",
            "SUPERSCRIPT_X", "SUPERSCRIPT_Y", "SUBSCRIPT_X", "SUBSCRIPT_Y",
            "UNDERLINE_POSITION", "UNDERLINE_THICKNESS", "STRIKEOUT_ASCENT",
            "STRIKEOUT_DESCENT", "ITALIC_ANGLE", "X_HEIGHT", "QUAD_WIDTH", "WEIGHT",
            "POINT_SIZE", "RESOLUTION", "COPYRIGHT", "NOTICE", "FONT_NAME",
            "FAMILY_NAME", "FULL_NAME", "CAP_HEIGHT", "WM_CLASS", "WM_TRANSIENT_FOR",
        ];
        let ghost want = predefined();
        assert(literals@.len() == want.len());
        assert(forall|i: int| 0 <= i < want.len() ==> (#[trigger] literals@[i])@ == want[i]);
        let mut names: Vec<Vec<u8>> = Vec::new();
        let mut i: usize = 0;
        while i < literals.len()
            invariant
                i <= literals.len(),
                literals@.len() == want.len(),
                forall|j: int| 0 <= j < want.len() ==> (#[trigger] literals@[j])@ == want[j],
                names@.len() == i,
                forall|j: int| 0 <= j < i ==> (#[trigger] names@[j])@ == encode_utf8(want[j]),
            decreases literals.len() - i,
        {
            names.push(list::copy_bytes(literals[i].as_bytes()));
            i += 1;
        }
        let a = Atoms { names };
        assert(a@ =~= predefined_bytes());
        a
    }
}

impl Atoms {
    /// Every atom has a number.
    pub open spec fn wf(self) -> bool {
        self@.len() <= u32::MAX
    }

    /// The atom of a name, interning it unless only an existing one is asked for
    /// (then 0 says that there is none).
    pub fn intern(&mut self, name: &[u8], only_if_exists: bool) -> (id: u32)
        requires
            old(self).wf(),
        ensures
            final(self).wf(),
            id == atom_of(final(self)@, name@),
            final(self)@ == (if only_if_exists {
                old(self)@
            } else {
                interned(old(self)@, name@)
            }),
    {
        let ghost n0 = self@;
        let mut i: usize = 0;
        while i < self.names.len()
            invariant
                i <= self.names.len(),
                n0 == self@,
                n0.len() <= u32::MAX,
                *self == *old(self),
                forall|j: int| 0 <= j < i ==> !spelled(name@)(#[trigger] n0[j]),
            decreases self.names.len() - i,
        {
            if list::same_bytes(self.names[i].as_slice(), name) {
                proof {
                    list::lemma_first_index_is(n0, spelled(name@), i as int);
                }
                return i as u32 + 1;
            }
            i += 1;
        }
        proof {
            list::lemma_first_index_none(n0, spelled(name@));
        }
        assert(n0.len() == self.names@.len());
        if only_if_exists || self.names.len() >= u32::MAX as usize {
            return 0;
        }
        self.names.push(list::copy_bytes(name));
        proof {
            assert(self@ =~= n0.push(name@));
            assert forall|j: int| 0 <= j < n0.len() implies !spelled(name@)(#[trigger] self@[j]) by {
                assert(!spelled(name@)(n0[j]));
            }
            list::lemma_first_index_is(self@, spelled(name@), n0.len() as int);
        }
        self.names.len() as u32
    }

    pub fn name(&self, id: u32) -> (r: Option<&[u8]>)
        ensures
            r is Some == name_of(self@, id) is Some,
            r matches Some(n) ==> Some(n@) == name_of(self@, id),
    {
        assert(self@.len() == self.names@.len());
        if id >= 1 && id as usize <= self.names.len() {
            Some(self.names[id as usize - 1].as_slice())
        } else {
            None
        }
    }
}

/// Interning is idempotent: whoever asks first fixes the number.
pub proof fn law_interning_is_idempotent(names: Seq<Seq<u8>>, name: Seq<u8>)
    requires
        names.len() < u32::MAX,
    ensures
        interned(interned(names, name), name) == interned(names, name),
        atom_of(interned(names, name), name) != 0,
{
    list::lemma_first_index(names, spelled(name));
    if atom_of(names, name) == 0 {
        let t = names.push(name);
        list::lemma_first_index_is(t, spelled(name), names.len() as int);
    }
}

/// The name of an interned atom is the name it was interned by.
pub proof fn law_name_gives_back_the_name(names: Seq<Seq<u8>>, name: Seq<u8>)
    requires
        names.len() < u32::MAX,
    ensures
        name_of(interned(names, name), atom_of(interned(names, name), name) as u32) == Some(name),
{
    law_interning_is_idempotent(names, name);
    list::lemma_first_index(interned(names, name), spelled(name));
}

/// An atom keeps its number and its name whatever else is interned.
pub proof fn law_atoms_are_for_good(names: Seq<Seq<u8>>, name: Seq<u8>, other: Seq<u8>, id: u32)
    ensures
        atom_of(names, name) != 0 ==> atom_of(interned(names, other), name) == atom_of(names, name),
        name_of(names, id) is Some ==> name_of(interned(names, other), id) == name_of(names, id),
{
    list::lemma_first_index(names, spelled(name));
    if let Some(i) = list::first_index(names, spelled(name)) {
        list::lemma_first_index_is(interned(names, other), spelled(name), i);
    }
}

/// Different names have different atoms.
pub proof fn law_names_do_not_share_an_atom(names: Seq<Seq<u8>>, a: Seq<u8>, b: Seq<u8>)
    requires
        atom_of(names, a) != 0,
        atom_of(names, a) == atom_of(names, b),
    ensures
        a == b,
{
    list::lemma_first_index(names, spelled(a));
    list::lemma_first_index(names, spelled(b));
}

/// The atoms that are used by their number are the predefined ones of that name.
pub proof fn law_predefined_numbers()
    ensures
        name_of(predefined_bytes(), XA_PRIMARY) == Some(encode_utf8("PRIMARY"@)),
        name_of(predefined_bytes(), XA_ATOM) == Some(encode_utf8("ATOM"@)),
        name_of(predefined_bytes(), XA_INTEGER) == Some(encode_utf8("INTEGER"@)),
        predefined_bytes().len() == 68,
{
}

/// The predefined atoms have the numbers that the X protocol gives them.
pub proof fn law_predefined_atoms_have_their_numbers()
    ensures
        name_of(predefined_bytes(), 1) == Some(encode_utf8("PRIMARY"@)),
        name_of(predefined_bytes(), 2) == Some(encode_utf8("SECONDARY"@)),
        name_of(predefined_bytes(), 3) == Some(encode_utf8("ARC"@)),
        name_of(predefined_bytes(), 4) == Some(encode_utf8("ATOM"@)),
        name_of(predefined_bytes(), 5) == Some(encode_utf8("BITMAP"@)),
        name_of(predefined_bytes(), 6) == Some(encode_utf8("CARDINAL"@)),
        name_of(predefined_bytes(), 7) == Some(encode_utf8("COLORMAP"@)),
        name_of(predefined_bytes(), 8) == Some(encode_utf8("CURSOR"@)),
        name_of(predefined_bytes(), 9) == Some(encode_utf8("CUT_BUFFER0"@)),
        name_of(predefined_bytes(), 10) == Some(encode_utf8("CUT_BUFFER1"@)),
        name_of(predefined_bytes(), 11) == Some(encode_utf8("CUT_BUFFER2"@)),
        name_of(predefined_bytes(), 12) == Some(encode_utf8("CUT_BUFFER3"@)),
        name_of(predefined_bytes(), 13) == Some(encode_utf8("CUT_BUFFER4"@)),
        name_of(predefined_bytes(), 14) == Some(encode_utf8("CUT_BUFFER5"@)),
        name_of(predefined_bytes(), 15) == Some(encode_utf8("CUT_BUFFER6"@)),
        name_of(predefined_bytes(), 16) == Some(encode_utf8("CUT_BUFFER7"@)),
        name_of(predefined_bytes(), 17) == Some(encode_utf8("DRAWABLE"@)),
        name_of(predefined_bytes(), 18) == Some(encode_utf8("FONT"@)),
        name_of(predefined_bytes(), 19) == Some(encode_utf8("INTEGER"@)),
        name_of(predefined_bytes(), 20) == Some(encode_utf8("PIXMAP"@)),
        name_of(predefined_bytes(), 21) == Some(encode_utf8("POINT"@)),
        name_of(predefined_bytes(), 22) == Some(encode_utf8("RECTANGLE"@)),
        name_of(predefined_bytes(), 23) == Some(encode_utf8("RESOURCE_MANAGER"@)),
        name_of(predefined_bytes(), 24) == Some(encode_utf8("RGB_COLOR_MAP"@)),
        name_of(predefined_bytes(), 25) == Some(encode_utf8("RGB_BEST_MAP"@)),
        name_of(predefined_bytes(), 26) == Some(encode_utf8("RGB_BLUE_MAP"@)),
        name_of(predefined_bytes(), 27) == Some(encode_utf8("RGB_DEFAULT_MAP"@)),
        name_of(predefined_bytes(), 28) == Some(encode_utf8("RGB_GRAY_MAP"@)),
        name_of(predefined_bytes(), 29) == Some(encode_utf8("RGB_GREEN_MAP"@)),
        name_of(predefined_bytes(), 30) == Some(encode_utf8("RGB_RED_MAP"@)),
        name_of(predefined_bytes(), 31) == Some(encode_utf8("STRING"@)),
        name_of(predefined_bytes(), 32) == Some(encode_utf8("VISUALID"@)),
        name_of(predefined_bytes(), 33) == Some(encode_utf8("WINDOW"@)),
        name_of(predefined_bytes(), 34) == Some(encode_utf8("WM_COMMAND"@)),
        name_of(predefined_bytes(), 35) == Some(encode_utf8("WM_HINTS"@)),
        name_of(predefined_bytes(), 36) == Some(encode_utf8("WM_CLIENT_MACHINE"@)),
        name_of(predefined_bytes(), 37) == Some(encode_utf8("WM_ICON_NAME"@)),
        name_of(predefined_bytes(), 38) == Some(encode_utf8("WM_ICON_SIZE"@)),
        name_of(predefined_bytes(), 39) == Some(encode_utf8("WM_NAME"@)),
        name_of(predefined_bytes(), 40) == Some(encode_utf8("WM_NORMAL_HINTS"@)),
        name_of(predefined_bytes(), 41) == Some(encode_utf8("WM_SIZE_HINTS"@)),
        name_of(predefined_bytes(), 42) == Some(encode_utf8("WM_ZOOM_HINTS"@)),
        name_of(predefined_bytes(), 43) == Some(encode_utf8("MIN_SPACE"@)),
        name_of(predefined_bytes(), 44) == Some(encode_utf8("NORM_SPACE"@)),
        name_of(predefined_bytes(), 45) == Some(encode_utf8("MAX_SPACE"@)),
        name_of(predefined_bytes(), 46) == Some(encode_utf8("END_SPACE"@)),
        name_of(predefined_bytes(), 47) == Some(encode_utf8("SUPERSCRIPT_X"@)),
        name_of(predefined_bytes(), 48) == Some(encode_utf8("SUPERSCRIPT_Y"@)),
        name_of(predefined_bytes(), 49) == Some(encode_utf8("SUBSCRIPT_X"@)),
        name_of(predefined_bytes(), 50) == Some(encode_utf8("SUBSCRIPT_Y"@)),
        name_of(predefined_bytes(), 51) == Some(encode_utf8("UNDERLINE_POSITION"@)),
        name_of(predefined_bytes(), 52) == Some(encode_utf8("UNDERLINE_THICKNESS"@)),
        name_of(predefined_bytes(), 53) == Some(encode_utf8("STRIKEOUT_ASCENT"@)),
        name_of(predefined_bytes(), 54) == Some(encode_utf8("STRIKEOUT_DESCENT"@)),
        name_of(predefined_bytes(), 55) == Some(encode_utf8("ITALIC_ANGLE"@)),
        name_of(predefined_bytes(), 56) == Some(encode_utf8("X_HEIGHT"@)),
        name_of(predefined_bytes(), 57) == Some(encode_utf8("QUAD_WIDTH"@)),
        name_of(predefined_bytes(), 58) == Some(encode_utf8("WEIGHT"@)),
        name_of(predefined_bytes(), 59) == Some(encode_utf8("POINT_SIZE"@)),
        name_of(predefined_bytes(), 60) == Some(encode_utf8("RESOLUTION"@)),
        name_of(predefined_bytes(), 61) == Some(encode_utf8("COPYRIGHT"@)),
        name_of(predefined_bytes(), 62) == Some(encode_utf8("NOTICE"@)),
        name_of(predefined_bytes(), 63) == Some(encode_utf8("FONT_NAME"@)),
        name_of(predefined_bytes(), 64) == Some(encode_utf8("FAMILY_NAME"@)),
        name_of(predefined_bytes(), 65) == Some(encode_utf8("FULL_NAME"@)),
        name_of(predefined_bytes(), 66) == Some(encode_utf8("CAP_HEIGHT"@)),
        name_of(predefined_bytes(), 67) == Some(encode_utf8("WM_CLASS"@)),
        name_of(predefined_bytes(), 68) == Some(encode_utf8("WM_TRANSIENT_FOR"@)),
{
}

} // verus!
