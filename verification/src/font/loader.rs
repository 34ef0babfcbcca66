//! The fonts that a document can be set in.
use vstd::prelude::*;

use crate::error::AppError;

verus! {

/// A font: its family name and the bytes of its TrueType/OpenType file.
#[derive(Debug, Clone)]
pub struct Font {
    pub family: String,
    pub data: Vec<u8>,
}

/// The units per em of the face that rustybuzz reads from `data` (face
/// index 0), or `None` where the data does not parse as a font.
pub uninterp spec fn rustybuzz_units_per_em(data: Seq<u8>) -> Option<i32>;

/// Parses `data` with `rustybuzz::Face::from_slice(data, 0)` and reads the
/// face's units per em. The contract claims that the result is a function
/// of the bytes, named `rustybuzz_units_per_em`, and that a value read is a
/// `u16` widened to `i32` (as rustybuzz widens ttf-parser's `u16`).
#[verifier::external_body]
pub(crate) fn face_units_per_em(data: &[u8]) -> (r: Option<i32>)
    ensures
        r == rustybuzz_units_per_em(data@),
        r matches Some(u) ==> 0 <= u <= 65535,
{
    match rustybuzz::Face::from_slice(data, 0) {
        Some(face) => Some(face.units_per_em()),
        None => None,
    }
}

/// The first font of `fonts` whose family is exactly `name`.
pub open spec fn font_named(fonts: Seq<Font>, name: Seq<char>) -> Option<Font>
    decreases fonts.len(),
{
    if fonts.len() == 0 {
        None
    } else if fonts[0].family@ == name {
        Some(fonts[0])
    } else {
        font_named(fonts.drop_first(), name)
    }
}

/// The font found for a family name is the first one of that family; none
/// is found only where no font has that family.
pub proof fn law_font_named_is_first_of_family(fonts: Seq<Font>, name: Seq<char>)
    ensures
        font_named(fonts, name) matches Some(f) ==> (f.family@ == name && exists|i: int|
            0 <= i < fonts.len() && #[trigger] fonts[i] == f && forall|j: int| 0 <= j < i ==> (#[trigger] fonts[j]).family@ != name),
        font_named(fonts, name) is None ==> forall|i: int| 0 <= i < fonts.len() ==> (#[trigger] fonts[i]).family@ != name,
    decreases fonts.len(),
{
    if fonts.len() > 0 {
        let rest = fonts.drop_first();
        law_font_named_is_first_of_family(rest, name);
        if fonts[0].family@ == name {
            assert(fonts[0] == fonts[0]);
        } else if font_named(rest, name) is Some {
            let f = font_named(rest, name)->0;
            let i = choose|i: int| 0 <= i < rest.len() && #[trigger] rest[i] == f && forall|j: int| 0 <= j < i ==> (#[trigger] rest[j]).family@ != name;
            assert(fonts[i + 1] == f);
            assert forall|j: int| 0 <= j < i + 1 implies (#[trigger] fonts[j]).family@ != name by {
                if j > 0 {
                    assert(fonts[j] == rest[j - 1]);
                }
            }
        } else {
            assert forall|i: int| 0 <= i < fonts.len() implies (#[trigger] fonts[i]).family@ != name by {
                if i > 0 {
                    assert(fonts[i] == rest[i - 1]);
                }
            }
        }
    }
}

impl Font {
    /// The font of family `name` among the available `fonts` (the first
    /// such), or a font error where there is none.
    pub fn get_font(name: &str, fonts: &Vec<Font>) -> (r: Result<Font, AppError>)
        ensures
            match r {
                Ok(f) => font_named(fonts@, name@) matches Some(g) && f.family@ == g.family@ && f.data@ == g.data@,
                Err(e) => font_named(fonts@, name@) is None && e == AppError::FontError(e->FontError_0) && e->FontError_0@ == "Font is not available."@,
            },
    {
        let mut i: usize = 0;
        assert(fonts@.skip(0) =~= fonts@);
        while i < fonts.len()
            invariant
                i <= fonts@.len(),
                font_named(fonts@, name@) == font_named(fonts@.skip(i as int), name@),
            decreases fonts@.len() - i,
        {
            if crate::text::str_equal(fonts[i].family.as_str(), name) {
                let f = &fonts[i];
                let family = f.family.clone();
                let mut data: Vec<u8> = Vec::new();
                let mut k: usize = 0;
                while k < f.data.len()
                    invariant
                        k <= f.data@.len(),
                        data@ == f.data@.take(k as int),
                    decreases f.data@.len() - k,
                {
                    data.push(f.data[k]);
                    k += 1;
                    assert(data@ =~= f.data@.take(k as int));
                }
                assert(data@ =~= f.data@);
                return Ok(Font { family, data });
            }
            assert(fonts@.skip(i as int).drop_first() =~= fonts@.skip(i + 1));
            i += 1;
        }
        Err(AppError::FontError(String::from_str("Font is not available.")))
    }

    /// The font's units per em, or a font error where its data does not
    /// parse.
    pub fn units_per_em(&self) -> (r: Result<i32, AppError>)
        ensures
            match r {
                Ok(u) => rustybuzz_units_per_em(self.data@) == Some(u),
                Err(e) => rustybuzz_units_per_em(self.data@) is None && e == AppError::FontError(e->FontError_0)
                    && e->FontError_0@ == "Invalid font"@,
            },
    {
        match face_units_per_em(self.data.as_slice()) {
            Some(u) => Ok(u),
            None => Err(AppError::FontError(String::from_str("Invalid font"))),
        }
    }
}

} // verus!
