use vstd::prelude::*;
use crate::size::{parse_size, quantized, size_in_range, size_text};

verus! {

/// What a font request resolves by: family, size, integer scale factor and style.
/// The size is held as a fixed-point integer, the point size times 64, so that two
/// equal sizes always compare and hash alike.
#[derive(Clone, Debug, Hash, PartialEq, Eq)]
pub struct FontIdentity {
    pub name: String,
    pub size_q: u32,
    pub scale: u16,
    pub bold: bool,
    pub italic: bool,
}

impl View for FontIdentity {
    type V = (Seq<char>, u32, u16, bool, bool);

    open spec fn view(&self) -> Self::V {
        (self.name@, self.size_q, self.scale, self.bold, self.italic)
    }
}

impl FontIdentity {
    pub fn new(name: String, size_q: u32, scale: u16, bold: bool, italic: bool) -> (r: FontIdentity)
        ensures
            r@ == (name@, size_q, scale, bold, italic),
    {
        FontIdentity { name, size_q, scale, bold, italic }
    }

    /// An identity whose size is given as decimal text; sizes that are equal as numbers
    /// give equal identities whatever their spelling. `None` where the text is not a size.
    pub fn with_size_text(name: String, size_text_in: &str, scale: u16, bold: bool, italic: bool) -> (r: Option<FontIdentity>)
        ensures
            r is Some ==> exists|w: Seq<char>, f: Seq<char>|
                size_text(size_text_in@, w, f) && size_in_range(w, f) && r->Some_0@ == (name@, quantized(w, f) as u32, scale, bold, italic),
            (exists|w: Seq<char>, f: Seq<char>| size_text(size_text_in@, w, f) && size_in_range(w, f)) ==> r is Some,
    {
        match parse_size(size_text_in) {
            Some(size_q) => Some(FontIdentity { name, size_q, scale, bold, italic }),
            None => None,
        }
    }

    /// A field-by-field copy.
    pub fn duplicate(&self) -> (r: FontIdentity)
        ensures
            r@ == self@,
    {
        FontIdentity {
            name: self.name.clone(),
            size_q: self.size_q,
            scale: self.scale,
            bold: self.bold,
            italic: self.italic,
        }
    }
}

/// The key of a shaping request: the text and the font identity it is shaped in.
#[derive(Clone, Debug, Hash, PartialEq, Eq)]
pub struct ShapeKey {
    pub text: String,
    pub font_key: FontIdentity,
}

impl View for ShapeKey {
    type V = (Seq<char>, (Seq<char>, u32, u16, bool, bool));

    open spec fn view(&self) -> Self::V {
        (self.text@, self.font_key@)
    }
}

/// The families a font identity resolved to, as handles of loaded fonts, in fallback
/// priority: the emoji fallback family first when it could be loaded, then the
/// requested family.
#[derive(Clone, Debug)]
pub struct FontCollectionEntry {
    pub families: Vec<u64>,
    pub has_fallback: bool,
}

impl View for FontCollectionEntry {
    type V = (Seq<u64>, bool);

    open spec fn view(&self) -> Self::V {
        (self.families@, self.has_fallback)
    }
}

/// Which of the two families of a collection failed to load.
#[derive(Clone, Copy, PartialEq, Eq, Debug)]
pub enum FontRole {
    Primary,
    Fallback,
}

/// A family that could not be located or loaded.
#[derive(Clone, Debug)]
pub struct FontLoadError {
    pub family: String,
    pub role: FontRole,
}

} // verus!
