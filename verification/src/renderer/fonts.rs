//! The font families that a terminal can use.

use vstd::prelude::*;
use crate::text;

verus! {

/// A face of an installed font.
#[derive(Debug)]
pub struct FontFace {
    pub monospaced: bool,
    /// The names of its family, the preferred one first.
    pub families: Vec<String>,
}

/// What a `FontFace` holds.
#[verifier::ext_equal]
pub struct FaceView {
    pub monospaced: bool,
    pub families: Seq<Seq<char>>,
}

impl View for FontFace {
    type V = FaceView;

    open spec fn view(&self) -> FaceView {
        FaceView { monospaced: self.monospaced, families: text::texts(self.families@) }
    }
}

/// What a list of faces holds.
pub open spec fn face_views(faces: Seq<FontFace>) -> Seq<FaceView> {
    faces.map_values(|face: FontFace| face@)
}

/// Whether a name is the preferred family name of a face whose characters are
/// equally wide.
pub open spec fn names_monospaced(faces: Seq<FaceView>, name: Seq<char>) -> bool {
    exists|i: int|
        0 <= i < faces.len() && (#[trigger] faces[i]).monospaced && faces[i].families.len() > 0
            && faces[i].families[0] == name
}

/// The preferred family names of the faces whose characters are equally wide, in
/// order, each once.
pub fn monospace_families(faces: &Vec<FontFace>) -> (families: Vec<String>)
    ensures
        text::strictly_sorted(text::texts(families@)),
        forall|name: Seq<char>| #[trigger]
            text::texts(families@).contains(name) <==> names_monospaced(face_views(faces@), name),
{
    let ghost all = face_views(faces@);
    let mut families: Vec<String> = Vec::new();
    let mut index: usize = 0;
    while index < faces.len()
        invariant
            index <= faces@.len(),
            all == face_views(faces@),
            text::strictly_sorted(text::texts(families@)),
            forall|name: Seq<char>| #[trigger]
                text::texts(families@).contains(name) <==> names_monospaced(
                    all.take(index as int),
                    name,
                ),
        decreases faces.len() - index,
    {
        let face: &FontFace = &faces[index];
        let ghost before = text::texts(families@);
        let ghost taken = all.take(index as int);
        let ghost more = all.take(index + 1);
        proof {
            assert(more == taken.push(face@));
            assert(face@.families.len() == face.families@.len());
        }
        let named = face.monospaced && face.families.len() > 0;
        if named {
            text::insert_sorted(&mut families, face.families[0].clone());
        }
        proof {
            assert forall|name: Seq<char>| #[trigger]
                text::texts(families@).contains(name) <==> names_monospaced(more, name) by {
                assert(before.contains(name) <==> names_monospaced(taken, name));
                if names_monospaced(taken, name) {
                    let i = choose|i: int|
                        0 <= i < taken.len() && (#[trigger] taken[i]).monospaced
                            && taken[i].families.len() > 0 && taken[i].families[0] == name;
                    assert(more[i] == taken[i]);
                }
                if names_monospaced(more, name) {
                    let i = choose|i: int|
                        0 <= i < more.len() && (#[trigger] more[i]).monospaced
                            && more[i].families.len() > 0 && more[i].families[0] == name;
                    if i < taken.len() {
                        assert(taken[i] == more[i]);
                    }
                }
                if named {
                    assert(more[taken.len() as int] == face@);
                    assert(face@.families[0] == face.families@[0]@);
                }
            }
        }
        index += 1;
    }
    assert(all.take(index as int) == all);
    families
}

/// A family is offered for the preferred name of a face with equally wide characters,
/// and never for a face with others or for one of its further names alone.
pub proof fn only_preferred_names_are_offered(faces: Seq<FaceView>, place: int, name: Seq<char>)
    requires
        0 <= place < faces.len(),
    ensures
        faces[place].monospaced && faces[place].families.len() > 0 ==> names_monospaced(
            faces,
            faces[place].families[0],
        ),
        (forall|i: int|
            0 <= i < faces.len() && (#[trigger] faces[i]).monospaced ==> faces[i].families.len()
                == 0 || faces[i].families[0] != name) ==> !names_monospaced(faces, name),
{
}

} // verus!
