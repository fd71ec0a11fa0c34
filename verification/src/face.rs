//! Block faces and sets of exposed faces.
//!
//! Every block has six faces.  A face is *exposed* when the neighbouring
//! cell in its outward direction holds no block; the set of exposed faces is
//! recomputed once, when a chunk is constructed, and stored on the block.

use vstd::prelude::*;

verus! {

/// One of the six faces of a block, named after its outward direction:
/// `Right`/`Left` are +x/-x, `Top`/`Bottom` are +y/-y, and `Front`/`Back`
/// are +z/-z.  The face also fixes the orientation of the quad an instance
/// renders: one of six principal-axis rotations.
#[derive(Clone, Copy, Debug, PartialEq, Eq, Structural)]
pub enum Face {
    Right,
    Left,
    Top,
    Bottom,
    Front,
    Back,
}

/// Set of faces over the six `Face` variants, stored as one flag per face.
#[derive(Clone, Copy, Debug, PartialEq, Eq, Structural)]
pub struct FaceSet {
    pub right: bool,
    pub left: bool,
    pub top: bool,
    pub bottom: bool,
    pub front: bool,
    pub back: bool,
}

impl FaceSet {
    /// Membership of one face in the set.
    pub open spec fn spec_contains(self, f: Face) -> bool {
        match f {
            Face::Right => self.right,
            Face::Left => self.left,
            Face::Top => self.top,
            Face::Bottom => self.bottom,
            Face::Front => self.front,
            Face::Back => self.back,
        }
    }

    /// The set with no face in it.
    pub fn empty() -> (s: FaceSet)
        ensures
            forall|f: Face| !s.spec_contains(f),
    {
        FaceSet { right: false, left: false, top: false, bottom: false, front: false, back: false }
    }

    /// Whether the given face is in the set.
    pub fn contains(&self, f: Face) -> (b: bool)
        ensures
            b == self.spec_contains(f),
    {
        match f {
            Face::Right => self.right,
            Face::Left => self.left,
            Face::Top => self.top,
            Face::Bottom => self.bottom,
            Face::Front => self.front,
            Face::Back => self.back,
        }
    }

    /// The set grown by one face.
    pub fn insert(self, f: Face) -> (s: FaceSet)
        ensures
            forall|g: Face| s.spec_contains(g) == (self.spec_contains(g) || g == f),
    {
        match f {
            Face::Right => FaceSet { right: true, ..self },
            Face::Left => FaceSet { left: true, ..self },
            Face::Top => FaceSet { top: true, ..self },
            Face::Bottom => FaceSet { bottom: true, ..self },
            Face::Front => FaceSet { front: true, ..self },
            Face::Back => FaceSet { back: true, ..self },
        }
    }

    /// Whether no face is in the set.
    pub fn is_empty(&self) -> (b: bool)
        ensures
            b == forall|f: Face| !self.spec_contains(f),
    {
        let b = !(self.right || self.left || self.top || self.bottom || self.front || self.back);
        proof {
            if b {
                assert forall|f: Face| !self.spec_contains(f) by {}
            } else {
                if self.right {
                    assert(self.spec_contains(Face::Right));
                } else if self.left {
                    assert(self.spec_contains(Face::Left));
                } else if self.top {
                    assert(self.spec_contains(Face::Top));
                } else if self.bottom {
                    assert(self.spec_contains(Face::Bottom));
                } else if self.front {
                    assert(self.spec_contains(Face::Front));
                } else {
                    assert(self.spec_contains(Face::Back));
                }
            }
        }
        b
    }
}

} // verus!
