use vstd::prelude::*;

verus! {

/// One of the six axis-aligned directions a face of a block can point to.
#[derive(Copy, Clone, Debug, PartialEq, Eq, Structural)]
pub enum FaceOrientation {
    YPlus,
    YMinus,
    XPlus,
    XMinus,
    ZPlus,
    ZMinus,
}

/// The numeric code of each orientation, as stored in a face record.
pub open spec fn orientation_code(o: FaceOrientation) -> u8 {
    match o {
        FaceOrientation::YPlus => 0,
        FaceOrientation::YMinus => 1,
        FaceOrientation::XPlus => 2,
        FaceOrientation::XMinus => 3,
        FaceOrientation::ZPlus => 4,
        FaceOrientation::ZMinus => 5,
    }
}

/// The orientation that a code stands for; codes of six and above stand for none.
pub open spec fn orientation_of_code(c: u8) -> Option<FaceOrientation> {
    if c == 0 {
        Some(FaceOrientation::YPlus)
    } else if c == 1 {
        Some(FaceOrientation::YMinus)
    } else if c == 2 {
        Some(FaceOrientation::XPlus)
    } else if c == 3 {
        Some(FaceOrientation::XMinus)
    } else if c == 4 {
        Some(FaceOrientation::ZPlus)
    } else if c == 5 {
        Some(FaceOrientation::ZMinus)
    } else {
        None
    }
}

/// The direction pointing the other way along the same axis.
pub open spec fn opposite_of(o: FaceOrientation) -> FaceOrientation {
    match o {
        FaceOrientation::YPlus => FaceOrientation::YMinus,
        FaceOrientation::YMinus => FaceOrientation::YPlus,
        FaceOrientation::XPlus => FaceOrientation::XMinus,
        FaceOrientation::XMinus => FaceOrientation::XPlus,
        FaceOrientation::ZPlus => FaceOrientation::ZMinus,
        FaceOrientation::ZMinus => FaceOrientation::ZPlus,
    }
}

/// The unit offset of a direction, as (dx, dy, dz).
pub open spec fn offset_of(o: FaceOrientation) -> (int, int, int) {
    match o {
        FaceOrientation::YPlus => (0, 1, 0),
        FaceOrientation::YMinus => (0, -1, 0),
        FaceOrientation::XPlus => (1, 0, 0),
        FaceOrientation::XMinus => (-1, 0, 0),
        FaceOrientation::ZPlus => (0, 0, 1),
        FaceOrientation::ZMinus => (0, 0, -1),
    }
}

/// The cell next to (x, y, z) in direction o.
pub open spec fn step_toward(x: int, y: int, z: int, o: FaceOrientation) -> (int, int, int) {
    (x + offset_of(o).0, y + offset_of(o).1, z + offset_of(o).2)
}

pub proof fn lemma_code_round_trip(o: FaceOrientation)
    ensures
        orientation_of_code(orientation_code(o)) == Some(o),
        orientation_code(o) < 6,
{
}

pub proof fn lemma_opposite_involution(o: FaceOrientation)
    ensures
        opposite_of(opposite_of(o)) == o,
        opposite_of(o) != o,
        step_toward(
            step_toward(0, 0, 0, o).0,
            step_toward(0, 0, 0, o).1,
            step_toward(0, 0, 0, o).2,
            opposite_of(o),
        ) == (0int, 0int, 0int),
{
}

impl FaceOrientation {
    /// The numeric code of this orientation.
    pub fn code(&self) -> (r: u8)
        ensures
            r == orientation_code(*self),
    {
        match self {
            FaceOrientation::YPlus => 0,
            FaceOrientation::YMinus => 1,
            FaceOrientation::XPlus => 2,
            FaceOrientation::XMinus => 3,
            FaceOrientation::ZPlus => 4,
            FaceOrientation::ZMinus => 5,
        }
    }

    /// The orientation with the given code, if the code names one.
    pub fn from_u8(c: u8) -> (r: Option<FaceOrientation>)
        ensures
            r == orientation_of_code(c),
    {
        if c == 0 {
            Some(FaceOrientation::YPlus)
        } else if c == 1 {
            Some(FaceOrientation::YMinus)
        } else if c == 2 {
            Some(FaceOrientation::XPlus)
        } else if c == 3 {
            Some(FaceOrientation::XMinus)
        } else if c == 4 {
            Some(FaceOrientation::ZPlus)
        } else if c == 5 {
            Some(FaceOrientation::ZMinus)
        } else {
            None
        }
    }

    /// True for the four horizontal directions.
    pub fn is_side(&self) -> (r: bool)
        ensures
            r == (orientation_code(*self) > 1),
    {
        self.code() > 1
    }

    /// The direction pointing the other way.
    pub fn opposite(&self) -> (r: FaceOrientation)
        ensures
            r == opposite_of(*self),
    {
        match self {
            FaceOrientation::YPlus => FaceOrientation::YMinus,
            FaceOrientation::YMinus => FaceOrientation::YPlus,
            FaceOrientation::XPlus => FaceOrientation::XMinus,
            FaceOrientation::XMinus => FaceOrientation::XPlus,
            FaceOrientation::ZPlus => FaceOrientation::ZMinus,
            FaceOrientation::ZMinus => FaceOrientation::ZPlus,
        }
    }
}

} // verus!
