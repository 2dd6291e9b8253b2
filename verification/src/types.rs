//! Types shared by the parser, the filter code and the scan planner.

use vstd::prelude::*;
use vstd::string::*;
use crate::text::{ascii_lowered, outcome, quoted, same_text, to_ascii_lowercase};

verus! {

/// A block coordinate.
#[derive(Clone, Copy, Debug, PartialEq, Eq, Structural)]
pub struct Int3 {
    pub x: i32,
    pub y: i32,
    pub z: i32,
}

/// One of the six world faces of a block.
#[derive(Clone, Copy, Debug, PartialEq, Eq, Structural)]
pub enum Face {
    Up,
    Down,
    North,
    South,
    East,
    West,
}

/// How the visible rotation of a filter row depends on the model index.
#[derive(Clone, Copy, Debug, PartialEq, Eq, Structural)]
pub enum RotationKind {
    /// A top or bottom face with four rotations.
    StandardFourWay,
    /// A side face of a mirrored block, with two states.
    StandardSide,
    /// One face of a netherrack block.
    Netherrack(Face),
}

impl RotationKind {
    /// The largest rotation that a row of this kind can ask for.
    pub open spec fn max_rotation(self) -> int {
        match self {
            RotationKind::StandardSide => 1,
            _ => 3,
        }
    }
}

/// One filter row: a block offset and the texture rotation seen there.
#[derive(Clone, Copy, Debug, PartialEq, Eq, Structural)]
pub struct RotationInfo {
    pub x: i8,
    pub y: i8,
    pub z: i8,
    pub rotation: u8,
    pub kind: RotationKind,
}

impl RotationInfo {
    /// The row asks for a rotation that its kind can show.
    pub open spec fn valid(self) -> bool {
        self.rotation <= self.kind.max_rotation()
    }

    /// An ordinary row; `side` selects the two-state side face.
    pub fn new(x: i8, y: i8, z: i8, rotation: u8, side: bool) -> (row: Self)
        ensures
            row == (RotationInfo {
                x,
                y,
                z,
                rotation,
                kind: if side {
                    RotationKind::StandardSide
                } else {
                    RotationKind::StandardFourWay
                },
            }),
    {
        let kind = if side {
            RotationKind::StandardSide
        } else {
            RotationKind::StandardFourWay
        };
        RotationInfo { x, y, z, rotation, kind }
    }

    /// A row for one face of a netherrack block.
    pub fn netherrack(x: i8, y: i8, z: i8, rotation: u8, face: Face) -> (row: Self)
        ensures
            row == (RotationInfo { x, y, z, rotation, kind: RotationKind::Netherrack(face) }),
    {
        RotationInfo { x, y, z, rotation, kind: RotationKind::Netherrack(face) }
    }
}

/// A coordinate whose block errors are within the tolerance.
#[derive(Clone, Copy, Debug, PartialEq, Eq, Structural)]
pub struct Match {
    pub x: i32,
    pub y: i32,
    pub z: i32,
    pub direction: i32,
    pub mismatches: i32,
}

/// The texture random function of a game or renderer version.
#[derive(Clone, Copy, Debug, PartialEq, Eq, Structural)]
pub enum TextureAlgorithm {
    Vanilla1,
    Vanilla2,
    Vanilla3,
    Sodium1,
    Sodium2,
}

/// The name of an algorithm.
pub open spec fn algorithm_name(algorithm: TextureAlgorithm) -> Seq<char> {
    match algorithm {
        TextureAlgorithm::Vanilla1 => "Vanilla-1"@,
        TextureAlgorithm::Vanilla2 => "Vanilla-2"@,
        TextureAlgorithm::Vanilla3 => "Vanilla-3"@,
        TextureAlgorithm::Sodium1 => "Sodium-1"@,
        TextureAlgorithm::Sodium2 => "Sodium-2"@,
    }
}

/// The algorithm that a text names, in letters of any case.
pub open spec fn algorithm_named(s: Seq<char>) -> Result<TextureAlgorithm, Seq<char>> {
    let name = ascii_lowered(s);
    if name == "vanilla-1"@ {
        Ok(TextureAlgorithm::Vanilla1)
    } else if name == "vanilla-2"@ {
        Ok(TextureAlgorithm::Vanilla2)
    } else if name == "vanilla-3"@ {
        Ok(TextureAlgorithm::Vanilla3)
    } else if name == "sodium-1"@ {
        Ok(TextureAlgorithm::Sodium1)
    } else if name == "sodium-2"@ {
        Ok(TextureAlgorithm::Sodium2)
    } else {
        Err("unknown algorithm '"@ + s + "'"@)
    }
}

impl TextureAlgorithm {
    /// Reads the name of an algorithm.
    pub fn from_str(value: &str) -> (result: Result<TextureAlgorithm, String>)
        ensures
            outcome(result) == algorithm_named(value@),
    {
        let lower: String = to_ascii_lowercase(value);
        let name: &str = lower.as_str();
        if same_text(name, "vanilla-1") {
            Ok(TextureAlgorithm::Vanilla1)
        } else if same_text(name, "vanilla-2") {
            Ok(TextureAlgorithm::Vanilla2)
        } else if same_text(name, "vanilla-3") {
            Ok(TextureAlgorithm::Vanilla3)
        } else if same_text(name, "sodium-1") {
            Ok(TextureAlgorithm::Sodium1)
        } else if same_text(name, "sodium-2") {
            Ok(TextureAlgorithm::Sodium2)
        } else {
            Err(quoted("unknown algorithm '", value))
        }
    }

    /// Returns the name of the algorithm.
    pub fn name(self) -> (name: String)
        ensures
            name@ == algorithm_name(self),
    {
        match self {
            TextureAlgorithm::Vanilla1 => "Vanilla-1".to_owned(),
            TextureAlgorithm::Vanilla2 => "Vanilla-2".to_owned(),
            TextureAlgorithm::Vanilla3 => "Vanilla-3".to_owned(),
            TextureAlgorithm::Sodium1 => "Sodium-1".to_owned(),
            TextureAlgorithm::Sodium2 => "Sodium-2".to_owned(),
        }
    }
}

/// The name of every algorithm is read back as that algorithm.
pub proof fn law_algorithm_names_round_trip(algorithm: TextureAlgorithm)
    ensures
        algorithm_named(algorithm_name(algorithm)) == Ok::<TextureAlgorithm, Seq<char>>(algorithm),
{
    reveal_strlit("Vanilla-1");
    reveal_strlit("Vanilla-2");
    reveal_strlit("Vanilla-3");
    reveal_strlit("Sodium-1");
    reveal_strlit("Sodium-2");
    reveal_strlit("vanilla-1");
    reveal_strlit("vanilla-2");
    reveal_strlit("vanilla-3");
    reveal_strlit("sodium-1");
    reveal_strlit("sodium-2");
    let name = ascii_lowered(algorithm_name(algorithm));
    match algorithm {
        TextureAlgorithm::Vanilla1 => {
            assert(name =~= "vanilla-1"@);
        },
        TextureAlgorithm::Vanilla2 => {
            assert(name =~= "vanilla-2"@);
            assert("vanilla-2"@[8] != "vanilla-1"@[8]);
        },
        TextureAlgorithm::Vanilla3 => {
            assert(name =~= "vanilla-3"@);
            assert("vanilla-3"@[8] != "vanilla-1"@[8]);
            assert("vanilla-3"@[8] != "vanilla-2"@[8]);
        },
        TextureAlgorithm::Sodium1 => {
            assert(name =~= "sodium-1"@);
            assert("sodium-1"@[0] != "vanilla-1"@[0]);
        },
        TextureAlgorithm::Sodium2 => {
            assert(name =~= "sodium-2"@);
            assert("sodium-2"@[0] != "vanilla-1"@[0]);
            assert("sodium-2"@[7] != "sodium-1"@[7]);
        },
    }
}

} // verus!
