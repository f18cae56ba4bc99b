use vstd::prelude::*;

use crate::utils::{all_upper, is_sentence, is_upper, pascal_to_sentence_ascii, spaced_lower};

verus! {

/// The sprite an entity is drawn with; it also tells what kind of object the entity is.
#[derive(Clone, Copy, PartialEq, Eq, Hash, Debug, Structural)]
pub enum SpriteID {
    Player,
    DoorLocked,
    DoorUnlocked,
    WallHorizontal,
    WallHorizontalLeftEdge,
    WallHorizontalRightEdge,
    WallLeftLowerCorner,
    WallLeftUpperCorner,
    WallRightLowerCorner,
    WallRightUpperCorner,
    WallVertical,
    PressurePlate,
    Crate,
    Saw,
    Fireball,
    FireballThrower,
    WallVerticalLeftSplit,
    WallVerticalRightSplit,
    WallHorizontalUpperSplit,
    WallHorizontalLowerSplit,
    WallVerticalTopEdge,
    WallVerticalBottomEdge,
    DownstairsHorizontalUpper,
}

/// Shader materials.
#[derive(Clone, Copy, PartialEq, Eq, Hash, Debug, Structural)]
pub enum MaterialID {
    CRT,
}

/// Sound effects.
#[derive(Clone, Copy, PartialEq, Eq, Hash, Debug, Structural)]
pub enum SoundID {
    Lock,
    Unlock,
    DoorOpen,
    LevelFinished,
    Death,
}

/// Behaviour scripts attached to entities.
#[derive(Clone, Copy, PartialEq, Eq, Hash, Debug, Structural)]
pub enum ScriptID {
    Fireball,
    FireballThrower,
    PressurePlate,
    Door,
    Saw,
    Downstairs,
}

/// Whether a sprite is one of the wall pieces.
pub open spec fn is_wall_sprite(id: SpriteID) -> bool {
    match id {
        SpriteID::WallHorizontal | SpriteID::WallHorizontalLeftEdge
        | SpriteID::WallHorizontalRightEdge | SpriteID::WallLeftLowerCorner
        | SpriteID::WallLeftUpperCorner | SpriteID::WallRightLowerCorner
        | SpriteID::WallRightUpperCorner | SpriteID::WallVertical
        | SpriteID::WallVerticalLeftSplit | SpriteID::WallVerticalRightSplit
        | SpriteID::WallHorizontalUpperSplit | SpriteID::WallHorizontalLowerSplit
        | SpriteID::WallVerticalTopEdge | SpriteID::WallVerticalBottomEdge => true,
        _ => false,
    }
}

/// Whether a sprite is one of the wall pieces.
pub fn sprite_is_wall(id: SpriteID) -> (r: bool)
    ensures
        r == is_wall_sprite(id),
{
    match id {
        SpriteID::WallHorizontal | SpriteID::WallHorizontalLeftEdge
        | SpriteID::WallHorizontalRightEdge | SpriteID::WallLeftLowerCorner
        | SpriteID::WallLeftUpperCorner | SpriteID::WallRightLowerCorner
        | SpriteID::WallRightUpperCorner | SpriteID::WallVertical
        | SpriteID::WallVerticalLeftSplit | SpriteID::WallVerticalRightSplit
        | SpriteID::WallHorizontalUpperSplit | SpriteID::WallHorizontalLowerSplit
        | SpriteID::WallVerticalTopEdge | SpriteID::WallVerticalBottomEdge => true,
        _ => false,
    }
}


/// The name of a sprite, as written in its declaration.
pub open spec fn sprite_name(id: SpriteID) -> Seq<char> {
    match id {
        SpriteID::Player => "Player"@,
        SpriteID::DoorLocked => "DoorLocked"@,
        SpriteID::DoorUnlocked => "DoorUnlocked"@,
        SpriteID::WallHorizontal => "WallHorizontal"@,
        SpriteID::WallHorizontalLeftEdge => "WallHorizontalLeftEdge"@,
        SpriteID::WallHorizontalRightEdge => "WallHorizontalRightEdge"@,
        SpriteID::WallLeftLowerCorner => "WallLeftLowerCorner"@,
        SpriteID::WallLeftUpperCorner => "WallLeftUpperCorner"@,
        SpriteID::WallRightLowerCorner => "WallRightLowerCorner"@,
        SpriteID::WallRightUpperCorner => "WallRightUpperCorner"@,
        SpriteID::WallVertical => "WallVertical"@,
        SpriteID::PressurePlate => "PressurePlate"@,
        SpriteID::Crate => "Crate"@,
        SpriteID::Saw => "Saw"@,
        SpriteID::Fireball => "Fireball"@,
        SpriteID::FireballThrower => "FireballThrower"@,
        SpriteID::WallVerticalLeftSplit => "WallVerticalLeftSplit"@,
        SpriteID::WallVerticalRightSplit => "WallVerticalRightSplit"@,
        SpriteID::WallHorizontalUpperSplit => "WallHorizontalUpperSplit"@,
        SpriteID::WallHorizontalLowerSplit => "WallHorizontalLowerSplit"@,
        SpriteID::WallVerticalTopEdge => "WallVerticalTopEdge"@,
        SpriteID::WallVerticalBottomEdge => "WallVerticalBottomEdge"@,
        SpriteID::DownstairsHorizontalUpper => "DownstairsHorizontalUpper"@,
    }
}

/// Sprite names are plain ASCII words in `PascalCase`.
pub proof fn lemma_sprite_name_is_pascal_word(id: SpriteID)
    ensures
        vstd::utf8::is_ascii_chars(sprite_name(id)),
        !is_sentence(sprite_name(id)),
        !all_upper(sprite_name(id)),
{
    match id {
        SpriteID::Player => {
            reveal_strlit("Player");
            assert(!is_upper("Player"@[1]));
        },
        SpriteID::DoorLocked => {
            reveal_strlit("DoorLocked");
            assert(!is_upper("DoorLocked"@[1]));
        },
        SpriteID::DoorUnlocked => {
            reveal_strlit("DoorUnlocked");
            assert(!is_upper("DoorUnlocked"@[1]));
        },
        SpriteID::WallHorizontal => {
            reveal_strlit("WallHorizontal");
            assert(!is_upper("WallHorizontal"@[1]));
        },
        SpriteID::WallHorizontalLeftEdge => {
            reveal_strlit("WallHorizontalLeftEdge");
            assert(!is_upper("WallHorizontalLeftEdge"@[1]));
        },
        SpriteID::WallHorizontalRightEdge => {
            reveal_strlit("WallHorizontalRightEdge");
            assert(!is_upper("WallHorizontalRightEdge"@[1]));
        },
        SpriteID::WallLeftLowerCorner => {
            reveal_strlit("WallLeftLowerCorner");
            assert(!is_upper("WallLeftLowerCorner"@[1]));
        },
        SpriteID::WallLeftUpperCorner => {
            reveal_strlit("WallLeftUpperCorner");
            assert(!is_upper("WallLeftUpperCorner"@[1]));
        },
        SpriteID::WallRightLowerCorner => {
            reveal_strlit("WallRightLowerCorner");
            assert(!is_upper("WallRightLowerCorner"@[1]));
        },
        SpriteID::WallRightUpperCorner => {
            reveal_strlit("WallRightUpperCorner");
            assert(!is_upper("WallRightUpperCorner"@[1]));
        },
        SpriteID::WallVertical => {
            reveal_strlit("WallVertical");
            assert(!is_upper("WallVertical"@[1]));
        },
        SpriteID::PressurePlate => {
            reveal_strlit("PressurePlate");
            assert(!is_upper("PressurePlate"@[1]));
        },
        SpriteID::Crate => {
            reveal_strlit("Crate");
            assert(!is_upper("Crate"@[1]));
        },
        SpriteID::Saw => {
            reveal_strlit("Saw");
            assert(!is_upper("Saw"@[1]));
        },
        SpriteID::Fireball => {
            reveal_strlit("Fireball");
            assert(!is_upper("Fireball"@[1]));
        },
        SpriteID::FireballThrower => {
            reveal_strlit("FireballThrower");
            assert(!is_upper("FireballThrower"@[1]));
        },
        SpriteID::WallVerticalLeftSplit => {
            reveal_strlit("WallVerticalLeftSplit");
            assert(!is_upper("WallVerticalLeftSplit"@[1]));
        },
        SpriteID::WallVerticalRightSplit => {
            reveal_strlit("WallVerticalRightSplit");
            assert(!is_upper("WallVerticalRightSplit"@[1]));
        },
        SpriteID::WallHorizontalUpperSplit => {
            reveal_strlit("WallHorizontalUpperSplit");
            assert(!is_upper("WallHorizontalUpperSplit"@[1]));
        },
        SpriteID::WallHorizontalLowerSplit => {
            reveal_strlit("WallHorizontalLowerSplit");
            assert(!is_upper("WallHorizontalLowerSplit"@[1]));
        },
        SpriteID::WallVerticalTopEdge => {
            reveal_strlit("WallVerticalTopEdge");
            assert(!is_upper("WallVerticalTopEdge"@[1]));
        },
        SpriteID::WallVerticalBottomEdge => {
            reveal_strlit("WallVerticalBottomEdge");
            assert(!is_upper("WallVerticalBottomEdge"@[1]));
        },
        SpriteID::DownstairsHorizontalUpper => {
            reveal_strlit("DownstairsHorizontalUpper");
            assert(!is_upper("DownstairsHorizontalUpper"@[1]));
        },
    }
}

impl SpriteID {
    /// The sprite's name.
    pub fn name(self) -> (r: &'static str)
        ensures
            r@ == sprite_name(self),
    {
        match self {
            SpriteID::Player => "Player",
            SpriteID::DoorLocked => "DoorLocked",
            SpriteID::DoorUnlocked => "DoorUnlocked",
            SpriteID::WallHorizontal => "WallHorizontal",
            SpriteID::WallHorizontalLeftEdge => "WallHorizontalLeftEdge",
            SpriteID::WallHorizontalRightEdge => "WallHorizontalRightEdge",
            SpriteID::WallLeftLowerCorner => "WallLeftLowerCorner",
            SpriteID::WallLeftUpperCorner => "WallLeftUpperCorner",
            SpriteID::WallRightLowerCorner => "WallRightLowerCorner",
            SpriteID::WallRightUpperCorner => "WallRightUpperCorner",
            SpriteID::WallVertical => "WallVertical",
            SpriteID::PressurePlate => "PressurePlate",
            SpriteID::Crate => "Crate",
            SpriteID::Saw => "Saw",
            SpriteID::Fireball => "Fireball",
            SpriteID::FireballThrower => "FireballThrower",
            SpriteID::WallVerticalLeftSplit => "WallVerticalLeftSplit",
            SpriteID::WallVerticalRightSplit => "WallVerticalRightSplit",
            SpriteID::WallHorizontalUpperSplit => "WallHorizontalUpperSplit",
            SpriteID::WallHorizontalLowerSplit => "WallHorizontalLowerSplit",
            SpriteID::WallVerticalTopEdge => "WallVerticalTopEdge",
            SpriteID::WallVerticalBottomEdge => "WallVerticalBottomEdge",
            SpriteID::DownstairsHorizontalUpper => "DownstairsHorizontalUpper",
        }
    }

    /// The sprite's name as words, e.g. "Pressure plate".
    pub fn humanize(self) -> (r: String)
        ensures
            r@ == spaced_lower(sprite_name(self)),
    {
        proof {
            lemma_sprite_name_is_pascal_word(self);
        }
        match pascal_to_sentence_ascii(self.name()) {
            Some(text) => text,
            None => String::new(),
        }
    }
}

} // verus!
