//! The names that the Particles XML format gives to curve, field and
//! emitter types, and the numbers the compiled format stores for them.
use vstd::prelude::*;
use crate::text::str_eq;

verus! {

/// The curve a name denotes.
pub open spec fn curve_of(name: Seq<char>) -> Option<i32> {
    if name == "Linear"@ {
        Some(1)
    } else if name == "EaseIn"@ {
        Some(2)
    } else if name == "EaseOut"@ {
        Some(3)
    } else if name == "EaseSinWave"@ {
        Some(4)
    } else if name == "EaseInOutWeak"@ {
        Some(5)
    } else if name == "Bounce"@ {
        Some(6)
    } else {
        None
    }
}

/// The name written for a curve; none for the default (linear) and for
/// unknown curves.
pub open spec fn curve_name(id: i32) -> Option<Seq<char>> {
    if id == 2 {
        Some("EaseIn"@)
    } else if id == 3 {
        Some("EaseOut"@)
    } else if id == 4 {
        Some("EaseSinWave"@)
    } else if id == 5 {
        Some("EaseInOutWeak"@)
    } else if id == 6 {
        Some("Bounce"@)
    } else {
        None
    }
}

/// The field type a name denotes; unknown names denote `Position` (0).
pub open spec fn field_type_of(name: Seq<char>) -> i32 {
    if name == "Velocity"@ {
        1
    } else if name == "Acceleration"@ {
        2
    } else if name == "Friction"@ {
        3
    } else if name == "Shake"@ {
        4
    } else if name == "Circle"@ {
        5
    } else if name == "Away"@ {
        6
    } else if name == "GroundConstraint"@ {
        7
    } else if name == "SystemPosition"@ {
        8
    } else {
        0
    }
}

/// The name of a field type; unknown types are named `Position`.
pub open spec fn field_type_name(id: i32) -> Seq<char> {
    if id == 1 {
        "Velocity"@
    } else if id == 2 {
        "Acceleration"@
    } else if id == 3 {
        "Friction"@
    } else if id == 4 {
        "Shake"@
    } else if id == 5 {
        "Circle"@
    } else if id == 6 {
        "Away"@
    } else if id == 7 {
        "GroundConstraint"@
    } else if id == 8 {
        "SystemPosition"@
    } else {
        "Position"@
    }
}

/// The emitter type a name denotes; unknown names denote the default (0).
pub open spec fn emitter_type_of(name: Seq<char>) -> i32 {
    if name == "Circle"@ {
        1
    } else if name == "Box"@ {
        2
    } else if name == "CircleEvenSpacing"@ {
        3
    } else {
        0
    }
}

/// The name written for an emitter type; none for the default and for
/// unknown types.
pub open spec fn emitter_type_name(id: i32) -> Option<Seq<char>> {
    if id == 1 {
        Some("Circle"@)
    } else if id == 2 {
        Some("Box"@)
    } else if id == 3 {
        Some("CircleEvenSpacing"@)
    } else {
        None
    }
}

pub fn curve_name_to_id(name: &str) -> (r: Option<i32>)
    ensures
        r == curve_of(name@),
{
    if str_eq(name, "Linear") {
        Some(1)
    } else if str_eq(name, "EaseIn") {
        Some(2)
    } else if str_eq(name, "EaseOut") {
        Some(3)
    } else if str_eq(name, "EaseSinWave") {
        Some(4)
    } else if str_eq(name, "EaseInOutWeak") {
        Some(5)
    } else if str_eq(name, "Bounce") {
        Some(6)
    } else {
        None
    }
}

pub fn curve_id_to_name(id: i32) -> (r: Option<&'static str>)
    ensures
        match r {
            Some(s) => curve_name(id) == Some(s@),
            None => curve_name(id) is None,
        },
{
    match id {
        2 => Some("EaseIn"),
        3 => Some("EaseOut"),
        4 => Some("EaseSinWave"),
        5 => Some("EaseInOutWeak"),
        6 => Some("Bounce"),
        _ => None,
    }
}

pub fn field_type_name_to_id(name: &str) -> (r: i32)
    ensures
        r == field_type_of(name@),
{
    if str_eq(name, "Velocity") {
        1
    } else if str_eq(name, "Acceleration") {
        2
    } else if str_eq(name, "Friction") {
        3
    } else if str_eq(name, "Shake") {
        4
    } else if str_eq(name, "Circle") {
        5
    } else if str_eq(name, "Away") {
        6
    } else if str_eq(name, "GroundConstraint") {
        7
    } else if str_eq(name, "SystemPosition") {
        8
    } else {
        0
    }
}

pub fn field_type_id_to_name(id: i32) -> (r: &'static str)
    ensures
        r@ == field_type_name(id),
{
    match id {
        1 => "Velocity",
        2 => "Acceleration",
        3 => "Friction",
        4 => "Shake",
        5 => "Circle",
        6 => "Away",
        7 => "GroundConstraint",
        8 => "SystemPosition",
        _ => "Position",
    }
}

pub fn emitter_type_name_to_id(name: &str) -> (r: i32)
    ensures
        r == emitter_type_of(name@),
{
    if str_eq(name, "Circle") {
        1
    } else if str_eq(name, "Box") {
        2
    } else if str_eq(name, "CircleEvenSpacing") {
        3
    } else {
        0
    }
}

pub fn emitter_type_id_to_name(id: i32) -> (r: Option<&'static str>)
    ensures
        match r {
            Some(s) => emitter_type_name(id) == Some(s@),
            None => emitter_type_name(id) is None,
        },
{
    match id {
        1 => Some("Circle"),
        2 => Some("Box"),
        3 => Some("CircleEvenSpacing"),
        _ => None,
    }
}

/// Every named curve reads back from its name.
pub proof fn lemma_curve_names(id: i32)
    requires
        2 <= id <= 6,
    ensures
        curve_name(id) matches Some(n) && curve_of(n) == Some(id),
{
    reveal_strlit("Linear");
    reveal_strlit("EaseIn");
    reveal_strlit("EaseOut");
    reveal_strlit("EaseSinWave");
    reveal_strlit("EaseInOutWeak");
    reveal_strlit("Bounce");
    assert("Linear"@.len() == 6 && "EaseIn"@.len() == 6 && "EaseOut"@.len() == 7);
    assert("EaseSinWave"@.len() == 11 && "EaseInOutWeak"@.len() == 13 && "Bounce"@.len() == 6);
    assert("EaseIn"@[0] != "Linear"@[0]);
    assert("Bounce"@[0] != "Linear"@[0]);
    assert("Bounce"@[0] != "EaseIn"@[0]);
}

/// Every field type reads back from its name.
pub proof fn lemma_field_type_names(id: i32)
    requires
        0 <= id <= 8,
    ensures
        field_type_of(field_type_name(id)) == id,
{
    reveal_strlit("Position");
    reveal_strlit("Velocity");
    reveal_strlit("Acceleration");
    reveal_strlit("Friction");
    reveal_strlit("Shake");
    reveal_strlit("Circle");
    reveal_strlit("Away");
    reveal_strlit("GroundConstraint");
    reveal_strlit("SystemPosition");
    assert("Position"@.len() == 8 && "Velocity"@.len() == 8 && "Acceleration"@.len() == 12);
    assert("Friction"@.len() == 8 && "Shake"@.len() == 5 && "Circle"@.len() == 6 && "Away"@.len() == 4);
    assert("GroundConstraint"@.len() == 16 && "SystemPosition"@.len() == 14);
    assert("Position"@[0] != "Velocity"@[0]);
    assert("Position"@[0] != "Friction"@[0]);
    assert("Friction"@[0] != "Velocity"@[0]);
}

/// Every named emitter type reads back from its name.
pub proof fn lemma_emitter_type_names(id: i32)
    requires
        1 <= id <= 3,
    ensures
        emitter_type_name(id) matches Some(n) && emitter_type_of(n) == id,
{
    reveal_strlit("Circle");
    reveal_strlit("Box");
    reveal_strlit("CircleEvenSpacing");
    assert("Circle"@.len() == 6);
    assert("Box"@.len() == 3);
    assert("CircleEvenSpacing"@.len() == 17);
}

} // verus!
