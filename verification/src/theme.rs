//! The looks on offer, and how a full context is coloured.

use vstd::prelude::*;
use crate::models::{percent_of, Share, Tone};
use crate::text::{decimal, decimal_text, equal};

verus! {

#[derive(Clone, Copy, PartialEq, Eq, Structural, Debug)]
pub enum SkinKind {
    Haiku,
    Material,
    EguiDefault,
}

impl Default for SkinKind {
    fn default() -> (r: Self)
        ensures
            r == SkinKind::Haiku,
    {
        SkinKind::Haiku
    }
}

pub open spec fn skin_label(k: SkinKind) -> Seq<char> {
    match k {
        SkinKind::Haiku => "Haiku"@,
        SkinKind::Material => "Material"@,
        SkinKind::EguiDefault => "egui default"@,
    }
}

pub open spec fn skin_id(k: SkinKind) -> Seq<char> {
    match k {
        SkinKind::Haiku => "haiku"@,
        SkinKind::Material => "material"@,
        SkinKind::EguiDefault => "egui"@,
    }
}

/// The look that an id names; the native one where it names none.
pub open spec fn skin_of(id: Seq<char>) -> SkinKind {
    if id == "egui"@ {
        SkinKind::EguiDefault
    } else if id == "material"@ {
        SkinKind::Material
    } else {
        SkinKind::Haiku
    }
}

/// The number that a look is kept under.
pub open spec fn skin_code(k: SkinKind) -> u8 {
    match k {
        SkinKind::Haiku => 0,
        SkinKind::EguiDefault => 1,
        SkinKind::Material => 2,
    }
}

/// The look that is kept under a number.
pub open spec fn skin_at(code: u8) -> SkinKind {
    if code == 1 {
        SkinKind::EguiDefault
    } else if code == 2 {
        SkinKind::Material
    } else {
        SkinKind::Haiku
    }
}

impl SkinKind {
    /// Every look on offer.
    pub fn all() -> (r: Vec<SkinKind>)
        ensures
            r@ == seq![SkinKind::Haiku, SkinKind::Material, SkinKind::EguiDefault],
    {
        let v: Vec<SkinKind> = vec![SkinKind::Haiku, SkinKind::Material, SkinKind::EguiDefault];
        assert(v@ =~= seq![SkinKind::Haiku, SkinKind::Material, SkinKind::EguiDefault]);
        v
    }

    pub fn label(self) -> (r: &'static str)
        ensures
            r@ == skin_label(self),
    {
        match self {
            SkinKind::Haiku => "Haiku",
            SkinKind::Material => "Material",
            SkinKind::EguiDefault => "egui default",
        }
    }

    /// The name under which the look is stored.
    pub fn id(self) -> (r: &'static str)
        ensures
            r@ == skin_id(self),
    {
        match self {
            SkinKind::Haiku => "haiku",
            SkinKind::Material => "material",
            SkinKind::EguiDefault => "egui",
        }
    }

    pub fn from_id(id: &str) -> (r: Self)
        ensures
            r == skin_of(id@),
    {
        if equal(id, "egui") {
            SkinKind::EguiDefault
        } else if equal(id, "material") {
            SkinKind::Material
        } else {
            SkinKind::Haiku
        }
    }
}

/// The look that is kept under a number.
pub fn kind(code: u8) -> (r: SkinKind)
    ensures
        r == skin_at(code),
{
    match code {
        1 => SkinKind::EguiDefault,
        2 => SkinKind::Material,
        _ => SkinKind::Haiku,
    }
}

/// The number that a look is kept under.
pub fn set_kind(kind: SkinKind) -> (r: u8)
    ensures
        r == skin_code(kind),
{
    match kind {
        SkinKind::Haiku => 0,
        SkinKind::EguiDefault => 1,
        SkinKind::Material => 2,
    }
}

/// A look that was stored, under its id or under its number, is the look that
/// comes back.
pub proof fn law_skin_round_trips(k: SkinKind)
    ensures
        skin_of(skin_id(k)) == k,
        skin_at(skin_code(k)) == k,
{
    reveal_strlit("haiku");
    reveal_strlit("material");
    reveal_strlit("egui");
    assert("haiku"@.len() == 5);
    assert("material"@.len() == 8);
    assert("egui"@.len() == 4);
}

/// How a context that is so full is coloured.
pub open spec fn meter_tone(used: nat, capacity: nat) -> Tone {
    if used * 10 < capacity * 7 {
        Tone::Good
    } else if used * 10 < capacity * 9 {
        Tone::Warn
    } else {
        Tone::Bad
    }
}

/// How full a context is, as a share of at most all of it.
pub open spec fn meter_share(used: usize, capacity: usize) -> Share {
    Share {
        part: if used <= capacity {
            used as u64
        } else {
            capacity as u64
        },
        whole: capacity as u64,
    }
}

/// How full the context is, for people: nothing while it is empty.
pub fn context_meter(used: usize, capacity: usize) -> (r: Option<(Share, Tone, String)>)
    ensures
        match r {
            Some(m) => used > 0 && capacity > 0 && m.0 == meter_share(used, capacity) && m.1
                == meter_tone(used as nat, capacity as nat) && m.2@ == "context: "@ + decimal(
                used as nat,
            ) + " of "@ + decimal(capacity as nat) + " tokens ("@ + decimal(
                percent_of(meter_share(used, capacity)),
            ) + "%)"@,
            None => used == 0 || capacity == 0,
        },
{
    if used == 0 || capacity == 0 {
        return None;
    }
    let share = Share {
        part: if used <= capacity {
            used as u64
        } else {
            capacity as u64
        },
        whole: capacity as u64,
    };
    let u: u128 = used as u128 * 10;
    let c: u128 = capacity as u128;
    let tone = if u < c * 7 {
        Tone::Good
    } else if u < c * 9 {
        Tone::Warn
    } else {
        Tone::Bad
    };
    let mut t: String = "context: ".to_owned();
    t.append(decimal_text(used as u128).as_str());
    t.append(" of ");
    t.append(decimal_text(capacity as u128).as_str());
    t.append(" tokens (");
    t.append(decimal_text(share.percent() as u128).as_str());
    t.append("%)");
    Some((share, tone, t))
}

/// A context is told to be filling up from seven tenths on, and full from nine.
pub proof fn law_full_contexts_are_told(used: nat, capacity: nat)
    ensures
        meter_tone(used, capacity) == Tone::Good <==> 10 * used < 7 * capacity,
        meter_tone(used, capacity) == Tone::Bad <==> 10 * used >= 9 * capacity && 10 * used >= 7
            * capacity,
{
}

/// The share that is shown is what is used, at most all.
pub proof fn law_meters_show_what_is_used(used: usize, capacity: usize)
    ensures
        used <= capacity ==> meter_share(used, capacity).part == used,
        used > capacity ==> meter_share(used, capacity).part == capacity,
        meter_share(used, capacity).whole == capacity,
{
}

/// The looks have names of their own.
pub proof fn law_looks_have_names()
    ensures
        skin_label(SkinKind::Haiku) == "Haiku"@,
        skin_label(SkinKind::Material) == "Material"@,
        skin_label(SkinKind::EguiDefault) == "egui default"@,
        skin_id(SkinKind::Haiku) == "haiku"@,
        skin_id(SkinKind::Material) == "material"@,
        skin_id(SkinKind::EguiDefault) == "egui"@,
{
}

} // verus!
