//! Secrets that a person can remember: two names and what one does to the
//! other, drawn at random from two fixed rosters.
//!
//! Such a secret is a shared, low-security token. It keeps casual visitors
//! from administering an exchange and is not meant to protect anything
//! sensitive.

use rand::Rng;
use vstd::prelude::*;
use vstd::string::*;

verus! {

/// How many names the roster of characters holds.
pub const CHARACTER_COUNT: usize = 20;

/// How many phrases the roster of actions holds.
pub const ACTION_COUNT: usize = 19;

/// The name at position `index` of the roster of characters.
pub open spec fn spec_character(index: usize) -> Seq<char> {
    match index {
        0 => "TwilightSparkle"@,
        1 => "Rarity"@,
        2 => "PinkiePie"@,
        3 => "Fluttershy"@,
        4 => "RainbowDash"@,
        5 => "Applejack"@,
        6 => "MayorMare"@,
        7 => "DoctorWhooves"@,
        8 => "Derpy"@,
        9 => "Coloratura"@,
        10 => "DaringDo"@,
        11 => "PhotoFinish"@,
        12 => "FancyPants"@,
        13 => "SapphireShores"@,
        14 => "Spitfire"@,
        15 => "Soarin"@,
        16 => "SunnyStarscout"@,
        17 => "IzzyMoonbow"@,
        18 => "QueenChrysalis"@,
        _ => "SilkRose"@,
    }
}

/// The phrase at position `index` of the roster of actions.
pub open spec fn spec_action(index: usize) -> Seq<char> {
    match index {
        0 => "Boops"@,
        1 => "Kisses"@,
        2 => "Likes"@,
        3 => "Loves"@,
        4 => "WantsToDate"@,
        5 => "Hugs"@,
        6 => "Holds"@,
        7 => "TalksTo"@,
        8 => "SingsTo"@,
        9 => "AsksOut"@,
        10 => "GivesABitTo"@,
        11 => "HasCoffeeWith"@,
        12 => "HasAVerySpecificQuestionFor"@,
        13 => "IsNotTheSamePonyAs"@,
        14 => "HasACrushOn"@,
        15 => "IsMarrying"@,
        16 => "TripsInFrontOf"@,
        17 => "LooksAt"@,
        _ => "HoldsHoovesWith"@,
    }
}

/// The secret made from the characters at `first` and `second` and the
/// action at `action`. Where one character is drawn twice the action is set
/// aside and the secret says that the two are the same.
pub open spec fn spec_passphrase(first: usize, second: usize, action: usize) -> Seq<char> {
    if first == second {
        spec_character(first) + "IsTheSamePonyAs"@ + spec_character(second)
    } else {
        spec_character(first) + spec_action(action) + spec_character(second)
    }
}

/// Whether `text` is a secret that some draw from the rosters produces.
pub open spec fn is_passphrase(text: Seq<char>) -> bool {
    exists|first: usize, second: usize, action: usize|
        first < CHARACTER_COUNT && second < CHARACTER_COUNT && action < ACTION_COUNT && text
            == #[trigger] spec_passphrase(first, second, action)
}

/// The name at position `index` of the roster of characters.
pub fn character(index: usize) -> (name: &'static str)
    requires
        index < CHARACTER_COUNT,
    ensures
        name@ == spec_character(index),
{
    match index {
        0 => "TwilightSparkle",
        1 => "Rarity",
        2 => "PinkiePie",
        3 => "Fluttershy",
        4 => "RainbowDash",
        5 => "Applejack",
        6 => "MayorMare",
        7 => "DoctorWhooves",
        8 => "Derpy",
        9 => "Coloratura",
        10 => "DaringDo",
        11 => "PhotoFinish",
        12 => "FancyPants",
        13 => "SapphireShores",
        14 => "Spitfire",
        15 => "Soarin",
        16 => "SunnyStarscout",
        17 => "IzzyMoonbow",
        18 => "QueenChrysalis",
        _ => "SilkRose",
    }
}

/// The phrase at position `index` of the roster of actions.
pub fn action(index: usize) -> (phrase: &'static str)
    requires
        index < ACTION_COUNT,
    ensures
        phrase@ == spec_action(index),
{
    match index {
        0 => "Boops",
        1 => "Kisses",
        2 => "Likes",
        3 => "Loves",
        4 => "WantsToDate",
        5 => "Hugs",
        6 => "Holds",
        7 => "TalksTo",
        8 => "SingsTo",
        9 => "AsksOut",
        10 => "GivesABitTo",
        11 => "HasCoffeeWith",
        12 => "HasAVerySpecificQuestionFor",
        13 => "IsNotTheSamePonyAs",
        14 => "HasACrushOn",
        15 => "IsMarrying",
        16 => "TripsInFrontOf",
        17 => "LooksAt",
        _ => "HoldsHoovesWith",
    }
}

/// Writes out the secret for one draw: the two characters with the action
/// between them, or the remark that they are the same where one character was
/// drawn twice.
pub fn compose_passphrase(first: usize, second: usize, action_index: usize) -> (secret: String)
    requires
        first < CHARACTER_COUNT,
        second < CHARACTER_COUNT,
        action_index < ACTION_COUNT,
    ensures
        secret@ == spec_passphrase(first, second, action_index),
        is_passphrase(secret@),
{
    let mut secret = String::from_str(character(first));
    if first == second {
        secret.append("IsTheSamePonyAs");
    } else {
        secret.append(action(action_index));
    }
    secret.append(character(second));
    secret
}

/// Draws an index below `bound` from the thread-local generator of the `rand`
/// crate: `rand::thread_rng()` and `Rng::gen_range` on the range `0..bound`.
///
/// Trusted, not proved: the index lies in that range. Nothing is said about
/// which index is drawn. `gen_range` panics on an empty range, so `bound` must
/// be positive.
#[verifier::external_body]
fn random_below(bound: usize) -> (index: usize)
    requires
        bound > 0,
    ensures
        index < bound,
{
    rand::thread_rng().gen_range(0..bound)
}

/// A fresh secret: two characters drawn uniformly from their roster and,
/// unless the same one came up twice, an action drawn from the other.
///
/// Which secret comes out is left to chance; it is always one that
/// [`compose_passphrase`] writes for some draw.
pub fn generate_passphrase() -> (secret: String)
    ensures
        is_passphrase(secret@),
{
    let first = random_below(CHARACTER_COUNT);
    let second = random_below(CHARACTER_COUNT);
    if first == second {
        compose_passphrase(first, second, 0)
    } else {
        let action_index = random_below(ACTION_COUNT);
        compose_passphrase(first, second, action_index)
    }
}

} // verus!
