//! Display name -> content slug for the units the game-facts document covers.
use vstd::prelude::*;

verus! {

/// `(display name, content slug)` of every unit the game-facts document carries facts for
/// (order is not significant: the document is keyed by slug).
pub const NAME_TO_SLUG: [(&'static str, &'static str); 48] = [
    ("Militia", "militia"),
    ("Man-at-Arms", "man-at-arms"),
    ("Long Swordsman", "long-swordsman"),
    ("Two-Handed Swordsman", "two-handed-swordsman"),
    ("Champion", "champion"),
    ("Spearman", "spearman"),
    ("Pikeman", "pikeman"),
    ("Halberdier", "halberdier"),
    ("Eagle Warrior", "eagle-warrior"),
    ("Elite Eagle Warrior", "elite-eagle-warrior"),
    ("Archer", "archer"),
    ("Crossbowman", "crossbowman"),
    ("Arbalester", "arbalester"),
    ("Skirmisher", "skirmisher"),
    ("Elite Skirmisher", "elite-skirmisher"),
    ("Cavalry Archer", "cavalry-archer"),
    ("Heavy Cavalry Archer", "heavy-cavalry-archer"),
    ("Hand Cannoneer", "hand-cannoneer"),
    ("Scout Cavalry", "scout-cavalry"),
    ("Light Cavalry", "light-cavalry"),
    ("Hussar", "hussar"),
    ("Knight", "knight"),
    ("Cavalier", "cavalier"),
    ("Paladin", "paladin"),
    ("Camel Rider", "camel-rider"),
    ("Heavy Camel Rider", "heavy-camel-rider"),
    ("Monk", "monk"),
    ("Battering Ram", "battering-ram"),
    ("Capped Ram", "capped-ram"),
    ("Siege Ram", "siege-ram"),
    ("Mangonel", "mangonel"),
    ("Onager", "onager"),
    ("Siege Onager", "siege-onager"),
    ("Scorpion", "scorpion"),
    ("Heavy Scorpion", "heavy-scorpion"),
    ("Bombard Cannon", "bombard-cannon"),
    ("Trebuchet", "trebuchet"),
    ("Galley", "galley"),
    ("War Galley", "war-galley"),
    ("Galleon", "galleon"),
    ("Fire Ship", "fire-ship"),
    ("Fast Fire Ship", "fast-fire-ship"),
    ("Demolition Ship", "demolition-ship"),
    ("Heavy Demolition Ship", "heavy-demolition-ship"),
    ("Cannon Galleon", "cannon-galleon"),
    ("Elite Cannon Galleon", "elite-cannon-galleon"),
    ("Fishing Ship", "fishing-ship"),
    ("Transport Ship", "transport-ship"),
];

} // verus!
