//! The canonical trainable units the unit-stats document carries, in emission order.
use vstd::prelude::*;

verus! {

/// `(display name, content slug)` in the exact order the unit-stats document lists its
/// units; the display name is the game's own `<b>...</b>` help-string name.
pub const CANONICAL_UNITS: [(&'static str, &'static str); 90] = [
    ("Militia", "militia"),
    ("Man-at-Arms", "man-at-arms"),
    ("Long Swordsman", "long-swordsman"),
    ("Two-Handed Swordsman", "two-handed-swordsman"),
    ("Champion", "champion"),
    ("Spearman", "spearman"),
    ("Pikeman", "pikeman"),
    ("Halberdier", "halberdier"),
    ("Eagle Warrior", "eagle-warrior"),
    ("Elite Eagle Warrior", "elite-eagle-warrior"),
    ("Archer", "archer"),
    ("Crossbowman", "crossbowman"),
    ("Arbalester", "arbalester"),
    ("Skirmisher", "skirmisher"),
    ("Elite Skirmisher", "elite-skirmisher"),
    ("Cavalry Archer", "cavalry-archer"),
    ("Heavy Cavalry Archer", "heavy-cavalry-archer"),
    ("Hand Cannoneer", "hand-cannoneer"),
    ("Scout Cavalry", "scout-cavalry"),
    ("Light Cavalry", "light-cavalry"),
    ("Hussar", "hussar"),
    ("Knight", "knight"),
    ("Cavalier", "cavalier"),
    ("Paladin", "paladin"),
    ("Camel Rider", "camel-rider"),
    ("Heavy Camel Rider", "heavy-camel-rider"),
    ("Monk", "monk"),
    ("Battering Ram", "battering-ram"),
    ("Capped Ram", "capped-ram"),
    ("Siege Ram", "siege-ram"),
    ("Mangonel", "mangonel"),
    ("Onager", "onager"),
    ("Siege Onager", "siege-onager"),
    ("Scorpion", "scorpion"),
    ("Heavy Scorpion", "heavy-scorpion"),
    ("Bombard Cannon", "bombard-cannon"),
    ("Trebuchet", "trebuchet"),
    ("Galley", "galley"),
    ("War Galley", "war-galley"),
    ("Galleon", "galleon"),
    ("Fire Ship", "fire-ship"),
    ("Fast Fire Ship", "fast-fire-ship"),
    ("Demolition Ship", "demolition-ship"),
    ("Heavy Demolition Ship", "heavy-demolition-ship"),
    ("Cannon Galleon", "cannon-galleon"),
    ("Elite Cannon Galleon", "elite-cannon-galleon"),
    ("Fishing Ship", "fishing-ship"),
    ("Transport Ship", "transport-ship"),
    ("Berserk", "berserk"),
    ("Elite Berserk", "elite-berserk"),
    ("Cataphract", "cataphract"),
    ("Elite Cataphract", "elite-cataphract"),
    ("Chu Ko Nu", "chu-ko-nu"),
    ("Elite Chu Ko Nu", "elite-chu-ko-nu"),
    ("Conquistador", "conquistador"),
    ("Elite Conquistador", "elite-conquistador"),
    ("Huskarl", "huskarl"),
    ("Elite Huskarl", "elite-huskarl"),
    ("Jaguar Warrior", "jaguar-warrior"),
    ("Elite Jaguar Warrior", "elite-jaguar-warrior"),
    ("Janissary", "janissary"),
    ("Elite Janissary", "elite-janissary"),
    ("Longbowman", "longbowman"),
    ("Elite Longbowman", "elite-longbowman"),
    ("Mameluke", "mameluke"),
    ("Elite Mameluke", "elite-mameluke"),
    ("Mangudai", "mangudai"),
    ("Elite Mangudai", "elite-mangudai"),
    ("Plumed Archer", "plumed-archer"),
    ("Elite Plumed Archer", "elite-plumed-archer"),
    ("Samurai", "samurai"),
    ("Elite Samurai", "elite-samurai"),
    ("Tarkan", "tarkan"),
    ("Elite Tarkan", "elite-tarkan"),
    ("Teutonic Knight", "teutonic-knight"),
    ("Elite Teutonic Knight", "elite-teutonic-knight"),
    ("Throwing Axeman", "throwing-axeman"),
    ("Elite Throwing Axeman", "elite-throwing-axeman"),
    ("War Elephant", "war-elephant"),
    ("Elite War Elephant", "elite-war-elephant"),
    ("War Wagon", "war-wagon"),
    ("Elite War Wagon", "elite-war-wagon"),
    ("Woad Raider", "woad-raider"),
    ("Elite Woad Raider", "elite-woad-raider"),
    ("Karambit Warrior", "karambit-warrior"),
    ("Elite Karambit Warrior", "elite-karambit-warrior"),
    ("Longboat", "longboat"),
    ("Elite Longboat", "elite-longboat"),
    ("Turtle Ship", "turtle-ship"),
    ("Elite Turtle Ship", "elite-turtle-ship"),
];

} // verus!
