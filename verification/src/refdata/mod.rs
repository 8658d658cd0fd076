pub mod civ_help;
pub mod civ_region;
pub mod error;
pub mod unit_lines;
pub mod armor_classes;
pub mod canonical_units;
pub mod name_to_slug;
pub mod tree_nodes;
pub mod unit_tree;
pub mod civs;
pub mod techs;
pub mod icon_items;
pub mod model;
pub mod icon_map;
pub mod civilizations;
pub mod unit_help;
pub mod game_facts;
pub mod unit_tech_names;
pub mod techtree;
