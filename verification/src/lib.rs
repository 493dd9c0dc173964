//! Printed-circuit-board design core: board and schematic model, design
//! and electrical rule checks, and fabrication output.

pub mod arith;
pub mod binary;
pub mod board;
pub mod body_laws;
pub mod bom;
pub mod bundle;
pub mod clip_cover;
pub mod continuity;
pub mod copper_laws;
pub mod csv;
pub mod drc;
pub mod drc_laws;
pub mod drill_laws;
pub mod erc;
pub mod erc_laws;
pub mod event;
pub mod excellon;
pub mod fab;
pub mod fab_laws;
pub mod finding_laws;
pub mod geometry;
pub mod gerber;
pub mod glyphs;
pub mod hershey;
pub mod ids;
pub mod islands;
pub mod keepout_laws;
pub mod letter_laws;
pub mod library;
pub mod list;
pub mod name_map;
pub mod nearness;
pub mod net_laws;
pub mod note_laws;
pub mod odb;
pub mod odb_features;
pub mod odb_laws;
pub mod outline_laws;
pub mod pad_laws;
pub mod pending;
pub mod photo;
pub mod pick_place;
pub mod place_laws;
pub mod placement;
pub mod placement_laws;
pub mod plan_laws;
pub mod profiles;
pub mod project;
pub mod rectify;
pub mod relay;
pub mod relocate;
pub mod rotation;
pub mod routing;
pub mod routing_laws;
pub mod schematic;
pub mod silk_clip;
pub mod silk_laws;
pub mod silkscreen;
pub mod spacing;
pub mod spoke_laws;
pub mod stitch;
pub mod stitch_laws;
pub mod tar;
pub mod text;
pub mod thermal;
pub mod tools;
pub mod tools_parts;
pub mod tools_place;
pub mod tools_schematic;
pub mod tools_view;
pub mod touching;
pub mod units;
pub mod view_laws;
pub mod violation;
pub mod wiring;
pub mod wiring_laws;
pub mod words;
pub mod zip_pack;
