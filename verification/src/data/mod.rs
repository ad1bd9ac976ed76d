pub mod dungeon;
pub mod turn_order;
pub mod message_log;
pub mod walkability;
pub mod spatial;
pub mod namegen;
