//! The rules of each poker variant.

pub mod texas_hold_em;
pub mod seven_card_stud;
pub mod standard_five;
pub mod razz;
