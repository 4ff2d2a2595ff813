//! Reads applicant survey answers from CSV, renders each as a text card, and ranks the cards
//! by fuzzy match against a query.

pub mod card;
pub mod csv_table;
pub mod normalize;
pub mod ranking;
pub mod record;
pub mod session;
pub mod text;
