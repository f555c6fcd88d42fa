//! A skill sheet: dated activity records under named skills, and the
//! experience they earn.
//!
//! Logged minutes earn base experience at a fixed hourly rate. A record also
//! draws a streak bonus from every earlier record that lies within a few days
//! of it; the bonus shrinks linearly with the distance in days and is taken
//! from what the earlier record earned in all, its own bonus included, so a
//! streak compounds.
//!
//! Experience is counted in whole units, [`exp::UNITS_PER_EXP`] to the point,
//! so every amount is an integer and every rounding is stated.

pub mod date;
pub mod exp;
pub mod order;
pub mod record;
pub mod skill;
pub mod storage;
pub mod streak;
pub mod theorems;
