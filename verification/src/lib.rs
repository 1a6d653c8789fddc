//! Monitor configuration profiles and the keyword line that configures one
//! monitor.
//!
//! [`config`] holds the profile and the settings of a monitor,
//! [`config::monitors`] writes the keyword line, and [`config::line`] says
//! what a line is made of and what holds of every line.
//!
//! Every number in a line is written in plain decimal notation. Integers
//! are written by [`text`]. Values with a fraction are held as
//! [`decimal::Decimal`] and written without an exponent and without a zero
//! that carries no information; [`decimal::reading`] reads them back.

pub mod config;
pub mod decimal;
pub mod text;
