//! Basketball statistics: seasons, leagues and coverage windows, the
//! migration plan of the store, season rollups and on/off splits.

use vstd::prelude::*;

pub mod aggregate;
pub mod compute;
pub mod coverage;
pub mod ids;
pub mod league;
pub mod migrations;
pub mod model;
pub mod on_off;
pub mod rollup;
pub mod season;
pub mod text;
