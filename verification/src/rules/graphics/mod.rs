//! Rules that gather the graphics of a prototype under `graphics_set`.

pub mod beam;
pub mod hr_version;
pub mod machine;
pub mod offshore_pump;
pub mod turret;
