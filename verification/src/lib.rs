//! Verified core of the Bubble engine: naming rules for files and plugins,
//! the versioned api registry, the bonsai tree map and the decision logic of
//! the buffer storage and the task system.

pub mod text;
pub mod path;
pub mod bonsai;
pub mod version;
pub mod registry;
pub mod fs;
pub mod macros;
pub mod tasks;
pub mod plugin;
pub mod flags;
pub mod sync;
pub mod os;
pub mod hash;
pub mod wand;
pub mod basin;
pub mod skip;
