pub mod addon;
pub mod location;
pub mod path;
pub mod release;

pub use addon::{Addon, HEMTTError};
pub use location::AddonLocation;
