//! Theme discovery and theme configuration logic for a Linux desktop theming tool.
pub mod text;
pub mod num;
pub mod color;
pub mod ini;
pub mod slug;
pub mod xcursor;
pub mod palette;
pub mod order;
pub mod paths;
pub mod scan;
pub mod probe;
pub mod plans;
pub mod profiles;
pub mod ocs;
pub mod installed;
