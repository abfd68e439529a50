//! The package databases: descriptors, versions and the upgrade planner.

pub mod compare;
pub mod database;
pub mod desc;
pub mod field;
pub mod load;
pub mod order;
pub mod package;
pub mod plan;
pub mod pool;
pub mod version;

pub use compare::versioncmp;
pub use database::Database;
pub use desc::parse_to_map;
pub use load::{parse_localdb, parse_syncdb};
pub use package::{Arch, Package, Validation, XData};
pub use plan::{downgrade_candidates, update_candidates, Repo};
pub use pool::{new_interner, Istr, Pool, QuickResolve};
pub use version::{versionparse, Segment, Version};
