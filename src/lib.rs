//! Decides which pending uploads of a package archive need a binary-only
//! rebuild before they can migrate, and on which architectures.

pub mod binnmu;
pub mod excuses;
pub mod order;
pub mod source_packages;
pub mod text;
pub mod udd_bugs;
pub mod version;
