//! Lists the codec profiles a video-acceleration driver supports, with the
//! entry points of each, from the driver's answers to its query calls.

pub mod driver;
pub mod enumerate;
pub mod profile;
pub mod report;

pub use driver::negotiated_version;
pub use driver::vendor_or_unknown;
pub use driver::DriverError;
pub use enumerate::merge_profiles;
pub use enumerate::profiles_from_queries;
pub use profile::Profile;
pub use profile::ProfileQuery;
pub use profile::STATUS_SUCCESS;
pub use profile::STATUS_UNSUPPORTED_PROFILE;
pub use report::sort_by_name;
