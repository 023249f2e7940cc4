//! Reports over an organisation roster and a publication roster: the
//! organisation hierarchy flattened into fixed-depth rows, and publications
//! joined with their departments and the DOIs that a bibliographic service
//! resolved for them.
pub mod hierarchy;
pub mod roster;
pub mod batch;
pub mod lookup;
pub mod report;
pub mod single;
