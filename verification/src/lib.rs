//! Declarative synchronisation of installed packages against a backup manifest.
//!
//! The library normalises the package manager's installation record into
//! [`Package`] descriptors, parses the record's composite identifiers, and
//! computes the install / update / remove action sets that bring the actual
//! state in line with the desired state. All I/O (reading the record, listing
//! the binary directory, running the package manager) stays with the caller,
//! which hands plain values in and receives plain values back.

pub mod version;
pub mod package;
pub mod identifier;
pub mod loader;
pub mod reconcile;

pub use identifier::{parse, ParseError, ParsedIdentifier, SourceKind};
pub use loader::load;
pub use package::{ActionSet, Install, Package, RecordEntry};
pub use reconcile::{check_bins_installed, find_package_index, reconcile};
pub use version::Version;
