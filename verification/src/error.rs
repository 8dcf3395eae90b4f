use vstd::prelude::*;

verus! {

/// The recoverable failures of toolchain discovery and workshop
/// resolution.
#[derive(Clone, Copy, PartialEq, Eq, Structural, Debug)]
pub enum Error {
    /// No interpreter candidate qualified.
    NoPythonExecutable,
    /// Neither the compose plugin nor a standalone compose tool qualified.
    NoDockerComposeExecutable,
    /// The platform offers no standard application-data location.
    ApplicationDirsNotFound,
    /// The named workshop has no directory in the application data store.
    WorkshopDataDirNotFound,
}

} // verus!
