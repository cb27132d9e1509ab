//! The programs that the sandbox is made with.

use crate::check::{reported_version, version_of, ProbeOutput, ProbeView};
use crate::errors::{outcome, Error, ErrorView, Result};
use vstd::prelude::*;
use vstd::string::*;

verus! {

/// The versions of the programs that the sandbox is made with.
#[derive(Debug)]
pub struct DependencyVersions {
    /// The version of `bwrap`.
    pub bwrap: String,
    /// The version of `pasta`.
    pub pasta: String,
}

/// What [`DependencyVersions`] say.
#[verifier::ext_equal]
pub struct VersionsView {
    pub bwrap: Seq<char>,
    pub pasta: Seq<char>,
}

impl View for DependencyVersions {
    type V = VersionsView;

    open spec fn view(&self) -> VersionsView {
        VersionsView { bwrap: self.bwrap@, pasta: self.pasta@ }
    }
}

/// The error where `binary` is missing, which `package` ships.
pub open spec fn missing(binary: Seq<char>, package: Seq<char>) -> ErrorView {
    ErrorView::MissingDependency { command: binary, package: Some(package) }
}

/// The version of a program, given what came of asking it. Where there is
/// no such program, the error names the package that ships it.
pub fn probe(binary: &str, package: &str, output: &ProbeOutput) -> (r: Result<String>)
    ensures
        outcome(r) == version_of(binary@, missing(binary@, package@), output@),
{
    reported_version(binary, Error::missing_package(binary, package), output)
}

/// The versions of both programs, given what came of asking them; the
/// first that is missing or does not answer counts.
pub open spec fn required_versions(bwrap: ProbeView, pasta: ProbeView) -> Result<
    VersionsView,
    ErrorView,
> {
    match version_of("bwrap"@, missing("bwrap"@, "bubblewrap"@), bwrap) {
        Err(e) => Err(e),
        Ok(bwrap) => match version_of("pasta"@, missing("pasta"@, "passt"@), pasta) {
            Err(e) => Err(e),
            Ok(pasta) => Ok(VersionsView { bwrap, pasta }),
        },
    }
}

/// The versions of both programs, given what came of asking them; the
/// first that is missing or does not answer counts.
pub fn probe_required(bwrap: &ProbeOutput, pasta: &ProbeOutput) -> (r: Result<DependencyVersions>)
    ensures
        outcome(r) == required_versions(bwrap@, pasta@),
{
    match probe("bwrap", "bubblewrap", bwrap) {
        Err(e) => Err(e),
        Ok(bwrap) => match probe("pasta", "passt", pasta) {
            Err(e) => Err(e),
            Ok(pasta) => Ok(DependencyVersions { bwrap, pasta }),
        },
    }
}

/// Both programs are required: there are versions exactly where both
/// report one, and each version is that of its own program. Where one is
/// missing the error names the package that ships it, `bubblewrap` for
/// `bwrap` and `passt` for `pasta`; `bwrap` is complained of first.
pub proof fn law_both_are_required(bwrap: ProbeView, pasta: ProbeView)
    ensures
        required_versions(bwrap, pasta) matches Ok(v) ==> version_of(
            "bwrap"@,
            missing("bwrap"@, "bubblewrap"@),
            bwrap,
        ) == Ok::<Seq<char>, ErrorView>(v.bwrap) && version_of(
            "pasta"@,
            missing("pasta"@, "passt"@),
            pasta,
        ) == Ok::<Seq<char>, ErrorView>(v.pasta),
        bwrap is NotFound ==> required_versions(bwrap, pasta) == Err::<VersionsView, ErrorView>(
            ErrorView::MissingDependency { command: "bwrap"@, package: Some("bubblewrap"@) },
        ),
        version_of("bwrap"@, missing("bwrap"@, "bubblewrap"@), bwrap) is Ok && pasta is NotFound
            ==> required_versions(bwrap, pasta) == Err::<VersionsView, ErrorView>(
            ErrorView::MissingDependency { command: "pasta"@, package: Some("passt"@) },
        ),
        required_versions(bwrap, pasta) is Ok <==> version_of(
            "bwrap"@,
            missing("bwrap"@, "bubblewrap"@),
            bwrap,
        ) is Ok && version_of("pasta"@, missing("pasta"@, "passt"@), pasta) is Ok,
{
}

} // verus!
