//! Deterministic release-name generation.
//!
//! A hexadecimal seed (for example a build checksum or a revision hash) is
//! normalized and cross-indexed through two embedded word lists to yield a
//! stable, memorable `"adjective-noun"` name.

use vstd::prelude::*;

pub mod cli;
pub mod generator;
pub mod sha;

use crate::generator::{filter_hex, spec_generate, spec_name_format, ReleaseNameGenerator};
use crate::sha::{spec_trim, ResolveError};

verus! {

/// Generate a release name based on command-line inputs without printing it.
pub fn generate_from_cli(cli: cli::Cli) -> (r: Result<String, ResolveError>)
    ensures
        match cli.checksum {
            Some(s) => {
                if spec_trim(s@).len() > 0 {
                    r is Ok && spec_name_format(r->Ok_0@) && (filter_hex(spec_trim(s@)).len() > 0
                        ==> r->Ok_0@ == spec_generate(spec_trim(s@)))
                } else {
                    r is Err && r->Err_0 == ResolveError::EmptyChecksum
                }
            },
            None => r is Err && r->Err_0 == ResolveError::ChecksumRequired,
        },
{
    match &cli.checksum {
        Some(s) => generate_from_checksum(Some(s.as_str())),
        None => generate_from_checksum(None),
    }
}

/// Core entry point for programmatic use: resolve the checksum, then derive
/// the name. With a checksum that trims to something non-empty this always
/// succeeds; the name is a pure function of the trimmed checksum whenever
/// that holds hexadecimal digits, and always has the adjective-hyphen-noun
/// shape.
pub fn generate_from_checksum(checksum: Option<&str>) -> (r: Result<String, ResolveError>)
    ensures
        match checksum {
            Some(s) => {
                if spec_trim(s@).len() > 0 {
                    r is Ok && spec_name_format(r->Ok_0@) && (filter_hex(spec_trim(s@)).len() > 0
                        ==> r->Ok_0@ == spec_generate(spec_trim(s@)))
                } else {
                    r is Err && r->Err_0 == ResolveError::EmptyChecksum
                }
            },
            None => r is Err && r->Err_0 == ResolveError::ChecksumRequired,
        },
{
    let resolved = match sha::resolve(checksum) {
        Ok(s) => s,
        Err(e) => {
            return Err(e);
        },
    };
    Ok(ReleaseNameGenerator.generate(resolved.as_str()))
}

} // verus!
