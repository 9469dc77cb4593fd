//! Small rules of the commands on whole services.

use crate::config::ConfigProblem;
use crate::error::Error;
use crate::number;
use crate::text;
use vstd::prelude::*;

verus! {

/// Whether a specification is fetched from the network rather than read from a
/// file.
pub fn is_remote_source(source: &str) -> (r: bool)
    ensures
        r == ("http://"@.is_prefix_of(source@) || "https://"@.is_prefix_of(source@)),
{
    text::starts_with(source, "http://") || text::starts_with(source, "https://")
}

/// Checks a number of tasks.
pub fn check_count(count: i32) -> (r: Result<(), Error<ConfigProblem>>)
    ensures
        r is Ok <==> count >= 0,
        r matches Err(e) ==> e@ == (
            ConfigProblem::NegativeCount,
            "count must be >= 0, got "@ + number::decimal_int(count as int),
        ),
{
    if count < 0 {
        let mut m = String::from_str("count must be >= 0, got ");
        m.append(number::to_decimal_int(count as i128).as_str());
        return Err(Error { kind: ConfigProblem::NegativeCount, message: m });
    }
    Ok(())
}

/// The settings that make the specification of one service that of another: its
/// name, and then whatever else is to be set.
pub fn clone_overrides(target_name: &str, overrides: &Vec<String>) -> (r: Vec<String>)
    ensures
        text::texts(r@) == seq!["metadata.name="@ + target_name@] + text::texts(overrides@),
{
    let mut name = String::from_str("metadata.name=");
    name.append(target_name);
    let ghost first = name@;
    let mut out: Vec<String> = Vec::new();
    out.push(name);
    let mut rest = text::copy_all(overrides);
    let ghost before = rest@;
    out.append(&mut rest);
    assert(text::texts(out@) =~= seq![first] + text::texts(before));
    out
}

/// What a command that takes a name or a file works on.
#[derive(Debug, Clone, Copy, PartialEq, Eq, Structural)]
pub enum Source {
    Name,
    File,
}

/// Decides whether a service is named by its short name or by a file. The short
/// name counts where there are both.
pub fn choose_source(has_name: bool, has_file: bool) -> (r: Result<Source, Error<ConfigProblem>>)
    ensures
        match r {
            Ok(s) => s == if has_name {
                Source::Name
            } else {
                Source::File
            } && (has_name || has_file),
            Err(e) => !has_name && !has_file && e@ == (
                ConfigProblem::NoTarget,
                "provide a name or -f <file>"@,
            ),
        },
{
    if has_name {
        Ok(Source::Name)
    } else if has_file {
        Ok(Source::File)
    } else {
        Err(
            Error {
                kind: ConfigProblem::NoTarget,
                message: String::from_str("provide a name or -f <file>"),
            },
        )
    }
}

/// Whether a command waits for the services it changed: only for a single one.
pub fn waits(wait: bool, targets: &Vec<String>) -> (r: bool)
    ensures
        r == (wait && targets@.len() == 1),
{
    wait && targets.len() == 1
}

} // verus!
