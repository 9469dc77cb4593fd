//! Commands that are run inside a container.

use crate::error::Error;
use crate::text;
use vstd::prelude::*;

verus! {

/// What can be wrong with the place of a file or a command.
#[derive(Debug, Clone, Copy, PartialEq, Eq, Structural)]
pub enum PlaceProblem {
    NotATarget,
    NoColon,
    NotARemote,
    NotOneRemote,
    NoAccount,
}

/// The cluster, the task and the container of a target, which stand between
/// slashes. A container's name may hold slashes.
pub open spec fn target_parts(s: Seq<char>) -> Option<(Seq<char>, Seq<char>, Seq<char>)> {
    let parts = text::split_at_most(s, 3, '/');
    if parts.len() == 3 {
        Some((parts[0], parts[1], parts[2]))
    } else {
        None
    }
}

/// Splits a target into its cluster, its task and its container.
pub fn split_place<'a>(s: &'a str) -> (r: Option<(&'a str, &'a str, &'a str)>)
    ensures
        match r {
            Some((cluster, task, container)) => target_parts(s@) == Some(
                (cluster@, task@, container@),
            ),
            None => target_parts(s@) is None,
        },
{
    let parts = text::splitn(s, 3, '/');
    let ghost all = text::slices(parts@);
    if parts.len() == 3 {
        assert(all[0] == parts@[0]@);
        assert(all[1] == parts@[1]@);
        assert(all[2] == parts@[2]@);
        Some((parts[0], parts[1], parts[2]))
    } else {
        None
    }
}

/// Reads a target of the form `cluster/task/container`.
pub fn parse_target(s: &str) -> (r: Result<(&str, &str, &str), Error<PlaceProblem>>)
    ensures
        match r {
            Ok((cluster, task, container)) => target_parts(s@) == Some(
                (cluster@, task@, container@),
            ),
            Err(e) => target_parts(s@) is None && e@ == (
                PlaceProblem::NotATarget,
                "target must be cluster/task/container"@,
            ),
        },
{
    match split_place(s) {
        Some(parts) => Ok(parts),
        None => Err(
            Error {
                kind: PlaceProblem::NotATarget,
                message: String::from_str("target must be cluster/task/container"),
            },
        ),
    }
}

/// The command that is run where none is named.
pub fn command_or_shell(command: Option<&str>) -> (r: String)
    ensures
        r@ == (match command {
            Some(cmd) => cmd@,
            None => "/bin/sh"@,
        }),
{
    match command {
        Some(cmd) => String::from_str(cmd),
        None => String::from_str("/bin/sh"),
    }
}

/// The arguments of the `aws` program that run a command inside a container.
pub fn exec_arguments(cluster: &str, task: &str, container: &str, cmd: &str) -> (r: Vec<String>)
    ensures
        text::texts(r@) == seq![
            "ecs"@,
            "execute-command"@,
            "--cluster"@,
            cluster@,
            "--task"@,
            task@,
            "--container"@,
            container@,
            "--interactive"@,
            "--command"@,
            cmd@,
        ],
{
    let mut args: Vec<String> = Vec::new();
    args.push(String::from_str("ecs"));
    args.push(String::from_str("execute-command"));
    args.push(String::from_str("--cluster"));
    args.push(String::from_str(cluster));
    args.push(String::from_str("--task"));
    args.push(String::from_str(task));
    args.push(String::from_str("--container"));
    args.push(String::from_str(container));
    args.push(String::from_str("--interactive"));
    args.push(String::from_str("--command"));
    args.push(String::from_str(cmd));
    assert(text::texts(args@) =~= seq![
        "ecs"@,
        "execute-command"@,
        "--cluster"@,
        cluster@,
        "--task"@,
        task@,
        "--container"@,
        container@,
        "--interactive"@,
        "--command"@,
        cmd@,
    ]);
    args
}

/// A target has a cluster before its first slash, a task before its second, and all the rest
/// is the container; without two slashes it is none.
pub proof fn lemma_parts_of_place(cluster: Seq<char>, task: Seq<char>, container: Seq<char>)
    requires
        !cluster.contains('/'),
        !task.contains('/'),
    ensures
        target_parts(cluster) is None,
        target_parts(cluster + seq!['/'] + task) is None,
        target_parts(cluster + seq!['/'] + (task + seq!['/'] + container)) == Some(
            (cluster, task, container),
        ),
{
    text::lemma_first_piece(cluster, task, 3, '/');
    text::lemma_first_piece(task, container, 2, '/');
    text::lemma_first_piece(cluster, task + seq!['/'] + container, 3, '/');
    reveal_with_fuel(text::split_at_most, 2);
    let s = cluster + seq!['/'] + (task + seq!['/'] + container);
    assert(text::split_at_most(s, 3, '/') =~= seq![cluster, task, container]);
    assert(text::split_at_most(cluster + seq!['/'] + task, 3, '/') =~= seq![cluster, task]);
}

} // verus!
