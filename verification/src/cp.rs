//! Copying a file into or out of a container, by way of S3.

use crate::error::Error;
use crate::exec;
use crate::exec::{split_place, PlaceProblem};
use crate::text;
use vstd::prelude::*;

verus! {

/// How many seconds a presigned URL is valid by default: long enough for a
/// session to be set up and a file to be transferred.
pub const DEFAULT_PRESIGN_EXPIRY_SECS: u64 = 60;

/// The cluster, the task, the container and the path of a place inside a
/// container, which is written `cluster/task/container:path`.
pub open spec fn remote_parts(s: Seq<char>) -> Option<
    (Seq<char>, Seq<char>, Seq<char>, Seq<char>),
> {
    let p = text::position(s, ':');
    if !s.contains(':') {
        None
    } else {
        match exec::target_parts(s.take(p)) {
            Some((cluster, task, container)) => Some((cluster, task, container, s.skip(p + 1))),
            None => None,
        }
    }
}

/// Reads a place inside a container.
pub fn parse_remote(s: &str) -> (r: Option<(&str, &str, &str, &str)>)
    ensures
        match r {
            Some((cluster, task, container, path)) => remote_parts(s@) == Some(
                (cluster@, task@, container@, path@),
            ),
            None => remote_parts(s@) is None,
        },
{
    match text::split_once(s, ':') {
        Some((prefix, path)) => match split_place(prefix) {
            Some((cluster, task, container)) => Some((cluster, task, container, path)),
            None => None,
        },
        None => None,
    }
}

/// Whether a place is inside a container.
pub fn is_remote(s: &str) -> (r: bool)
    ensures
        r == remote_parts(s@) is Some,
{
    parse_remote(s).is_some()
}

/// Which way a file is copied.
#[derive(Debug, Clone, Copy, PartialEq, Eq, Structural)]
pub enum Direction {
    /// Into a container.
    Upload,
    /// Out of a container.
    Download,
}

/// Which way a file is copied: exactly one of the two places must be inside a
/// container.
pub open spec fn direction_between(src: Seq<char>, dst: Seq<char>) -> Option<Direction> {
    match (remote_parts(src), remote_parts(dst)) {
        (None, Some(_)) => Some(Direction::Upload),
        (Some(_), None) => Some(Direction::Download),
        _ => None,
    }
}

/// Decides which way a file is copied.
pub fn direction(src: &str, dst: &str) -> (r: Result<Direction, Error<PlaceProblem>>)
    ensures
        match r {
            Ok(d) => direction_between(src@, dst@) == Some(d),
            Err(e) => direction_between(src@, dst@) is None && e@ == (
                PlaceProblem::NotOneRemote,
                "exactly one of src/dst must be a remote path (cluster/task/container:/path)"@,
            ),
        },
{
    let from_remote = is_remote(src);
    let to_remote = is_remote(dst);
    if !from_remote && to_remote {
        Ok(Direction::Upload)
    } else if from_remote && !to_remote {
        Ok(Direction::Download)
    } else {
        Err(
            Error {
                kind: PlaceProblem::NotOneRemote,
                message: String::from_str(
                    "exactly one of src/dst must be a remote path (cluster/task/container:/path)",
                ),
            },
        )
    }
}

/// The bucket that files are staged in: the one that is set, or else one for
/// the account.
pub fn staging_bucket(bucket: Option<&str>, account: Option<&str>) -> (r: Result<
    String,
    Error<PlaceProblem>,
>)
    ensures
        match (bucket, account) {
            (Some(b), _) => r matches Ok(s) && s@ == b@,
            (None, Some(id)) => r matches Ok(s) && s@ == "ecsctl-staging-"@ + id@,
            (None, None) => r matches Err(e) && e@ == (PlaceProblem::NoAccount, "no account ID"@),
        },
{
    match (bucket, account) {
        (Some(b), _) => Ok(String::from_str(b)),
        (None, Some(id)) => {
            let mut name = String::from_str("ecsctl-staging-");
            name.append(id);
            Ok(name)
        },
        (None, None) => Err(
            Error { kind: PlaceProblem::NoAccount, message: String::from_str("no account ID") },
        ),
    }
}

/// The place that a new bucket is asked to be in: the region, except for the
/// one that S3 takes where none is named.
pub fn location_constraint(region: &str) -> (r: Option<String>)
    ensures
        text::opt_text(r) == if region@ == "us-east-1"@ {
            None
        } else {
            Some(region@)
        },
{
    if text::same(region, "us-east-1") {
        None
    } else {
        Some(String::from_str(region))
    }
}

/// Whether a text has the form of a UUID: groups of 8, 4, 4, 4 and 12 lower-case
/// hexadecimal digits with hyphens between them, the third group beginning with
/// the version and the fourth with the variant of a random UUID.
pub open spec fn is_random_uuid(s: Seq<char>) -> bool {
    &&& s.len() == 36
    &&& s[14] == '4'
    &&& s[19] == '8' || s[19] == '9' || s[19] == 'a' || s[19] == 'b'
    &&& forall|i: int|
        0 <= i < 36 ==> if i == 8 || i == 13 || i == 18 || i == 23 {
            #[trigger] s[i] == '-'
        } else {
            ('0' <= s[i] && s[i] <= '9') || ('a' <= s[i] && s[i] <= 'f')
        }
}

/// `uuid::Uuid::new_v4` makes a random UUID, whose `Display` writes it in lower
/// case with hyphens. Only the form of the text is claimed: which UUID it is, is
/// left to chance.
#[verifier::external_body]
fn random_uuid() -> (r: String)
    ensures
        is_random_uuid(r@),
{
    uuid::Uuid::new_v4().to_string()
}

/// The key that a file is staged under, by an identifier.
pub fn staging_key_for(id: &str) -> (r: String)
    ensures
        r@ == "ecsctl/"@ + id@ + ".tar.gz"@,
{
    let mut key = String::from_str("ecsctl/");
    key.append(id);
    key.append(".tar.gz");
    key
}

/// A key to stage a file under, which is random.
pub fn staging_key() -> (r: String)
    ensures
        exists|id: Seq<char>| is_random_uuid(id) && r@ == #[trigger] ("ecsctl/"@ + id)
            + ".tar.gz"@,
{
    let id = random_uuid();
    let key = staging_key_for(id.as_str());
    assert(key@ == ("ecsctl/"@ + id@) + ".tar.gz"@);
    key
}

/// Where a file goes inside a container: to the path that is named, or to the
/// home directory under its own name.
pub fn upload_destination(remote_path: &str, filename: &str) -> (r: String)
    ensures
        r@ == if remote_path@.len() == 0 {
            "$HOME/"@ + filename@
        } else {
            remote_path@
        },
{
    if remote_path.unicode_len() == 0 {
        let mut dest = String::from_str("$HOME/");
        dest.append(filename);
        dest
    } else {
        String::from_str(remote_path)
    }
}

/// The command that fetches a file into a container.
pub fn fetch_command(dest: &str, url: &str) -> (r: String)
    ensures
        r@ == "sh -c 'curl -sf -o \""@ + dest@ + "\" \""@ + url@ + "\" || wget -q -O \""@ + dest@
            + "\" \""@ + url@ + "\"'"@,
{
    let mut cmd = String::from_str("sh -c 'curl -sf -o \"");
    cmd.append(dest);
    cmd.append("\" \"");
    cmd.append(url);
    cmd.append("\" || wget -q -O \"");
    cmd.append(dest);
    cmd.append("\" \"");
    cmd.append(url);
    cmd.append("\"'");
    cmd
}

/// The command that sends a file out of a container.
pub fn send_command(path: &str, url: &str) -> (r: String)
    ensures
        r@ == "sh -c 'curl -sf -T \""@ + path@ + "\" \""@ + url@
            + "\" || wget --method=PUT --body-file=\""@ + path@ + "\" \""@ + url@ + "\"'"@,
{
    let mut cmd = String::from_str("sh -c 'curl -sf -T \"");
    cmd.append(path);
    cmd.append("\" \"");
    cmd.append(url);
    cmd.append("\" || wget --method=PUT --body-file=\"");
    cmd.append(path);
    cmd.append("\" \"");
    cmd.append(url);
    cmd.append("\"'");
    cmd
}

/// A place inside a container is a target and a path with a colon between them; a place
/// without a colon, or without two slashes before it, is none.
pub proof fn lemma_place_inside(
    cluster: Seq<char>,
    task: Seq<char>,
    container: Seq<char>,
    path: Seq<char>,
)
    requires
        !cluster.contains('/') && !cluster.contains(':'),
        !task.contains('/') && !task.contains(':'),
        !container.contains(':'),
    ensures
        remote_parts(cluster + seq!['/'] + (task + seq!['/'] + container) + seq![':'] + path)
            == Some((cluster, task, container, path)),
        remote_parts(cluster + seq!['/'] + (task + seq!['/'] + container)) is None,
        remote_parts(cluster + seq!['/'] + task + seq![':'] + path) is None,
        remote_parts(cluster + seq![':'] + path) is None,
{
    exec::lemma_parts_of_place(cluster, task, container);
    let target = cluster + seq!['/'] + (task + seq!['/'] + container);
    lemma_no_colon(cluster, task, container);
    lemma_split_at_colon(target, path);
    lemma_split_at_colon(cluster + seq!['/'] + task, path);
    lemma_split_at_colon(cluster, path);
}

proof fn lemma_no_colon(cluster: Seq<char>, task: Seq<char>, container: Seq<char>)
    requires
        !cluster.contains(':'),
        !task.contains(':'),
        !container.contains(':'),
    ensures
        !(cluster + seq!['/'] + (task + seq!['/'] + container)).contains(':'),
        !(cluster + seq!['/'] + task).contains(':'),
{
    let a = cluster + seq!['/'] + task;
    let b = cluster + seq!['/'] + (task + seq!['/'] + container);
    let n = cluster.len() as int;
    let m = task.len() as int;
    assert forall|i: int| 0 <= i < a.len() implies a[i] != ':' by {
        if i < n {
            assert(cluster.contains(cluster[i]));
        } else if i > n {
            assert(task.contains(task[i - n - 1]));
        }
    }
    assert forall|i: int| 0 <= i < b.len() implies b[i] != ':' by {
        if i < n {
            assert(cluster.contains(cluster[i]));
        } else if n < i < n + 1 + m {
            assert(task.contains(task[i - n - 1]));
        } else if i > n + 1 + m {
            assert(container.contains(container[i - n - m - 2]));
        }
    }
}

proof fn lemma_split_at_colon(before: Seq<char>, after: Seq<char>)
    requires
        !before.contains(':'),
    ensures
        text::position(before + seq![':'] + after, ':') == before.len(),
        (before + seq![':'] + after).contains(':'),
        (before + seq![':'] + after).take(before.len() as int) == before,
        (before + seq![':'] + after).skip(before.len() as int + 1) == after,
{
    let s = before + seq![':'] + after;
    let n = before.len() as int;
    assert(s[n] == ':');
    assert forall|j: int| 0 <= j < n implies s[j] != ':' by {
        assert(s[j] == before[j]);
        assert(before.contains(before[j]));
    }
    text::lemma_position_is(s, ':', n);
    assert(s.take(n) =~= before);
    assert(s.skip(n + 1) =~= after);
}

/// A file is copied into a container where only its destination is inside one, out of one
/// where only its source is, and not at all otherwise.
pub proof fn lemma_directions(src: Seq<char>, dst: Seq<char>)
    ensures
        direction_between(src, dst) == Some(Direction::Upload) <==> remote_parts(src) is None
            && remote_parts(dst) is Some,
        direction_between(src, dst) == Some(Direction::Download) <==> remote_parts(src) is Some
            && remote_parts(dst) is None,
        direction_between(src, dst) is None <==> (remote_parts(src) is Some <==> remote_parts(
            dst,
        ) is Some),
{
}

} // verus!
