//! Copying a directory into or out of a container, by way of S3.

use crate::cp;
use crate::cp::Direction;
use crate::error::Error;
use crate::exec::{split_place, PlaceProblem};
use crate::shell;
use crate::shell::Token;
use crate::text;
use vstd::prelude::*;

verus! {

/// Reads a place inside a container, which is written
/// `cluster/task/container:path`.
pub fn parse_remote(s: &str) -> (r: Result<(&str, &str, &str, &str), Error<PlaceProblem>>)
    ensures
        match r {
            Ok((cluster, task, container, path)) => cp::remote_parts(s@) == Some(
                (cluster@, task@, container@, path@),
            ),
            Err(e) => cp::remote_parts(s@) is None && e@ == if s@.contains(':') {
                (PlaceProblem::NotARemote, "remote must be cluster/task/container:/path"@)
            } else {
                (PlaceProblem::NoColon, "remote must contain ':'"@)
            },
        },
{
    match text::split_once(s, ':') {
        Some((prefix, path)) => match split_place(prefix) {
            Some((cluster, task, container)) => Ok((cluster, task, container, path)),
            None => Err(
                Error {
                    kind: PlaceProblem::NotARemote,
                    message: String::from_str("remote must be cluster/task/container:/path"),
                },
            ),
        },
        None => Err(
            Error {
                kind: PlaceProblem::NoColon,
                message: String::from_str("remote must contain ':'"),
            },
        ),
    }
}

/// Whether a place is meant to be inside a container.
pub open spec fn looks_remote(s: Seq<char>) -> bool {
    s.contains(':') && !"/"@.is_prefix_of(s)
}

/// Which way a directory is copied: exactly one of the two places must be meant
/// to be inside a container.
pub open spec fn direction_between(src: Seq<char>, dst: Seq<char>) -> Option<Direction> {
    match (looks_remote(src), looks_remote(dst)) {
        (false, true) => Some(Direction::Upload),
        (true, false) => Some(Direction::Download),
        _ => None,
    }
}

fn seems_remote(s: &str) -> (r: bool)
    ensures
        r == looks_remote(s@),
{
    text::find(s, ':').is_some() && !text::starts_with(s, "/")
}

/// Decides which way a directory is copied.
pub fn direction(src: &str, dst: &str) -> (r: Result<Direction, Error<PlaceProblem>>)
    ensures
        match r {
            Ok(d) => direction_between(src@, dst@) == Some(d),
            Err(e) => direction_between(src@, dst@) is None && e@ == (
                PlaceProblem::NotOneRemote,
                "exactly one of src/dst must be a remote path (alias:/path)"@,
            ),
        },
{
    let from_remote = seems_remote(src);
    let to_remote = seems_remote(dst);
    if !from_remote && to_remote {
        Ok(Direction::Upload)
    } else if from_remote && !to_remote {
        Ok(Direction::Download)
    } else {
        Err(
            Error {
                kind: PlaceProblem::NotOneRemote,
                message: String::from_str(
                    "exactly one of src/dst must be a remote path (alias:/path)",
                ),
            },
        )
    }
}

/// A text with every single quote replaced.
pub open spec fn quotes_replaced(s: Seq<char>, by: Seq<char>) -> Seq<char>
    decreases s.len(),
{
    if s.len() == 0 {
        Seq::empty()
    } else {
        quotes_replaced(s.drop_last(), by) + if s.last() == '\'' {
            by
        } else {
            seq![s.last()]
        }
    }
}

/// A text in which every single quote is replaced by a sequence that ends the
/// quoted argument of a shell, adds a quote and begins the argument anew.
pub open spec fn escaped(s: Seq<char>) -> Seq<char> {
    quotes_replaced(s, "'\\''"@)
}

/// A script in which every single quote is replaced to the same end; the quote
/// that is added stands between double quotes, so that no backslash is used.
pub open spec fn escaped_script(s: Seq<char>) -> Seq<char> {
    quotes_replaced(s, "'\"'\"'"@)
}

fn replace_quotes(s: &str, by: &str) -> (r: String)
    ensures
        r@ == quotes_replaced(s@, by@),
{
    let chars = text::chars_of(s);
    let mut out = String::new();
    let mut i: usize = 0;
    assert(s@.take(0) =~= Seq::empty());
    while i < chars.len()
        invariant
            chars@ == s@,
            i <= chars@.len(),
            out@ == quotes_replaced(s@.take(i as int), by@),
        decreases chars@.len() - i,
    {
        let ghost before = out@;
        let c = chars[i];
        assert(s@.take(i + 1).drop_last() =~= s@.take(i as int));
        assert(s@.take(i + 1).last() == c);
        if c == '\'' {
            out.append(by);
        } else {
            out.push(c);
            assert(out@ =~= before + seq![c]);
        }
        i = i + 1;
    }
    assert(s@.take(s@.len() as int) =~= s@);
    out
}

/// Makes a text fit to stand in an argument of a shell between single quotes.
pub fn shell_escape(s: &str) -> (r: String)
    ensures
        r@ == escaped(s@),
{
    replace_quotes(s, "'\\''")
}

proof fn lemma_no_quotes(s: Seq<char>, by: Seq<char>)
    requires
        !s.contains('\''),
    ensures
        quotes_replaced(s, by) == s,
    decreases s.len(),
{
    if s.len() > 0 {
        let front = s.drop_last();
        assert forall|i: int| 0 <= i < front.len() implies front[i] != '\'' by {
            assert(front[i] == s[i]);
            assert(s.contains(s[i]));
        }
        assert(s.contains(s[s.len() - 1]));
        lemma_no_quotes(front, by);
        assert(front + seq![s.last()] =~= s);
    } else {
        assert(s =~= Seq::empty());
    }
}

/// Text without single quotes needs no escaping.
pub proof fn lemma_plain_text_stays(s: Seq<char>)
    requires
        !s.contains('\''),
    ensures
        escaped(s) == s,
{
    lemma_no_quotes(s, "'\\''"@);
}

/// Between single quotes, what stands for a quote adds one to the word.
spec fn stands_for_quote(by: Seq<char>) -> bool {
    forall|r: shell::Reading|
        r.quoting is Single && r.current is Some && r.current->0 is Word ==> #[trigger] shell::read(
            Some(r),
            by,
        ) == Some(shell::with_text(r, seq!['\'']))
}

proof fn lemma_stand_for_quote()
    ensures
        stands_for_quote("'\\''"@),
        stands_for_quote("'\"'\"'"@),
{
    reveal_strlit("'\\''");
    reveal_strlit("'\"'\"'");
    let a = "'\\''"@;
    let b = "'\"'\"'"@;
    assert(a =~= seq!['\''] + seq!['\\'] + seq!['\''] + seq!['\'']);
    assert(b =~= seq!['\''] + seq!['"'] + seq!['\''] + seq!['"'] + seq!['\'']);
    assert forall|r: shell::Reading|
        r.quoting is Single && r.current is Some && r.current->0 is Word implies #[trigger] shell::read(
        Some(r),
        a,
    ) == Some(shell::with_text(r, seq!['\''])) by {
        let r1 = shell::next(r, '\'')->0;
        let r2 = shell::next(r1, '\\')->0;
        let r3 = shell::next(r2, '\'')->0;
        shell::lemma_read_one(r, '\'');
        shell::lemma_read_one(r1, '\\');
        shell::lemma_read_one(r2, '\'');
        shell::lemma_read_one(r3, '\'');
        let s2 = seq!['\''] + seq!['\\'];
        shell::lemma_read_pieces(Some(r), seq!['\''], seq!['\\']);
        shell::lemma_read_pieces(Some(r), s2, seq!['\'']);
        shell::lemma_read_pieces(Some(r), s2 + seq!['\''], seq!['\'']);
    }
    assert forall|r: shell::Reading|
        r.quoting is Single && r.current is Some && r.current->0 is Word implies #[trigger] shell::read(
        Some(r),
        b,
    ) == Some(shell::with_text(r, seq!['\''])) by {
        let r1 = shell::next(r, '\'')->0;
        let r2 = shell::next(r1, '"')->0;
        let r3 = shell::next(r2, '\'')->0;
        let r4 = shell::next(r3, '"')->0;
        shell::lemma_read_one(r, '\'');
        shell::lemma_read_one(r1, '"');
        shell::lemma_read_one(r2, '\'');
        shell::lemma_read_one(r3, '"');
        shell::lemma_read_one(r4, '\'');
        let s2 = seq!['\''] + seq!['"'];
        let s3 = s2 + seq!['\''];
        shell::lemma_read_pieces(Some(r), seq!['\''], seq!['"']);
        shell::lemma_read_pieces(Some(r), s2, seq!['\'']);
        shell::lemma_read_pieces(Some(r), s3, seq!['"']);
        shell::lemma_read_pieces(Some(r), s3 + seq!['"'], seq!['\'']);
    }
}

proof fn lemma_read_replaced(r: shell::Reading, s: Seq<char>, by: Seq<char>)
    requires
        r.quoting is Single,
        r.current is Some && r.current->0 is Word,
        stands_for_quote(by),
    ensures
        shell::read(Some(r), quotes_replaced(s, by)) == Some(shell::with_text(r, s)),
    decreases s.len(),
{
    let word = r.current->0->Word_0;
    if s.len() == 0 {
        assert(word + s =~= word);
    } else {
        let front = s.drop_last();
        let c = s.last();
        lemma_read_replaced(r, front, by);
        let before = shell::with_text(r, front);
        assert((word + front) + seq![c] =~= word + s);
        let piece = if c == '\'' {
            by
        } else {
            seq![c]
        };
        shell::lemma_read_pieces(Some(r), quotes_replaced(front, by), piece);
        if c != '\'' {
            shell::lemma_read_one(before, c);
        }
    }
}

/// A new word, in single quotes: behind the closing one it is complete.
proof fn lemma_read_quoted(r: shell::Reading, s: Seq<char>, by: Seq<char>)
    requires
        r.quoting is Outside,
        !(r.current is Some && r.current->0 is Word),
        stands_for_quote(by),
    ensures
        shell::read(Some(r), "'"@ + quotes_replaced(s, by) + "'"@) == Some(
            (shell::Reading {
                done: shell::tokens_so_far(r),
                current: Some(Token::Word(s)),
                quoting: shell::Quoting::Outside,
            }),
        ),
{
    reveal_strlit("'");
    assert("'"@ =~= seq!['\'']);
    let inner = quotes_replaced(s, by);
    let open = shell::next(r, '\'')->0;
    shell::lemma_read_one(r, '\'');
    lemma_read_replaced(open, s, by);
    assert(Seq::<char>::empty() + s =~= s);
    shell::lemma_read_one(shell::with_text(open, s), '\'');
    shell::lemma_read_pieces(Some(r), "'"@, inner);
    shell::lemma_read_pieces(Some(r), "'"@ + inner, "'"@);
}

/// A text as an argument in single quotes.
pub open spec fn quoted(s: Seq<char>) -> Seq<char> {
    "'"@ + escaped(s) + "'"@
}

/// A text that was made fit to stand between single quotes is read by a shell,
/// between single quotes, as one word: what it was.
pub proof fn lemma_escaped_is_read_back(s: Seq<char>)
    ensures
        shell::tokens(quoted(s)) == Some(seq![Token::Word(s)]),
{
    lemma_stand_for_quote();
    lemma_read_quoted(shell::between(Seq::empty()), s, "'\\''"@);
    assert(Seq::<Token>::empty().push(Token::Word(s)) =~= seq![Token::Word(s)]);
}

/// The script that fetches an archive and unpacks it.
pub open spec fn unpack_script(path: Seq<char>, url: Seq<char>) -> Seq<char> {
    "mkdir -p "@ + quoted(path) + " && (curl -sf "@ + quoted(url) + " || wget -q -O - "@ + quoted(
        url,
    ) + ") | tar xzf - -C "@ + quoted(path)
}

/// The script that packs a directory and sends it out.
pub open spec fn pack_script(path: Seq<char>, url: Seq<char>) -> Seq<char> {
    "tar czf /tmp/_ecsctl_sync.tar.gz -C "@ + quoted(path)
        + " . && curl -sf -T /tmp/_ecsctl_sync.tar.gz "@ + quoted(url)
        + " && rm -f /tmp/_ecsctl_sync.tar.gz"@
}

/// The command that has a script run by a shell of its own.
pub open spec fn script_command(script: Seq<char>) -> Seq<char> {
    "sh -c "@ + ("'"@ + escaped_script(script) + "'"@)
}

fn append_quoted(out: &mut String, s: &str)
    ensures
        final(out)@ == old(out)@ + quoted(s@),
{
    let inner = shell_escape(s);
    out.append("'");
    out.append(inner.as_str());
    out.append("'");
    assert(out@ =~= old(out)@ + quoted(s@));
}

fn run_script(script: &str) -> (r: String)
    ensures
        r@ == script_command(script@),
{
    let inner = replace_quotes(script, "'\"'\"'");
    let mut cmd = String::from_str("sh -c ");
    cmd.append("'");
    cmd.append(inner.as_str());
    cmd.append("'");
    assert(cmd@ =~= script_command(script@));
    cmd
}

/// The command that fetches an archive into a container and unpacks it.
pub fn unpack_command(remote_path: &str, url: &str) -> (r: String)
    ensures
        r@ == script_command(unpack_script(remote_path@, url@)),
{
    let mut script = String::from_str("mkdir -p ");
    append_quoted(&mut script, remote_path);
    script.append(" && (curl -sf ");
    append_quoted(&mut script, url);
    script.append(" || wget -q -O - ");
    append_quoted(&mut script, url);
    script.append(") | tar xzf - -C ");
    append_quoted(&mut script, remote_path);
    run_script(script.as_str())
}

/// The command that packs a directory inside a container and sends it out.
pub fn pack_command(remote_path: &str, url: &str) -> (r: String)
    ensures
        r@ == script_command(pack_script(remote_path@, url@)),
{
    let mut script = String::from_str("tar czf /tmp/_ecsctl_sync.tar.gz -C ");
    append_quoted(&mut script, remote_path);
    script.append(" . && curl -sf -T /tmp/_ecsctl_sync.tar.gz ");
    append_quoted(&mut script, url);
    script.append(" && rm -f /tmp/_ecsctl_sync.tar.gz");
    run_script(script.as_str())
}

/// A command that has a script run is read as `sh`, `-c` and that script.
pub proof fn lemma_script_is_passed_on(script: Seq<char>)
    ensures
        shell::tokens(script_command(script)) == Some(
            seq![Token::Word("sh"@), Token::Word("-c"@), Token::Word(script)],
        ),
{
    let start = shell::between(Seq::empty());
    let words = seq!["sh"@, "-c"@];
    reveal_strlit("sh -c ");
    reveal_strlit("sh");
    reveal_strlit("-c");
    reveal_strlit(" ");
    reveal_with_fuel(shell::spaced, 3);
    assert(words.drop_last() =~= seq!["sh"@]);
    assert(words.drop_last().drop_last() =~= Seq::empty());
    assert("sh -c "@ =~= shell::spaced(words));
    shell::lemma_read_words(start, words);
    lemma_stand_for_quote();
    let before = shell::between(Seq::empty() + shell::as_tokens(words));
    lemma_read_quoted(before, script, "'\"'\"'"@);
    shell::lemma_read_pieces(Some(start), "sh -c "@, "'"@ + escaped_script(script) + "'"@);
    assert((Seq::empty() + shell::as_tokens(words)).push(Token::Word(script)) =~= seq![
        Token::Word("sh"@),
        Token::Word("-c"@),
        Token::Word(script),
    ]);
}

/// Outside quotes, with a complete word behind other tokens.
spec fn after_word(done: Seq<Token>, word: Seq<char>) -> shell::Reading {
    shell::Reading {
        done,
        current: Some(Token::Word(word)),
        quoting: shell::Quoting::Outside,
    }
}

/// Reading goes on with an argument in quotes.
proof fn lemma_argument(t: Seq<char>, done: Seq<Token>, s: Seq<char>)
    requires
        shell::read(Some(shell::between(Seq::empty())), t) == Some(shell::between(done)),
    ensures
        shell::read(Some(shell::between(Seq::empty())), t + quoted(s)) == Some(after_word(done, s)),
{
    lemma_stand_for_quote();
    lemma_read_quoted(shell::between(done), s, "'\\''"@);
    shell::lemma_read_pieces(Some(shell::between(Seq::empty())), t, quoted(s));
}

/// A space ends a word.
proof fn lemma_word_ends(done: Seq<Token>, word: Seq<char>)
    ensures
        shell::read(Some(after_word(done, word)), seq![' ']) == Some(
            shell::between(done.push(Token::Word(word))),
        ),
{
    shell::lemma_read_one(after_word(done, word), ' ');
}

proof fn lemma_mkdir()
    ensures
        shell::read(Some(shell::between(Seq::empty())), "mkdir -p "@) == Some(
            shell::between(seq![Token::Word("mkdir"@), Token::Word("-p"@)]),
        ),
{
    let words = seq!["mkdir"@, "-p"@];
    reveal_strlit("mkdir -p ");
    reveal_strlit("mkdir");
    reveal_strlit("-p");
    reveal_strlit(" ");
    reveal_with_fuel(shell::spaced, 3);
    assert(words.drop_last() =~= seq!["mkdir"@]);
    assert(words.drop_last().drop_last() =~= Seq::empty());
    assert("mkdir -p "@ =~= shell::spaced(words));
    shell::lemma_read_words(shell::between(Seq::empty()), words);
    assert(Seq::<Token>::empty() + shell::as_tokens(words) =~= seq![
        Token::Word("mkdir"@),
        Token::Word("-p"@),
    ]);
}

proof fn lemma_curl(done: Seq<Token>, word: Seq<char>)
    ensures
        shell::read(Some(after_word(done, word)), " && (curl -sf "@) == Some(
            shell::between(
                done + seq![
                    Token::Word(word),
                    Token::Operator("&&"@),
                    Token::Operator("("@),
                    Token::Word("curl"@),
                    Token::Word("-sf"@),
                ],
            ),
        ),
{
    let r0 = after_word(done, word);
    let words = seq!["curl"@, "-sf"@];
    reveal_strlit(" && (curl -sf ");
    reveal_strlit("&&");
    reveal_strlit("(");
    reveal_strlit("curl");
    reveal_strlit("-sf");
    reveal_strlit(" ");
    assert("&&"@ =~= seq!['&', '&']);
    assert("("@ =~= seq!['(']);
    reveal_with_fuel(shell::spaced, 3);
    assert(words.drop_last() =~= seq!["curl"@]);
    assert(words.drop_last().drop_last() =~= Seq::empty());
    let a = seq![' '];
    let b = a + seq!['&', '&', ' '];
    let c = b + seq!['('];
    assert(" && (curl -sf "@ =~= c + shell::spaced(words));
    lemma_word_ends(done, word);
    let d1 = done.push(Token::Word(word));
    shell::lemma_read_double(d1, '&');
    let d2 = d1.push(Token::Operator(seq!['&', '&']));
    shell::lemma_read_one(shell::between(d2), '(');
    let r3 = shell::with_operator(shell::between(d2), '(');
    shell::lemma_read_words(r3, words);
    shell::lemma_read_pieces(Some(r0), a, seq!['&', '&', ' ']);
    shell::lemma_read_pieces(Some(r0), b, seq!['(']);
    shell::lemma_read_pieces(Some(r0), c, shell::spaced(words));
    assert(shell::tokens_so_far(r3) + shell::as_tokens(words) =~= done + seq![
        Token::Word(word),
        Token::Operator("&&"@),
        Token::Operator("("@),
        Token::Word("curl"@),
        Token::Word("-sf"@),
    ]);
}

proof fn lemma_wget(done: Seq<Token>, word: Seq<char>)
    ensures
        shell::read(Some(after_word(done, word)), " || wget -q -O - "@) == Some(
            shell::between(
                done + seq![
                    Token::Word(word),
                    Token::Operator("||"@),
                    Token::Word("wget"@),
                    Token::Word("-q"@),
                    Token::Word("-O"@),
                    Token::Word("-"@),
                ],
            ),
        ),
{
    let r0 = after_word(done, word);
    let words = seq!["wget"@, "-q"@, "-O"@, "-"@];
    reveal_strlit(" || wget -q -O - ");
    reveal_strlit("||");
    reveal_strlit("wget");
    reveal_strlit("-q");
    reveal_strlit("-O");
    reveal_strlit("-");
    reveal_strlit(" ");
    assert("||"@ =~= seq!['|', '|']);
    reveal_with_fuel(shell::spaced, 5);
    assert(words.drop_last() =~= seq!["wget"@, "-q"@, "-O"@]);
    assert(words.drop_last().drop_last() =~= seq!["wget"@, "-q"@]);
    assert(words.drop_last().drop_last().drop_last() =~= seq!["wget"@]);
    assert(words.drop_last().drop_last().drop_last().drop_last() =~= Seq::empty());
    let a = seq![' '];
    let b = a + seq!['|', '|', ' '];
    assert(" || wget -q -O - "@ =~= b + shell::spaced(words));
    lemma_word_ends(done, word);
    let d1 = done.push(Token::Word(word));
    shell::lemma_read_double(d1, '|');
    let d2 = d1.push(Token::Operator(seq!['|', '|']));
    shell::lemma_read_words(shell::between(d2), words);
    shell::lemma_read_pieces(Some(r0), a, seq!['|', '|', ' ']);
    shell::lemma_read_pieces(Some(r0), b, shell::spaced(words));
    assert(d2 + shell::as_tokens(words) =~= done + seq![
        Token::Word(word),
        Token::Operator("||"@),
        Token::Word("wget"@),
        Token::Word("-q"@),
        Token::Word("-O"@),
        Token::Word("-"@),
    ]);
}

proof fn lemma_untar(done: Seq<Token>, word: Seq<char>)
    ensures
        shell::read(Some(after_word(done, word)), ") | tar xzf - -C "@) == Some(
            shell::between(
                done + seq![
                    Token::Word(word),
                    Token::Operator(")"@),
                    Token::Operator("|"@),
                    Token::Word("tar"@),
                    Token::Word("xzf"@),
                    Token::Word("-"@),
                    Token::Word("-C"@),
                ],
            ),
        ),
{
    let r0 = after_word(done, word);
    let words = seq!["tar"@, "xzf"@, "-"@, "-C"@];
    reveal_strlit(") | tar xzf - -C ");
    reveal_strlit(")");
    reveal_strlit("|");
    reveal_strlit("tar");
    reveal_strlit("xzf");
    reveal_strlit("-");
    reveal_strlit("-C");
    reveal_strlit(" ");
    assert(")"@ =~= seq![')']);
    assert("|"@ =~= seq!['|']);
    reveal_with_fuel(shell::spaced, 5);
    assert(words.drop_last() =~= seq!["tar"@, "xzf"@, "-"@]);
    assert(words.drop_last().drop_last() =~= seq!["tar"@, "xzf"@]);
    assert(words.drop_last().drop_last().drop_last() =~= seq!["tar"@]);
    assert(words.drop_last().drop_last().drop_last().drop_last() =~= Seq::empty());
    let a = seq![')'];
    let b = a + seq![' '];
    let c = b + seq!['|'];
    let d = c + seq![' '];
    assert(") | tar xzf - -C "@ =~= d + shell::spaced(words));
    let r1 = shell::with_operator(r0, ')');
    let r2 = shell::between(shell::tokens_so_far(r1));
    let r3 = shell::with_operator(r2, '|');
    let r4 = shell::between(shell::tokens_so_far(r3));
    shell::lemma_read_one(r0, ')');
    shell::lemma_read_one(r1, ' ');
    shell::lemma_read_one(r2, '|');
    shell::lemma_read_one(r3, ' ');
    shell::lemma_read_words(r4, words);
    shell::lemma_read_pieces(Some(r0), a, seq![' ']);
    shell::lemma_read_pieces(Some(r0), b, seq!['|']);
    shell::lemma_read_pieces(Some(r0), c, seq![' ']);
    shell::lemma_read_pieces(Some(r0), d, shell::spaced(words));
    assert(shell::tokens_so_far(r3) + shell::as_tokens(words) =~= done + seq![
        Token::Word(word),
        Token::Operator(")"@),
        Token::Operator("|"@),
        Token::Word("tar"@),
        Token::Word("xzf"@),
        Token::Word("-"@),
        Token::Word("-C"@),
    ]);
}

/// Whatever the path and the URL hold, the command that unpacks is read as `sh`,
/// `-c` and a script; and in the script the path and the URL are words of their
/// own, as they were given, between the programs that are run and their options.
pub proof fn lemma_unpack_command_is_read(path: Seq<char>, url: Seq<char>)
    ensures
        shell::tokens(script_command(unpack_script(path, url))) == Some(
            seq![
                Token::Word("sh"@),
                Token::Word("-c"@),
                Token::Word(unpack_script(path, url)),
            ],
        ),
        shell::tokens(unpack_script(path, url)) == Some(
            seq![
                Token::Word("mkdir"@),
                Token::Word("-p"@),
                Token::Word(path),
                Token::Operator("&&"@),
                Token::Operator("("@),
                Token::Word("curl"@),
                Token::Word("-sf"@),
                Token::Word(url),
                Token::Operator("||"@),
                Token::Word("wget"@),
                Token::Word("-q"@),
                Token::Word("-O"@),
                Token::Word("-"@),
                Token::Word(url),
                Token::Operator(")"@),
                Token::Operator("|"@),
                Token::Word("tar"@),
                Token::Word("xzf"@),
                Token::Word("-"@),
                Token::Word("-C"@),
                Token::Word(path),
            ],
        ),
{
    lemma_script_is_passed_on(unpack_script(path, url));
    let start = Some(shell::between(Seq::empty()));
    let d1 = seq![Token::Word("mkdir"@), Token::Word("-p"@)];
    let d2 = d1 + seq![
        Token::Word(path),
        Token::Operator("&&"@),
        Token::Operator("("@),
        Token::Word("curl"@),
        Token::Word("-sf"@),
    ];
    let d3 = d2 + seq![
        Token::Word(url),
        Token::Operator("||"@),
        Token::Word("wget"@),
        Token::Word("-q"@),
        Token::Word("-O"@),
        Token::Word("-"@),
    ];
    let d4 = d3 + seq![
        Token::Word(url),
        Token::Operator(")"@),
        Token::Operator("|"@),
        Token::Word("tar"@),
        Token::Word("xzf"@),
        Token::Word("-"@),
        Token::Word("-C"@),
    ];
    let t1 = "mkdir -p "@;
    let t2 = t1 + quoted(path);
    let t3 = t2 + " && (curl -sf "@;
    let t4 = t3 + quoted(url);
    let t5 = t4 + " || wget -q -O - "@;
    let t6 = t5 + quoted(url);
    let t7 = t6 + ") | tar xzf - -C "@;
    lemma_mkdir();
    lemma_argument(t1, d1, path);
    lemma_curl(d1, path);
    shell::lemma_read_pieces(start, t2, " && (curl -sf "@);
    lemma_argument(t3, d2, url);
    lemma_wget(d2, url);
    shell::lemma_read_pieces(start, t4, " || wget -q -O - "@);
    lemma_argument(t5, d3, url);
    lemma_untar(d3, url);
    shell::lemma_read_pieces(start, t6, ") | tar xzf - -C "@);
    lemma_argument(t7, d4, path);
    assert(unpack_script(path, url) == t7 + quoted(path));
}

proof fn lemma_tar()
    ensures
        shell::read(
            Some(shell::between(Seq::empty())),
            "tar czf /tmp/_ecsctl_sync.tar.gz -C "@,
        ) == Some(
            shell::between(
                seq![
                    Token::Word("tar"@),
                    Token::Word("czf"@),
                    Token::Word("/tmp/_ecsctl_sync.tar.gz"@),
                    Token::Word("-C"@),
                ],
            ),
        ),
{
    let words = seq!["tar"@, "czf"@, "/tmp/_ecsctl_sync.tar.gz"@, "-C"@];
    reveal_strlit("tar czf /tmp/_ecsctl_sync.tar.gz -C ");
    reveal_strlit("tar");
    reveal_strlit("czf");
    reveal_strlit("/tmp/_ecsctl_sync.tar.gz");
    reveal_strlit("-C");
    reveal_strlit(" ");
    reveal_with_fuel(shell::spaced, 5);
    assert(words.drop_last() =~= seq!["tar"@, "czf"@, "/tmp/_ecsctl_sync.tar.gz"@]);
    assert(words.drop_last().drop_last() =~= seq!["tar"@, "czf"@]);
    assert(words.drop_last().drop_last().drop_last() =~= seq!["tar"@]);
    assert(words.drop_last().drop_last().drop_last().drop_last() =~= Seq::empty());
    assert("tar czf /tmp/_ecsctl_sync.tar.gz -C "@ =~= shell::spaced(words));
    shell::lemma_read_words(shell::between(Seq::empty()), words);
    assert(Seq::<Token>::empty() + shell::as_tokens(words) =~= seq![
        Token::Word("tar"@),
        Token::Word("czf"@),
        Token::Word("/tmp/_ecsctl_sync.tar.gz"@),
        Token::Word("-C"@),
    ]);
}

proof fn lemma_send(done: Seq<Token>, word: Seq<char>)
    ensures
        shell::read(
            Some(after_word(done, word)),
            " . && curl -sf -T /tmp/_ecsctl_sync.tar.gz "@,
        ) == Some(
            shell::between(
                done + seq![
                    Token::Word(word),
                    Token::Word("."@),
                    Token::Operator("&&"@),
                    Token::Word("curl"@),
                    Token::Word("-sf"@),
                    Token::Word("-T"@),
                    Token::Word("/tmp/_ecsctl_sync.tar.gz"@),
                ],
            ),
        ),
{
    let r0 = after_word(done, word);
    let words = seq!["curl"@, "-sf"@, "-T"@, "/tmp/_ecsctl_sync.tar.gz"@];
    reveal_strlit(" . && curl -sf -T /tmp/_ecsctl_sync.tar.gz ");
    reveal_strlit(".");
    reveal_strlit("&&");
    reveal_strlit("curl");
    reveal_strlit("-sf");
    reveal_strlit("-T");
    reveal_strlit("/tmp/_ecsctl_sync.tar.gz");
    reveal_strlit(" ");
    assert("&&"@ =~= seq!['&', '&']);
    reveal_with_fuel(shell::spaced, 5);
    assert(words.drop_last() =~= seq!["curl"@, "-sf"@, "-T"@]);
    assert(words.drop_last().drop_last() =~= seq!["curl"@, "-sf"@]);
    assert(words.drop_last().drop_last().drop_last() =~= seq!["curl"@]);
    assert(words.drop_last().drop_last().drop_last().drop_last() =~= Seq::empty());
    let a = seq![' '];
    let b = a + ("."@ + " "@);
    let c = b + seq!['&', '&', ' '];
    assert(" . && curl -sf -T /tmp/_ecsctl_sync.tar.gz "@ =~= c + shell::spaced(words));
    lemma_word_ends(done, word);
    let d1 = done.push(Token::Word(word));
    shell::lemma_read_word(shell::between(d1), "."@);
    let d2 = d1.push(Token::Word("."@));
    shell::lemma_read_double(d2, '&');
    let d3 = d2.push(Token::Operator(seq!['&', '&']));
    shell::lemma_read_words(shell::between(d3), words);
    shell::lemma_read_pieces(Some(r0), a, "."@ + " "@);
    shell::lemma_read_pieces(Some(r0), b, seq!['&', '&', ' ']);
    shell::lemma_read_pieces(Some(r0), c, shell::spaced(words));
    assert(d3 + shell::as_tokens(words) =~= done + seq![
        Token::Word(word),
        Token::Word("."@),
        Token::Operator("&&"@),
        Token::Word("curl"@),
        Token::Word("-sf"@),
        Token::Word("-T"@),
        Token::Word("/tmp/_ecsctl_sync.tar.gz"@),
    ]);
}

proof fn lemma_remove(done: Seq<Token>, word: Seq<char>)
    ensures
        shell::read(Some(after_word(done, word)), " && rm -f /tmp/_ecsctl_sync.tar.gz"@) == Some(
            after_word(
                done + seq![
                    Token::Word(word),
                    Token::Operator("&&"@),
                    Token::Word("rm"@),
                    Token::Word("-f"@),
                ],
                "/tmp/_ecsctl_sync.tar.gz"@,
            ),
        ),
{
    let r0 = after_word(done, word);
    let words = seq!["rm"@, "-f"@];
    let archive = "/tmp/_ecsctl_sync.tar.gz"@;
    reveal_strlit(" && rm -f /tmp/_ecsctl_sync.tar.gz");
    reveal_strlit("&&");
    reveal_strlit("rm");
    reveal_strlit("-f");
    reveal_strlit("/tmp/_ecsctl_sync.tar.gz");
    reveal_strlit(" ");
    assert("&&"@ =~= seq!['&', '&']);
    reveal_with_fuel(shell::spaced, 3);
    assert(words.drop_last() =~= seq!["rm"@]);
    assert(words.drop_last().drop_last() =~= Seq::empty());
    let a = seq![' '];
    let b = a + seq!['&', '&', ' '];
    let c = b + shell::spaced(words);
    assert(" && rm -f /tmp/_ecsctl_sync.tar.gz"@ =~= c + archive);
    lemma_word_ends(done, word);
    let d1 = done.push(Token::Word(word));
    shell::lemma_read_double(d1, '&');
    let d2 = d1.push(Token::Operator(seq!['&', '&']));
    shell::lemma_read_words(shell::between(d2), words);
    let d3 = d2 + shell::as_tokens(words);
    shell::lemma_read_plain(shell::between(d3), archive);
    assert(Seq::<char>::empty() + archive =~= archive);
    shell::lemma_read_pieces(Some(r0), a, seq!['&', '&', ' ']);
    shell::lemma_read_pieces(Some(r0), b, shell::spaced(words));
    shell::lemma_read_pieces(Some(r0), c, archive);
    assert(d3 =~= done + seq![
        Token::Word(word),
        Token::Operator("&&"@),
        Token::Word("rm"@),
        Token::Word("-f"@),
    ]);
}

/// Whatever the path and the URL hold, the command that packs is read as `sh`,
/// `-c` and a script; and in the script the path and the URL are words of their
/// own, as they were given, between the programs that are run and their options.
pub proof fn lemma_pack_command_is_read(path: Seq<char>, url: Seq<char>)
    ensures
        shell::tokens(script_command(pack_script(path, url))) == Some(
            seq![Token::Word("sh"@), Token::Word("-c"@), Token::Word(pack_script(path, url))],
        ),
        shell::tokens(pack_script(path, url)) == Some(
            seq![
                Token::Word("tar"@),
                Token::Word("czf"@),
                Token::Word("/tmp/_ecsctl_sync.tar.gz"@),
                Token::Word("-C"@),
                Token::Word(path),
                Token::Word("."@),
                Token::Operator("&&"@),
                Token::Word("curl"@),
                Token::Word("-sf"@),
                Token::Word("-T"@),
                Token::Word("/tmp/_ecsctl_sync.tar.gz"@),
                Token::Word(url),
                Token::Operator("&&"@),
                Token::Word("rm"@),
                Token::Word("-f"@),
                Token::Word("/tmp/_ecsctl_sync.tar.gz"@),
            ],
        ),
{
    lemma_script_is_passed_on(pack_script(path, url));
    let start = Some(shell::between(Seq::empty()));
    let d1 = seq![
        Token::Word("tar"@),
        Token::Word("czf"@),
        Token::Word("/tmp/_ecsctl_sync.tar.gz"@),
        Token::Word("-C"@),
    ];
    let d2 = d1 + seq![
        Token::Word(path),
        Token::Word("."@),
        Token::Operator("&&"@),
        Token::Word("curl"@),
        Token::Word("-sf"@),
        Token::Word("-T"@),
        Token::Word("/tmp/_ecsctl_sync.tar.gz"@),
    ];
    let t1 = "tar czf /tmp/_ecsctl_sync.tar.gz -C "@;
    let t2 = t1 + quoted(path);
    let t3 = t2 + " . && curl -sf -T /tmp/_ecsctl_sync.tar.gz "@;
    let t4 = t3 + quoted(url);
    lemma_tar();
    lemma_argument(t1, d1, path);
    lemma_send(d1, path);
    shell::lemma_read_pieces(start, t2, " . && curl -sf -T /tmp/_ecsctl_sync.tar.gz "@);
    lemma_argument(t3, d2, url);
    lemma_remove(d2, url);
    shell::lemma_read_pieces(start, t4, " && rm -f /tmp/_ecsctl_sync.tar.gz"@);
    assert(pack_script(path, url) == t4 + " && rm -f /tmp/_ecsctl_sync.tar.gz"@);
}

/// A directory is copied into a container where only its destination has a colon and does
/// not begin with a slash, out of one where only its source does, and not at all otherwise.
pub proof fn lemma_directions(src: Seq<char>, dst: Seq<char>)
    ensures
        ({
            let from = src.contains(':') && !(src.len() > 0 && src[0] == '/');
            let to = dst.contains(':') && !(dst.len() > 0 && dst[0] == '/');
            &&& direction_between(src, dst) == Some(Direction::Upload) <==> !from && to
            &&& direction_between(src, dst) == Some(Direction::Download) <==> from && !to
            &&& direction_between(src, dst) is None <==> from == to
        }),
{
    reveal_strlit("/");
    lemma_begins_with_slash(src);
    lemma_begins_with_slash(dst);
}

proof fn lemma_begins_with_slash(s: Seq<char>)
    ensures
        "/"@.is_prefix_of(s) <==> s.len() > 0 && s[0] == '/',
{
    reveal_strlit("/");
    if s.len() > 0 && s[0] == '/' {
        assert(s.take(1) =~= "/"@);
    }
    if "/"@.is_prefix_of(s) {
        assert(s.take(1)[0] == "/"@[0]);
    }
}

} // verus!
