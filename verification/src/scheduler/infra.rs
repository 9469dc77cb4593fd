//! The names and expressions of schedules, and which failures are worth another
//! attempt.

use crate::error::Error;
use crate::number;
use crate::text;
use crate::text::same;
use vstd::prelude::*;

verus! {

/// What can be wrong with a schedule.
#[derive(Debug, Clone, Copy, PartialEq, Eq, Structural)]
pub enum ScheduleProblem {
    ArnFormat,
    ArnPrefix,
    ArnPartition,
    ArnService,
    ArnAccount,
    ArnResource,
    ArnRoleName,
    CronFields,
    EmptyRate,
    RateFormat,
    RateValue,
    RateUnit,
    EmptyAt,
    Expression,
    EmptyName,
    ScheduleNotFound,
}

/// A problem and the message that explains it.
pub type Problem = (ScheduleProblem, Seq<char>);

/// The parts of AWS that have a name of their own.
pub open spec fn is_partition(s: Seq<char>) -> bool {
    s == "aws"@ || s == "aws-cn"@ || s == "aws-us-gov"@ || s == "aws-iso"@ || s == "aws-iso-b"@
}

/// What is wrong with the ARN of a role, which is written
/// `arn:<partition>:iam::<account>:role/<name>`. A role belongs to no region, so
/// that the field for one is empty.
pub open spec fn arn_problem(arn: Seq<char>) -> Option<Problem> {
    let parts = text::split_at_most(arn, 6, ':');
    if parts.len() != 6 {
        Some(
            (
                ScheduleProblem::ArnFormat,
                "invalid role ARN format: expected 'arn:aws:iam::<account-id>:role/<name>', got '"@
                    + arn + "'"@,
            ),
        )
    } else if parts[0] != "arn"@ {
        Some(
            (
                ScheduleProblem::ArnPrefix,
                "invalid role ARN: must start with 'arn:', got '"@ + arn + "'"@,
            ),
        )
    } else if !is_partition(parts[1]) {
        Some(
            (
                ScheduleProblem::ArnPartition,
                "invalid role ARN: unrecognized partition '"@ + parts[1]
                    + "'. Expected aws, aws-cn, aws-us-gov, aws-iso, or aws-iso-b"@,
            ),
        )
    } else if parts[2] != "iam"@ {
        Some(
            (
                ScheduleProblem::ArnService,
                "invalid role ARN: service must be 'iam', got '"@ + parts[2]
                    + "'. Make sure you're passing an IAM role ARN, not a "@ + parts[2] + " ARN"@,
            ),
        )
    } else if parts[3].len() != 0 {
        Some(
            (
                ScheduleProblem::ArnFormat,
                "invalid role ARN format: expected 'arn:aws:iam::<account-id>:role/<name>', got '"@
                    + arn + "'"@,
            ),
        )
    } else if parts[4].len() == 0 || !number::all_digits(parts[4]) {
        Some(
            (
                ScheduleProblem::ArnAccount,
                "invalid role ARN: account ID must be numeric, got '"@ + parts[4] + "'"@,
            ),
        )
    } else if !"role/"@.is_prefix_of(parts[5]) {
        Some(
            (
                ScheduleProblem::ArnResource,
                "invalid role ARN: resource must start with 'role/', got '"@ + parts[5]
                    + "'. Make sure you're passing an IAM role ARN, not a user or policy ARN"@,
            ),
        )
    } else if parts[5] == "role/"@ {
        Some(
            (ScheduleProblem::ArnRoleName, "invalid role ARN: role name cannot be empty"@),
        )
    } else {
        None
    }
}

fn problem(kind: ScheduleProblem, a: &str, b: &str, c: &str) -> (r: Error<ScheduleProblem>)
    ensures
        r@ == (kind, a@ + b@ + c@),
{
    let mut m = String::from_str(a);
    m.append(b);
    m.append(c);
    Error { kind, message: m }
}

fn digits_only(s: &str) -> (r: bool)
    ensures
        r == number::all_digits(s@),
{
    let chars = text::chars_of(s);
    let mut i: usize = 0;
    while i < chars.len()
        invariant
            chars@ == s@,
            i <= chars@.len(),
            forall|j: int| 0 <= j < i ==> number::is_digit(#[trigger] chars@[j]),
        decreases chars@.len() - i,
    {
        let c = chars[i];
        if !('0' <= c && c <= '9') {
            assert(!number::is_digit(s@[i as int]));
            return false;
        }
        i = i + 1;
    }
    true
}

/// Checks the ARN of a role, so that a typo, or the ARN of something else, is
/// named before AWS is asked.
pub fn validate_role_arn(role_arn: &str) -> (r: Result<(), Error<ScheduleProblem>>)
    ensures
        match r {
            Ok(()) => arn_problem(role_arn@) is None,
            Err(e) => arn_problem(role_arn@) == Some(e@),
        },
{
    let parts = text::splitn(role_arn, 6, ':');
    let ghost all = text::slices(parts@);
    if parts.len() != 6 {
        return Err(
            problem(
                ScheduleProblem::ArnFormat,
                "invalid role ARN format: expected 'arn:aws:iam::<account-id>:role/<name>', got '",
                role_arn,
                "'",
            ),
        );
    }
    let prefix = parts[0];
    let partition = parts[1];
    let service = parts[2];
    let region = parts[3];
    let account = parts[4];
    let resource = parts[5];
    assert(all[0] == prefix@);
    assert(all[1] == partition@);
    assert(all[2] == service@);
    assert(all[3] == region@);
    assert(all[4] == account@);
    assert(all[5] == resource@);
    if !same(prefix, "arn") {
        return Err(
            problem(
                ScheduleProblem::ArnPrefix,
                "invalid role ARN: must start with 'arn:', got '",
                role_arn,
                "'",
            ),
        );
    }
    if !(same(partition, "aws") || same(partition, "aws-cn") || same(partition, "aws-us-gov")
        || same(partition, "aws-iso") || same(partition, "aws-iso-b")) {
        return Err(
            problem(
                ScheduleProblem::ArnPartition,
                "invalid role ARN: unrecognized partition '",
                partition,
                "'. Expected aws, aws-cn, aws-us-gov, aws-iso, or aws-iso-b",
            ),
        );
    }
    if !same(service, "iam") {
        let mut m = String::from_str("invalid role ARN: service must be 'iam', got '");
        m.append(service);
        m.append("'. Make sure you're passing an IAM role ARN, not a ");
        m.append(service);
        m.append(" ARN");
        return Err(Error { kind: ScheduleProblem::ArnService, message: m });
    }
    if region.unicode_len() != 0 {
        return Err(
            problem(
                ScheduleProblem::ArnFormat,
                "invalid role ARN format: expected 'arn:aws:iam::<account-id>:role/<name>', got '",
                role_arn,
                "'",
            ),
        );
    }
    if account.unicode_len() == 0 || !digits_only(account) {
        return Err(
            problem(
                ScheduleProblem::ArnAccount,
                "invalid role ARN: account ID must be numeric, got '",
                account,
                "'",
            ),
        );
    }
    if !text::starts_with(resource, "role/") {
        return Err(
            problem(
                ScheduleProblem::ArnResource,
                "invalid role ARN: resource must start with 'role/', got '",
                resource,
                "'. Make sure you're passing an IAM role ARN, not a user or policy ARN",
            ),
        );
    }
    if same(resource, "role/") {
        return Err(
            Error {
                kind: ScheduleProblem::ArnRoleName,
                message: String::from_str("invalid role ARN: role name cannot be empty"),
            },
        );
    }
    Ok(())
}

/// Whether a text is a word with something in brackets behind it, such as
/// `rate(5 minutes)`; `start` is the word and the opening bracket.
pub open spec fn is_call(s: Seq<char>, start: Seq<char>) -> bool {
    start.is_prefix_of(s) && ")"@.is_suffix_of(s)
}

/// What stands between the brackets.
pub open spec fn call_argument(s: Seq<char>, start: Seq<char>) -> Seq<char> {
    s.subrange(start.len() as int, s.len() - 1)
}

/// Whether a word is a unit of a rate.
pub open spec fn is_rate_unit(s: Seq<char>) -> bool {
    s == "minute"@ || s == "minutes"@ || s == "hour"@ || s == "hours"@ || s == "day"@ || s
        == "days"@
}

/// What is wrong with what stands between the brackets of a rate.
pub open spec fn rate_problem(inner: Seq<char>) -> Option<Problem> {
    let parts = text::words(inner);
    if inner.len() == 0 {
        Some((ScheduleProblem::EmptyRate, "invalid rate expression: rate() is empty"@))
    } else if parts.len() != 2 {
        Some(
            (
                ScheduleProblem::RateFormat,
                "invalid rate expression: expected 'rate(<value> <unit>)', got 'rate("@ + inner
                    + ")'. Example: rate(5 minutes)"@,
            ),
        )
    } else if number::parse_unsigned_spec(parts[0], u64::MAX as nat) is None {
        Some(
            (
                ScheduleProblem::RateValue,
                "invalid rate expression: value '"@ + parts[0] + "' is not a positive integer"@,
            ),
        )
    } else if !is_rate_unit(parts[1]) {
        Some(
            (
                ScheduleProblem::RateUnit,
                "invalid rate expression: unit '"@ + parts[1]
                    + "' not recognized. Valid units: minute(s), hour(s), day(s)"@,
            ),
        )
    } else {
        None
    }
}

/// What is wrong with a schedule expression. White space around it does not
/// count.
pub open spec fn expression_problem(expr: Seq<char>) -> Option<Problem> {
    let s = text::trimmed(expr);
    if is_call(s, "cron("@) {
        let n = text::words(call_argument(s, "cron("@)).len();
        if n != 6 {
            Some(
                (
                    ScheduleProblem::CronFields,
                    "invalid cron: expected 6 fields (min hour dom month dow year), got "@
                        + number::decimal(n) + ". Example: cron(0 8 * * ? *)"@,
                ),
            )
        } else {
            None
        }
    } else if is_call(s, "rate("@) {
        rate_problem(text::trimmed(call_argument(s, "rate("@)))
    } else if is_call(s, "at("@) {
        if text::trimmed(call_argument(s, "at("@)).len() == 0 {
            Some(
                (
                    ScheduleProblem::EmptyAt,
                    "invalid at expression: at() is empty. Example: at(2024-01-01T00:00:00)"@,
                ),
            )
        } else {
            None
        }
    } else {
        Some(
            (
                ScheduleProblem::Expression,
                "invalid schedule expression. Must start with cron(...), rate(...), or at(...). Got: '"@
                    + s + "'"@,
            ),
        )
    }
}

/// What stands between the brackets, where a text is a word with something in
/// brackets behind it.
fn argument<'a>(s: &'a str, start: &str) -> (r: Option<&'a str>)
    requires
        start@.len() > 0,
        start@.last() == '(',
    ensures
        match r {
            Some(inner) => is_call(s@, start@) && inner@ == call_argument(s@, start@),
            None => !is_call(s@, start@),
        },
{
    if !text::starts_with(s, start) || !text::ends_with(s, ")") {
        return None;
    }
    let n = s.unicode_len();
    let from = start.unicode_len();
    proof {
        reveal_strlit(")");
        assert(s@.subrange(n - 1, n as int)[0] == ')');
        assert(s@[n - 1] == ')');
        assert(s@[from - 1] == start@[from - 1]);
        assert(from <= n - 1);
    }
    let inner = s.substring_char(from, n - 1);
    Some(inner)
}

fn check_rate(inner: &str) -> (r: Result<(), Error<ScheduleProblem>>)
    ensures
        match r {
            Ok(()) => rate_problem(inner@) is None,
            Err(e) => rate_problem(inner@) == Some(e@),
        },
{
    if inner.unicode_len() == 0 {
        return Err(
            Error {
                kind: ScheduleProblem::EmptyRate,
                message: String::from_str("invalid rate expression: rate() is empty"),
            },
        );
    }
    let parts = text::split_whitespace(inner);
    let ghost all = text::slices(parts@);
    if parts.len() != 2 {
        return Err(
            problem(
                ScheduleProblem::RateFormat,
                "invalid rate expression: expected 'rate(<value> <unit>)', got 'rate(",
                inner,
                ")'. Example: rate(5 minutes)",
            ),
        );
    }
    let value = parts[0];
    let unit = parts[1];
    assert(all[0] == value@);
    assert(all[1] == unit@);
    if number::parse_unsigned(value, 0xffff_ffff_ffff_ffff).is_none() {
        return Err(
            problem(
                ScheduleProblem::RateValue,
                "invalid rate expression: value '",
                value,
                "' is not a positive integer",
            ),
        );
    }
    if !(same(unit, "minute") || same(unit, "minutes") || same(unit, "hour") || same(unit, "hours")
        || same(unit, "day") || same(unit, "days")) {
        return Err(
            problem(
                ScheduleProblem::RateUnit,
                "invalid rate expression: unit '",
                unit,
                "' not recognized. Valid units: minute(s), hour(s), day(s)",
            ),
        );
    }
    Ok(())
}

/// Checks a schedule expression: `cron(...)` with six fields, `rate(...)` with a
/// number and a unit, or `at(...)` with something in it.
pub fn validate_schedule_expression(expr: &str) -> (r: Result<(), Error<ScheduleProblem>>)
    ensures
        match r {
            Ok(()) => expression_problem(expr@) is None,
            Err(e) => expression_problem(expr@) == Some(e@),
        },
{
    proof {
        reveal_strlit("cron(");
        reveal_strlit("rate(");
        reveal_strlit("at(");
    }
    let trimmed = text::trim(expr);
    match argument(trimmed, "cron(") {
        Some(inner) => {
            let fields = text::split_whitespace(inner);
            assert(text::slices(fields@).len() == fields@.len());
            if fields.len() != 6 {
                return Err(
                    problem(
                        ScheduleProblem::CronFields,
                        "invalid cron: expected 6 fields (min hour dom month dow year), got ",
                        number::to_decimal(fields.len() as u128).as_str(),
                        ". Example: cron(0 8 * * ? *)",
                    ),
                );
            }
            return Ok(());
        },
        None => {},
    }
    match argument(trimmed, "rate(") {
        Some(inner) => {
            return check_rate(text::trim(inner));
        },
        None => {},
    }
    match argument(trimmed, "at(") {
        Some(inner) => {
            if text::trim(inner).unicode_len() == 0 {
                return Err(
                    Error {
                        kind: ScheduleProblem::EmptyAt,
                        message: String::from_str(
                            "invalid at expression: at() is empty. Example: at(2024-01-01T00:00:00)",
                        ),
                    },
                );
            }
            Ok(())
        },
        None => Err(
            problem(
                ScheduleProblem::Expression,
                "invalid schedule expression. Must start with cron(...), rate(...), or at(...). Got: '",
                trimmed,
                "'",
            ),
        ),
    }
}

/// Whether a character may stand in the name of a schedule.
pub open spec fn is_name_char(c: char) -> bool {
    ('0' <= c <= '9') || ('a' <= c <= 'z') || ('A' <= c <= 'Z') || c == '-' || c == '_' || c == '.'
}

/// Whether a text may be the name of a schedule.
pub open spec fn is_name(s: Seq<char>) -> bool {
    s.len() <= 64 && forall|i: int| 0 <= i < s.len() ==> is_name_char(#[trigger] s[i])
}

/// A text with a hyphen in place of every character that may not stand in the
/// name of a schedule.
pub open spec fn name_chars(s: Seq<char>) -> Seq<char> {
    s.map_values(
        |c: char|
            if is_name_char(c) {
                c
            } else {
                '-'
            },
    )
}

/// The FNV-1a hash of bytes.
pub open spec fn fnv1a(bytes: Seq<u8>) -> u64
    decreases bytes.len(),
{
    if bytes.len() == 0 {
        0xcbf29ce484222325
    } else {
        (fnv1a(bytes.drop_last()) ^ (bytes.last() as u64)).wrapping_mul(0x100000001b3)
    }
}

/// The hash of a text: that of its UTF-8 encoding.
pub open spec fn text_hash(s: Seq<char>) -> u64 {
    fnv1a(vstd::utf8::encode_utf8(s))
}

/// Hashes a text.
pub fn simple_hash(s: &str) -> (r: u64)
    ensures
        r == text_hash(s@),
{
    let bytes = s.as_bytes();
    let ghost all = vstd::utf8::encode_utf8(s@);
    let mut hash: u64 = 0xcbf29ce484222325;
    let mut i: usize = 0;
    assert(bytes@ == all);
    assert(all.take(0) =~= Seq::empty());
    while i < bytes.len()
        invariant
            bytes@ == all,
            i <= bytes@.len(),
            hash == fnv1a(all.take(i as int)),
        decreases bytes@.len() - i,
    {
        assert(all.take(i + 1).drop_last() =~= all.take(i as int));
        assert(all.take(i + 1).last() == bytes@[i as int]);
        hash = (hash ^ (bytes[i] as u64)).wrapping_mul(0x100000001b3);
        i = i + 1;
    }
    assert(all.take(all.len() as int) =~= all);
    hash
}

proof fn lemma_encoded_pieces(a: Seq<char>, b: Seq<char>)
    ensures
        vstd::utf8::encode_utf8(a + b) == vstd::utf8::encode_utf8(a) + vstd::utf8::encode_utf8(b),
    decreases a.len(),
{
    if a.len() == 0 {
        assert(a + b =~= b);
        assert(vstd::utf8::encode_utf8(a) =~= Seq::empty());
        assert(vstd::utf8::encode_utf8(a) + vstd::utf8::encode_utf8(b)
            =~= vstd::utf8::encode_utf8(b));
    } else {
        assert((a + b).drop_first() =~= a.drop_first() + b);
        assert((a + b)[0] == a[0]);
        lemma_encoded_pieces(a.drop_first(), b);
        assert(vstd::utf8::encode_utf8(a + b) =~= vstd::utf8::encode_utf8(a)
            + vstd::utf8::encode_utf8(b));
    }
}

/// The hash of no text is the offset of FNV-1a, and an ASCII character behind a
/// text is mixed into the hash of the text: by exclusive or, and then by a
/// multiplication with the prime of FNV-1a that wraps.
pub proof fn lemma_hash_of_longer_text(s: Seq<char>, c: char)
    requires
        c <= '\u{7f}',
    ensures
        text_hash(Seq::empty()) == 0xcbf29ce484222325,
        text_hash(s.push(c)) == (text_hash(s) ^ (c as u64)).wrapping_mul(0x100000001b3),
{
    let one = seq![c];
    let bytes = vstd::utf8::encode_utf8(s);
    assert(s.push(c) =~= s + one);
    lemma_encoded_pieces(s, one);
    assert(vstd::utf8::is_ascii_chars(one));
    vstd::utf8::is_ascii_chars_encode_utf8(one);
    let more = vstd::utf8::encode_utf8(one);
    assert(one[0] as u8 == more[0]);
    assert((bytes + more).drop_last() =~= bytes);
    assert((bytes + more).last() as u64 == c as u64);
}

/// What is put behind a name that was changed: six hexadecimal digits of the
/// hash of the name that was given.
pub open spec fn hash_mark(given: Seq<char>) -> Seq<char> {
    "-"@ + number::hex(text_hash(given) as nat, 6)
}

/// A name in at most `room` characters: the one that is given, if it fits and may
/// be a name; otherwise what can be kept of it, and a mark.
pub open spec fn fitted(given: Seq<char>, room: int) -> Seq<char> {
    let safe = name_chars(given);
    if safe == given && given.len() <= room {
        given
    } else {
        safe.take(
            if safe.len() <= room - 7 {
                safe.len() as int
            } else {
                room - 7
            },
        ) + hash_mark(given)
    }
}

fn fit(given: &str, room: usize) -> (r: String)
    requires
        7 <= room <= 64,
    ensures
        r@ == fitted(given@, room as int),
{
    let chars = text::chars_of(given);
    let mut safe: Vec<char> = Vec::new();
    let mut clean = true;
    let mut i: usize = 0;
    assert(name_chars(given@).take(0) =~= given@.take(0));
    while i < chars.len()
        invariant
            chars@ == given@,
            i <= chars@.len(),
            safe@ == name_chars(given@).take(i as int),
            clean == (name_chars(given@).take(i as int) == given@.take(i as int)),
        decreases chars@.len() - i,
    {
        let c = chars[i];
        let allowed = ('0' <= c && c <= '9') || ('a' <= c && c <= 'z') || ('A' <= c && c <= 'Z') || c
            == '-' || c == '_' || c == '.';
        proof {
            let all = name_chars(given@);
            assert(all.take(i + 1) =~= all.take(i as int).push(all[i as int]));
            assert(given@.take(i + 1) =~= given@.take(i as int).push(c));
            if all.take(i + 1) == given@.take(i + 1) {
                assert(all.take(i as int) =~= all.take(i + 1).drop_last());
                assert(given@.take(i as int) =~= given@.take(i + 1).drop_last());
                assert(all.take(i + 1)[i as int] == given@.take(i + 1)[i as int]);
            }
        }
        if allowed {
            safe.push(c);
        } else {
            safe.push('-');
            clean = false;
        }
        i = i + 1;
    }
    proof {
        let n = chars@.len() as int;
        assert(name_chars(given@).take(n) =~= name_chars(given@));
        assert(given@.take(n) =~= given@);
    }
    if clean && chars.len() <= room {
        return String::from_str(given);
    }
    let keep: usize = if safe.len() <= room - 7 {
        safe.len()
    } else {
        room - 7
    };
    let mut out = text::string_of(&safe, 0, keep);
    assert(out@ =~= name_chars(given@).take(keep as int));
    let mut mark = String::from_str("-");
    number::push_hex(&mut mark, simple_hash(given), 6);
    assert(mark@ =~= hash_mark(given@));
    out.append(mark.as_str());
    out
}

/// The name of the schedule that scales a service.
pub open spec fn schedule_name(alias: Seq<char>, count: i32) -> Seq<char> {
    let suffix = "-to-"@ + number::decimal_int(count as int);
    "ecsctl-scale-"@ + fitted(alias, 64 - 13 - suffix.len()) + suffix
}

/// The decimal text of a 32-bit integer has at most eleven characters, and they
/// may stand in a name.
proof fn lemma_count_text(count: i32)
    ensures
        1 <= number::decimal_int(count as int).len() <= 11,
        forall|i: int|
            0 <= i < number::decimal_int(count as int).len() ==> is_name_char(
                #[trigger] number::decimal_int(count as int)[i],
            ),
{
    let n = if count < 0 {
        -(count as int)
    } else {
        count as int
    };
    reveal_with_fuel(pow10, 12);
    lemma_decimal_text(n as nat, 10);
}

proof fn lemma_decimal_text(n: nat, digits: nat)
    requires
        digits > 0,
        digits <= 10,
        n < pow10(digits),
    ensures
        1 <= number::decimal(n).len() <= digits,
        forall|i: int|
            0 <= i < number::decimal(n).len() ==> '0' <= #[trigger] number::decimal(n)[i] <= '9',
    decreases digits,
{
    reveal_with_fuel(pow10, 12);
    if n >= 10 {
        assert(digits > 1);
        assert(pow10(digits) == 10 * pow10((digits - 1) as nat));
        lemma_decimal_text(n / 10, (digits - 1) as nat);
    }
}

/// A power of ten.
spec fn pow10(k: nat) -> nat
    decreases k,
{
    if k == 0 {
        1
    } else {
        10 * pow10((k - 1) as nat)
    }
}

proof fn lemma_hex_text(n: nat, width: nat)
    ensures
        number::hex(n, width).len() == width,
        forall|i: int|
            0 <= i < width ==> is_name_char(#[trigger] number::hex(n, width)[i]),
    decreases width,
{
    if width > 0 {
        lemma_hex_text(n / 16, (width - 1) as nat);
        let d = (n % 16) as int;
        assert(0 <= d < 16);
        assert(is_name_char(number::hex_digit(d)));
    }
}

proof fn lemma_fitted(given: Seq<char>, room: int)
    requires
        7 <= room,
    ensures
        fitted(given, room).len() <= room,
        forall|i: int|
            0 <= i < fitted(given, room).len() ==> is_name_char(
                #[trigger] fitted(given, room)[i],
            ),
{
    reveal_strlit("-");
    let safe = name_chars(given);
    let h = text_hash(given) as nat;
    lemma_hex_text(h, 6);
    let f = fitted(given, room);
    assert forall|i: int| 0 <= i < f.len() implies is_name_char(#[trigger] f[i]) by {
        if safe == given && given.len() <= room {
            assert(f[i] == safe[i]);
        } else {
            let keep = if safe.len() <= room - 7 {
                safe.len() as int
            } else {
                room - 7
            };
            if i < keep {
                assert(f[i] == safe[i]);
            } else if i > keep {
                assert(f[i] == number::hex(h, 6)[i - keep - 1]);
            }
        }
    }
}

/// The name of a schedule is one that EventBridge takes.
pub proof fn lemma_schedule_name_is_name(alias: Seq<char>, count: i32)
    ensures
        is_name(schedule_name(alias, count)),
{
    reveal_strlit("ecsctl-scale-");
    reveal_strlit("-to-");
    lemma_count_text(count);
    let suffix = "-to-"@ + number::decimal_int(count as int);
    let room = 64 - 13 - suffix.len();
    lemma_fitted(alias, room);
    let f = fitted(alias, room);
    let name = schedule_name(alias, count);
    assert forall|i: int| 0 <= i < name.len() implies is_name_char(#[trigger] name[i]) by {
        if i < 13 {
            assert(name[i] == "ecsctl-scale-"@[i]);
        } else if i < 13 + f.len() {
            assert(name[i] == f[i - 13]);
        } else {
            let j = i - 13 - f.len();
            assert(name[i] == suffix[j]);
            if j >= 4 {
                assert(suffix[j] == number::decimal_int(count as int)[j - 4]);
            }
        }
    }
}

/// Services whose short names may stand in a name as they are, and fit, have
/// schedules of different names.
pub proof fn lemma_plain_names_differ(a: Seq<char>, b: Seq<char>, count: i32)
    requires
        name_chars(a) == a,
        name_chars(b) == b,
        a.len() + number::decimal_int(count as int).len() <= 47,
        b.len() + number::decimal_int(count as int).len() <= 47,
        schedule_name(a, count) == schedule_name(b, count),
    ensures
        a == b,
{
    reveal_strlit("ecsctl-scale-");
    reveal_strlit("-to-");
    lemma_count_text(count);
    let suffix = "-to-"@ + number::decimal_int(count as int);
    let x = schedule_name(a, count);
    let y = schedule_name(b, count);
    assert(x == "ecsctl-scale-"@ + a + suffix);
    assert(y == "ecsctl-scale-"@ + b + suffix);
    assert(x.len() == y.len());
    assert forall|i: int| 0 <= i < a.len() implies a[i] == b[i] by {
        assert(x[13 + i] == a[i]);
        assert(y[13 + i] == b[i]);
    }
    assert(a =~= b);
}

/// Names the schedule that scales a service, after the service and the number of
/// tasks.
pub fn sanitize_schedule_name(alias: &str, count: i32) -> (r: String)
    ensures
        r@ == schedule_name(alias@, count),
        is_name(r@),
{
    proof {
        reveal_strlit("-to-");
        lemma_count_text(count);
        lemma_schedule_name_is_name(alias@, count);
    }
    let mut suffix = String::from_str("-to-");
    suffix.append(number::to_decimal_int(count as i128).as_str());
    let used = suffix.as_str().unicode_len();
    let mut name = String::from_str("ecsctl-scale-");
    name.append(fit(alias, 64 - 13 - used).as_str());
    name.append(suffix.as_str());
    name
}

/// Turns a name that was asked for into one that EventBridge takes.
pub fn sanitize_explicit_name(raw: &str) -> (r: String)
    ensures
        r@ == fitted(raw@, 64),
        is_name(r@),
        is_name(raw@) ==> r@ == raw@,
{
    proof {
        lemma_fitted(raw@, 64);
        if is_name(raw@) {
            assert(name_chars(raw@) =~= raw@);
        }
    }
    fit(raw, 64)
}

/// What came of the attempt to create a schedule.
#[derive(Debug, Clone, Copy, PartialEq, Eq, Structural)]
pub enum CreateOutcome {
    /// The schedule was created.
    Created,
    /// There is a schedule of this name.
    AlreadyExists,
}

/// How EventBridge answered a request that it refused.
#[derive(Debug)]
pub struct ServiceError {
    pub code: Option<String>,
    pub message: Option<String>,
    /// Whether something of this name exists already.
    pub conflict: bool,
    /// Whether nothing of this name exists.
    pub not_found: bool,
}

/// Whether a request failed because something of its name exists already.
pub open spec fn conflicts(e: Option<ServiceError>) -> bool {
    e matches Some(e) && e.conflict
}

/// Whether a request failed because nothing of its name exists.
pub open spec fn is_missing(e: Option<ServiceError>) -> bool {
    e matches Some(e) && e.not_found
}

/// Whether a request failed because something of its name exists already. A
/// group of schedules that somebody else has just created is as good as one's
/// own.
pub fn is_conflict(e: &Option<ServiceError>) -> (r: bool)
    ensures
        r == conflicts(*e),
{
    match e {
        Some(e) => e.conflict,
        None => false,
    }
}

/// Whether a request failed because nothing of its name exists. A group of
/// schedules that is missing can be created.
pub fn is_not_found(e: &Option<ServiceError>) -> (r: bool)
    ensures
        r == is_missing(*e),
{
    match e {
        Some(e) => e.not_found,
        None => false,
    }
}

/// Whether a refusal, whose message is in lower case, is one that passes: a role
/// that is not yet visible, or too many requests.
pub open spec fn passes(code: Seq<char>, lowered: Seq<char>) -> bool {
    ||| text::occurs(lowered, "unable to assume"@)
    ||| text::occurs(lowered, "cannot be assumed"@)
    ||| text::occurs(lowered, "is not yet ready"@)
    ||| code == "ThrottlingException"@
    ||| code == "TooManyRequestsException"@
}

/// Whether a refusal, whose message is in lower case, is one that passes.
pub fn is_passing(code: &str, lowered: &str) -> (r: bool)
    ensures
        r == passes(code@, lowered@),
{
    text::contains(lowered, "unable to assume") || text::contains(lowered, "cannot be assumed")
        || text::contains(lowered, "is not yet ready") || same(code, "ThrottlingException")
        || same(code, "TooManyRequestsException")
}

/// Whether a failed request is worth another attempt. A request that EventBridge
/// did not answer is not.
pub open spec fn retryable(e: Option<ServiceError>) -> bool {
    match e {
        Some(e) => passes(
            text::text_or(e.code, ""@),
            text::lowercase(text::text_or(e.message, ""@)),
        ),
        None => false,
    }
}

/// Whether a failed request is worth another attempt.
pub fn is_retryable_scheduler_error(e: &Option<ServiceError>) -> (r: bool)
    ensures
        r == retryable(*e),
{
    match e {
        Some(e) => {
            let lowered = text::to_lowercase(text::str_or(&e.message, ""));
            is_passing(text::str_or(&e.code, ""), lowered.as_str())
        },
        None => false,
    }
}

/// How many seconds pass after an attempt that is followed by another one.
pub open spec fn pause(attempt: int) -> int {
    5 * attempt
}

/// Whether a failed attempt is followed by another one: there are four at most.
pub open spec fn tried_again(attempt: int, worth_it: bool) -> bool {
    worth_it && attempt < 4
}

/// What is said before an attempt is made again.
pub open spec fn retry_line(attempt: int) -> Seq<char> {
    "  ⏳ Retryable error, retrying in "@ + number::decimal(pause(attempt) as nat)
        + "s (attempt "@ + number::decimal(attempt as nat) + "/4)"@
}

/// What to do after a failed attempt.
#[derive(Debug)]
pub enum Retry {
    /// Say so, wait, and try again.
    After { secs: u64, line: String },
    /// Give up.
    GiveUp,
}

/// What follows the failed attempt to create a schedule.
#[derive(Debug)]
pub enum CreateStep {
    Done(CreateOutcome),
    Again { secs: u64, line: String },
    Fail,
}

/// The attempts at one request.
#[derive(Debug)]
pub struct Attempts {
    attempt: u32,
}

impl View for Attempts {
    type V = int;

    /// The attempt at hand, counted from one.
    closed spec fn view(&self) -> int {
        self.attempt as int
    }
}

impl Attempts {
    #[verifier::type_invariant]
    spec fn in_range(self) -> bool {
        1 <= self.attempt <= 4
    }

    /// Begins with the first attempt.
    pub fn first() -> (r: Attempts)
        ensures
            r@ == 1,
    {
        Attempts { attempt: 1 }
    }

    /// Decides what to do after the attempt at hand has failed; where another one is
    /// made, that one is then at hand.
    pub fn step(&mut self, worth_it: bool) -> (r: Retry)
        ensures
            1 <= old(self)@ <= 4,
            1 <= final(self)@ <= 4,
            match r {
                Retry::After { secs, line } => tried_again(old(self)@, worth_it) && secs == pause(
                    old(self)@,
                ) && line@ == retry_line(old(self)@) && final(self)@ == old(self)@ + 1,
                Retry::GiveUp => !tried_again(old(self)@, worth_it) && final(self)@ == old(self)@,
            },
    {
        proof {
            use_type_invariant(&*self);
        }
        let attempt = self.attempt;
        if worth_it && attempt < 4 {
            let secs: u64 = 5 * (attempt as u64);
            let mut line = String::from_str("  ⏳ Retryable error, retrying in ");
            line.append(number::to_decimal(secs as u128).as_str());
            line.append("s (attempt ");
            line.append(number::to_decimal(attempt as u128).as_str());
            line.append("/4)");
            self.attempt = attempt + 1;
            Retry::After { secs, line }
        } else {
            Retry::GiveUp
        }
    }

    /// Decides what follows the failed attempt at a request.
    pub fn after_failure(&mut self, e: &Option<ServiceError>) -> (r: Retry)
        ensures
            1 <= old(self)@ <= 4,
            1 <= final(self)@ <= 4,
            match r {
                Retry::After { secs, line } => tried_again(old(self)@, retryable(*e)) && secs
                    == pause(old(self)@) && line@ == retry_line(old(self)@) && final(self)@ == old(
                    self,
                )@ + 1,
                Retry::GiveUp => !tried_again(old(self)@, retryable(*e)) && final(self)@ == old(
                    self,
                )@,
            },
    {
        let worth_it = is_retryable_scheduler_error(e);
        self.step(worth_it)
    }

    /// Decides what follows the failed attempt to create a schedule: one that exists
    /// is no failure.
    pub fn after_create_failure(&mut self, e: &Option<ServiceError>) -> (r: CreateStep)
        ensures
            1 <= old(self)@ <= 4,
            1 <= final(self)@ <= 4,
            match r {
                CreateStep::Done(outcome) => outcome == CreateOutcome::AlreadyExists && conflicts(
                    *e,
                ) && final(self)@ == old(self)@,
                CreateStep::Again { secs, line } => !conflicts(*e) && tried_again(
                    old(self)@,
                    retryable(*e),
                ) && secs == pause(old(self)@) && line@ == retry_line(old(self)@) && final(self)@
                    == old(self)@ + 1,
                CreateStep::Fail => !conflicts(*e) && !tried_again(old(self)@, retryable(*e))
                    && final(self)@ == old(self)@,
            },
    {
        proof {
            use_type_invariant(&*self);
        }
        if is_conflict(e) {
            return CreateStep::Done(CreateOutcome::AlreadyExists);
        }
        match self.after_failure(e) {
            Retry::After { secs, line } => CreateStep::Again { secs, line },
            Retry::GiveUp => CreateStep::Fail,
        }
    }
}

/// The pauses that are made from an attempt on, where `worth_it` says of each
/// attempt whether it fails in a way that is worth another one.
pub open spec fn pauses_from(attempt: int, worth_it: spec_fn(int) -> bool) -> Seq<int>
    decreases 4 - attempt,
{
    if tried_again(attempt, worth_it(attempt)) {
        seq![pause(attempt)] + pauses_from(attempt + 1, worth_it)
    } else {
        Seq::empty()
    }
}

/// However the attempts at a request fail, four at most are made, with pauses of
/// 5, 10 and 15 seconds between them; and there are four exactly if the first three
/// are all worth another one.
pub proof fn lemma_four_attempts(worth_it: spec_fn(int) -> bool)
    ensures
        1 + pauses_from(1, worth_it).len() <= 4,
        pauses_from(1, worth_it).is_prefix_of(seq![5int, 10int, 15int]),
        1 + pauses_from(1, worth_it).len() == 4 <==> worth_it(1) && worth_it(2) && worth_it(3),
{
    reveal_with_fuel(pauses_from, 5);
    let none = pauses_from(4, worth_it);
    assert(none =~= Seq::empty());
    let p3 = pauses_from(3, worth_it);
    assert(p3 =~= if worth_it(3) {
        seq![15int]
    } else {
        Seq::empty()
    });
    let p2 = pauses_from(2, worth_it);
    assert(p2 =~= if worth_it(2) {
        seq![10int] + p3
    } else {
        Seq::empty()
    });
    let p1 = pauses_from(1, worth_it);
    assert(p1 =~= if worth_it(1) {
        seq![5int] + p2
    } else {
        Seq::empty()
    });
}

/// The ARN of a role is taken exactly if its six parts are those of a role: the word `arn`,
/// a partition, the service `iam`, no region, an account of digits, and `role/` with a name
/// behind it, which may hold colons. Otherwise the first part that is wrong is named.
pub proof fn lemma_role_arn(
    head: Seq<char>,
    partition: Seq<char>,
    service: Seq<char>,
    region: Seq<char>,
    account: Seq<char>,
    resource: Seq<char>,
)
    requires
        !head.contains(':'),
        !partition.contains(':'),
        !service.contains(':'),
        !region.contains(':'),
        !account.contains(':'),
    ensures
        ({
            let c = seq![':'];
            let arn = head + c + (partition + c + (service + c + (region + c + (account + c
                + resource))));
            let known = partition == "aws"@ || partition == "aws-cn"@ || partition
                == "aws-us-gov"@ || partition == "aws-iso"@ || partition == "aws-iso-b"@;
            let numeric = account.len() > 0 && forall|i: int|
                0 <= i < account.len() ==> '0' <= #[trigger] account[i] <= '9';
            let p = arn_problem(arn);
            &&& p is None <==> head == "arn"@ && known && service == "iam"@ && region.len() == 0
                && numeric && resource.len() > 5 && resource.take(5) == "role/"@
            &&& head != "arn"@ ==> (p matches Some(e) && e.0 == ScheduleProblem::ArnPrefix)
            &&& head == "arn"@ && !known ==> (p matches Some(e) && e.0
                == ScheduleProblem::ArnPartition)
            &&& head == "arn"@ && known && service != "iam"@ ==> (p matches Some(e) && e.0
                == ScheduleProblem::ArnService)
            &&& head == "arn"@ && known && service == "iam"@ && region.len() != 0 ==> (
            p matches Some(e) && e.0 == ScheduleProblem::ArnFormat)
            &&& head == "arn"@ && known && service == "iam"@ && region.len() == 0 && !numeric ==> (
            p matches Some(e) && e.0 == ScheduleProblem::ArnAccount)
            &&& head == "arn"@ && known && service == "iam"@ && region.len() == 0 && numeric
                && resource == "role/"@ ==> (p matches Some(e) && e.0
                == ScheduleProblem::ArnRoleName)
            &&& head == "arn"@ && known && service == "iam"@ && region.len() == 0 && numeric && !(
            resource.len() >= 5 && resource.take(5) == "role/"@) ==> (p matches Some(e) && e.0
                == ScheduleProblem::ArnResource)
        }),
{
    let c = seq![':'];
    let a5 = account + c + resource;
    let a4 = region + c + a5;
    let a3 = service + c + a4;
    let a2 = partition + c + a3;
    text::lemma_first_piece(head, a2, 6, ':');
    text::lemma_first_piece(partition, a3, 5, ':');
    text::lemma_first_piece(service, a4, 4, ':');
    text::lemma_first_piece(region, a5, 3, ':');
    text::lemma_first_piece(account, resource, 2, ':');
    text::lemma_split_at_most(resource, 1, ':');
    reveal_with_fuel(text::split_at_most, 2);
    assert(text::split_at_most(head + c + a2, 6, ':') =~= seq![
        head,
        partition,
        service,
        region,
        account,
        resource,
    ]);
    reveal_strlit("role/");
    if resource.len() >= 5 && resource.take(5) == "role/"@ {
        assert("role/"@.is_prefix_of(resource));
        if resource.len() == 5 {
            assert(resource =~= resource.take(5));
        }
    }
    if "role/"@.is_prefix_of(resource) {
        assert(resource.take(5) =~= "role/"@);
        if resource.len() == 5 {
            assert(resource =~= "role/"@);
        }
    }
}

/// A text with fewer colons than the ARN of a role is refused as one that has not its form.
pub proof fn lemma_short_arn(arn: Seq<char>)
    requires
        text::split_all(arn, ':').len() < 6,
    ensures
        arn_problem(arn) matches Some(e) && e.0 == ScheduleProblem::ArnFormat,
{
    lemma_few_pieces(arn, 6);
}

proof fn lemma_few_pieces(s: Seq<char>, n: nat)
    requires
        text::split_all(s, ':').len() < n,
    ensures
        text::split_at_most(s, n, ':').len() < n,
    decreases n,
{
    text::lemma_split_all(s, ':');
    text::lemma_split_at_most(s, n, ':');
    let parts = text::split_at_most(s, n, ':');
    if s.contains(':') {
        let k = text::position(s, ':');
        text::lemma_position(s, ':');
        let first = s.take(k);
        let rest = s.skip(k + 1);
        assert(s =~= first + seq![':'] + rest);
        assert(!first.contains(':')) by {
            if first.contains(':') {
                let i = choose|i: int| 0 <= i < first.len() && first[i] == ':';
                assert(s[i] == ':');
            }
        }
        text::lemma_first_piece(first, rest, n, ':');
        text::lemma_split_all(rest, ':');
        if n > 1 {
            lemma_few_pieces(rest, (n - 1) as nat);
        }
    } else {
        text::lemma_first_piece(s, Seq::empty(), n, ':');
    }
}

/// What stands between the brackets of a schedule expression is found, and white space
/// around the expression does not count.
proof fn lemma_call(start: Seq<char>, args: Seq<char>, white: char)
    requires
        start == "cron("@ || start == "rate("@ || start == "at("@,
        text::is_white_space(white),
    ensures
        text::trimmed(start + args + seq![')']) == start + args + seq![')'],
        text::trimmed(seq![white] + (start + args + seq![')'])) == start + args + seq![')'],
        text::trimmed((start + args + seq![')']).push(white)) == start + args + seq![')'],
        is_call(start + args + seq![')'], start),
        call_argument(start + args + seq![')'], start) == args,
        start == "rate("@ ==> !is_call(start + args + seq![')'], "cron("@),
        start == "at("@ ==> !is_call(start + args + seq![')'], "cron("@) && !is_call(
            start + args + seq![')'],
            "rate("@,
        ),
{
    reveal_strlit("cron(");
    reveal_strlit("rate(");
    reveal_strlit("at(");
    reveal_strlit(")");
    let s = start + args + seq![')'];
    text::lemma_white_space(s[0]);
    text::lemma_white_space(s.last());
    text::lemma_trimmed_of_bare(s, white);
    assert(start.is_prefix_of(s));
    assert(s.subrange(s.len() - 1, s.len() as int) =~= ")"@);
    assert(")"@.is_suffix_of(s));
    assert(call_argument(s, start) =~= args);
    assert(s[0] == start[0]);
}

/// An expression `cron(...)` is taken exactly if there are six fields between its brackets.
pub proof fn lemma_cron_has_six_fields(args: Seq<char>, white: char)
    requires
        text::is_white_space(white),
    ensures
        expression_problem("cron("@ + args + seq![')']) is None <==> text::words(args).len() == 6,
        expression_problem("cron("@ + args + seq![')']) matches Some(e) ==> e.0
            == ScheduleProblem::CronFields,
        expression_problem(seq![white] + ("cron("@ + args + seq![')'])) == expression_problem(
            "cron("@ + args + seq![')'],
        ),
        expression_problem(("cron("@ + args + seq![')']).push(white)) == expression_problem(
            "cron("@ + args + seq![')'],
        ),
{
    lemma_call("cron("@, args, white);
}

/// An expression `rate(...)` of a number and a word is taken exactly if the word is a unit,
/// in the singular or the plural; and something else than a number in its place is refused.
pub proof fn lemma_rate_has_number_and_unit(n: nat, value: Seq<char>, unit: Seq<char>, k: int)
    requires
        n <= u64::MAX,
        unit.len() > 0,
        forall|i: int| 0 <= i < unit.len() ==> !text::is_white_space(#[trigger] unit[i]),
        value.len() > 0,
        forall|i: int| 0 <= i < value.len() ==> !text::is_white_space(#[trigger] value[i]),
        0 <= k < value.len(),
        !('0' <= value[k] <= '9'),
        k > 0 || value.len() == 1 || value[0] != '+',
    ensures
        expression_problem("rate("@ + (number::decimal(n) + seq![' '] + unit) + seq![')']) is None
            <==> unit == "minute"@ || unit == "minutes"@ || unit == "hour"@ || unit == "hours"@
            || unit == "day"@ || unit == "days"@,
        expression_problem(
            "rate("@ + (number::decimal(n) + seq![' '] + unit) + seq![')'],
        ) matches Some(e) ==> e.0 == ScheduleProblem::RateUnit,
        expression_problem("rate("@ + (value + seq![' '] + unit) + seq![')']) matches Some(e)
            && e.0 == ScheduleProblem::RateValue,
        expression_problem("rate("@ + unit + seq![')']) matches Some(e) && e.0
            == ScheduleProblem::RateFormat,
        expression_problem("rate("@ + seq![] + seq![')']) matches Some(e) && e.0
            == ScheduleProblem::EmptyRate,
{
    number::lemma_decimal_is_read(n);
    let digits = number::decimal(n);
    assert forall|i: int| 0 <= i < digits.len() implies !text::is_white_space(
        #[trigger] digits[i],
    ) by {
        text::lemma_white_space(digits[i]);
    }
    lemma_two_words(digits, unit);
    lemma_two_words(value, unit);
    lemma_call("rate("@, digits + seq![' '] + unit, ' ');
    lemma_call("rate("@, value + seq![' '] + unit, ' ');
    lemma_call("rate("@, unit, ' ');
    lemma_call("rate("@, seq![], ' ');
    number::lemma_number_round_trip(n, u64::MAX as nat, 0);
    assert(!number::is_digit(value[k]));
    if value[0] == '+' && k > 0 {
        assert(value.drop_first()[k - 1] == value[k]);
    }
    text::lemma_words(' ', unit, seq![]);
    text::lemma_trimmed_of_bare(unit, ' ');
    assert(text::trimmed(Seq::empty()) =~= Seq::<char>::empty());
}

proof fn lemma_two_words(a: Seq<char>, b: Seq<char>)
    requires
        a.len() > 0,
        b.len() > 0,
        forall|i: int| 0 <= i < a.len() ==> !text::is_white_space(#[trigger] a[i]),
        forall|i: int| 0 <= i < b.len() ==> !text::is_white_space(#[trigger] b[i]),
    ensures
        text::words(a + seq![' '] + b) == seq![a, b],
        text::trimmed(a + seq![' '] + b) == a + seq![' '] + b,
{
    let s = a + seq![' '] + b;
    text::lemma_words(' ', a, b);
    text::lemma_words(' ', b, seq![]);
    assert(seq![a] + seq![b] =~= seq![a, b]);
    assert(s[0] == a[0]);
    assert(s.last() == b.last());
    text::lemma_trimmed_of_bare(s, ' ');
}

/// An expression `at(...)` is taken exactly if something else than white space stands
/// between its brackets.
pub proof fn lemma_at_says_when(args: Seq<char>)
    ensures
        expression_problem("at("@ + args + seq![')']) is None <==> exists|i: int|
            0 <= i < args.len() && !text::is_white_space(#[trigger] args[i]),
        expression_problem("at("@ + args + seq![')']) matches Some(e) ==> e.0
            == ScheduleProblem::EmptyAt,
{
    lemma_call("at("@, args, ' ');
    let (front, back) = text::lemma_trimmed(args);
    let t = text::trimmed(args);
    if t.len() > 0 {
        assert(args[front.len() as int] == t[0]);
    } else {
        assert forall|i: int| 0 <= i < args.len() implies text::is_white_space(
            #[trigger] args[i],
        ) by {
            if i < front.len() {
                assert(args[i] == front[i]);
            } else {
                assert(args[i] == back[i - front.len()]);
            }
        }
    }
}

/// An expression that is none of the three is refused as such: one that does not end with a
/// bracket, or that begins with another letter than they do.
pub proof fn lemma_other_expression(expr: Seq<char>)
    requires
        expr.len() > 0,
        !text::is_white_space(expr[0]),
        !text::is_white_space(expr.last()),
        expr.last() != ')' || (expr[0] != 'c' && expr[0] != 'r' && expr[0] != 'a'),
    ensures
        expression_problem(expr) matches Some(e) && e.0 == ScheduleProblem::Expression,
{
    reveal_strlit("cron(");
    reveal_strlit("rate(");
    reveal_strlit("at(");
    reveal_strlit(")");
    text::lemma_trimmed_of_bare(expr, ' ');
    if is_call(expr, "cron("@) {
        assert("cron("@[0] == expr[0]);
        assert(")"@[0] == expr.last());
    }
    if is_call(expr, "rate("@) {
        assert("rate("@[0] == expr[0]);
        assert(")"@[0] == expr.last());
    }
    if is_call(expr, "at("@) {
        assert("at("@[0] == expr[0]);
        assert(")"@[0] == expr.last());
    }
}

/// A name that is asked for is kept where it is one of at most `room` letters, digits,
/// hyphens, underscores and dots. Otherwise a hyphen stands for every other character, and
/// a mark behind what is kept tells names apart by the hash of the name that was given.
pub proof fn lemma_fitted_name(given: Seq<char>, room: int, i: int)
    requires
        7 <= room <= 64,
        0 <= i < given.len(),
    ensures
        ({
            let plain = ('0' <= given[i] <= '9') || ('a' <= given[i] <= 'z') || ('A' <= given[i]
                <= 'Z') || given[i] == '-' || given[i] == '_' || given[i] == '.';
            let r = fitted(given, room);
            &&& r.len() <= room
            &&& i < room - 7 ==> i < r.len() && r[i] == if plain {
                given[i]
            } else {
                '-'
            }
            &&& !plain || given.len() > room ==> r.len() >= 7 && r.skip(r.len() - 7) == seq!['-']
                + number::hex(text_hash(given) as nat, 6)
            &&& r == given ==> given.len() <= room
        }),
        given.len() <= room && (forall|j: int|
            0 <= j < given.len() ==> (('0' <= #[trigger] given[j] <= '9') || ('a' <= given[j]
                <= 'z') || ('A' <= given[j] <= 'Z') || given[j] == '-' || given[j] == '_'
                || given[j] == '.')) ==> fitted(given, room) == given,
{
    reveal_strlit("-");
    lemma_fitted(given, room);
    lemma_hex_text(text_hash(given) as nat, 6);
    let safe = name_chars(given);
    let r = fitted(given, room);
    if safe == given && given.len() <= room {
    } else {
        assert(r.skip(r.len() - 7) =~= hash_mark(given));
        assert(hash_mark(given) =~= seq!['-'] + number::hex(text_hash(given) as nat, 6));
    }
    if given.len() <= room && (forall|j: int|
        0 <= j < given.len() ==> (('0' <= #[trigger] given[j] <= '9') || ('a' <= given[j] <= 'z')
            || ('A' <= given[j] <= 'Z') || given[j] == '-' || given[j] == '_' || given[j] == '.')) {
        assert(safe =~= given);
    }
    assert(safe[i] == if is_name_char(given[i]) {
        given[i]
    } else {
        '-'
    });
}

/// The name of a schedule tells what the schedule does: it begins with the words for
/// scaling, and ends with the number of tasks; where the short name of the service may stand
/// in a name, and fits, it is all that stands between them.
pub proof fn lemma_schedule_name_tells(alias: Seq<char>, count: i32)
    ensures
        ({
            let n = schedule_name(alias, count);
            let digits = number::decimal_int(count as int);
            &&& n.len() <= 64
            &&& "ecsctl-scale-"@.is_prefix_of(n)
            &&& n.len() >= digits.len() + 17
            &&& n.skip(n.len() - digits.len() - 4) == "-to-"@ + digits
            &&& forall|i: int|
                0 <= i < n.len() ==> (('0' <= #[trigger] n[i] <= '9') || ('a' <= n[i] <= 'z') || (
                'A' <= n[i] <= 'Z') || n[i] == '-' || n[i] == '_' || n[i] == '.')
        }),
        alias.len() + number::decimal_int(count as int).len() <= 47 && (forall|j: int|
            0 <= j < alias.len() ==> (('0' <= #[trigger] alias[j] <= '9') || ('a' <= alias[j]
                <= 'z') || ('A' <= alias[j] <= 'Z') || alias[j] == '-' || alias[j] == '_'
                || alias[j] == '.')) ==> schedule_name(alias, count) == "ecsctl-scale-"@ + alias
            + "-to-"@ + number::decimal_int(count as int),
{
    reveal_strlit("ecsctl-scale-");
    reveal_strlit("-to-");
    lemma_count_text(count);
    lemma_schedule_name_is_name(alias, count);
    let digits = number::decimal_int(count as int);
    let suffix = "-to-"@ + digits;
    let room = 64 - 13 - suffix.len();
    let n = schedule_name(alias, count);
    assert("ecsctl-scale-"@.is_prefix_of(n));
    assert(n.skip(n.len() - digits.len() - 4) =~= suffix);
    assert forall|i: int| 0 <= i < n.len() implies (('0' <= #[trigger] n[i] <= '9') || ('a' <= n[i]
        <= 'z') || ('A' <= n[i] <= 'Z') || n[i] == '-' || n[i] == '_' || n[i] == '.') by {
        assert(is_name_char(n[i]));
    }
    if alias.len() + digits.len() <= 47 && (forall|j: int|
        0 <= j < alias.len() ==> (('0' <= #[trigger] alias[j] <= '9') || ('a' <= alias[j] <= 'z')
            || ('A' <= alias[j] <= 'Z') || alias[j] == '-' || alias[j] == '_' || alias[j]
            == '.')) {
        if alias.len() > 0 {
            lemma_fitted_name(alias, room, 0);
        } else {
            assert(name_chars(alias) =~= alias);
        }
        assert(n =~= "ecsctl-scale-"@ + alias + "-to-"@ + digits);
    }
}

/// A refusal passes if it says that the role cannot be assumed yet, in one of three ways,
/// or if its code says that there were too many requests; no other does.
pub proof fn lemma_what_passes(code: Seq<char>, before: Seq<char>, after: Seq<char>)
    ensures
        passes(code, before + "unable to assume"@ + after),
        passes(code, before + "cannot be assumed"@ + after),
        passes(code, before + "is not yet ready"@ + after),
        passes("ThrottlingException"@, before),
        passes("TooManyRequestsException"@, before),
        code != "ThrottlingException"@ && code != "TooManyRequestsException"@ && passes(code, before)
            ==> text::occurs(before, "unable to assume"@) || text::occurs(
            before,
            "cannot be assumed"@,
        ) || text::occurs(before, "is not yet ready"@),
{
    text::lemma_occurs(before, "unable to assume"@, after);
    text::lemma_occurs(before, "cannot be assumed"@, after);
    text::lemma_occurs(before, "is not yet ready"@, after);
}

/// A request that was not answered is not tried again, is no conflict and tells of nothing
/// missing; one that was refused tells each by itself, and one that was refused for the
/// number of requests is tried again whatever its message says.
pub proof fn lemma_refusals(e: ServiceError)
    ensures
        !retryable(None) && !conflicts(None) && !is_missing(None),
        conflicts(Some(e)) <==> e.conflict,
        is_missing(Some(e)) <==> e.not_found,
        e.code matches Some(c) ==> (c@ == "ThrottlingException"@ || c@
            == "TooManyRequestsException"@ ==> retryable(Some(e))),
        e.message matches Some(m) ==> (text::occurs(text::lowercase(m@), "cannot be assumed"@)
            ==> retryable(Some(e))),
{
}

/// A failure that is not worth another attempt ends the attempts, and so does the fourth;
/// before each other one five seconds more pass than before the last, and it is said so.
pub proof fn lemma_next_attempt(attempt: int, worth_it: bool)
    requires
        1 <= attempt <= 4,
    ensures
        !tried_again(attempt, false),
        !tried_again(4, worth_it),
        attempt < 4 ==> tried_again(attempt, true),
        pause(1) == 5,
        pause(attempt + 1) == pause(attempt) + 5,
        retry_line(attempt) == "  ⏳ Retryable error, retrying in "@ + number::decimal(
            (5 * attempt) as nat,
        ) + "s (attempt "@ + number::decimal(attempt as nat) + "/4)"@,
{
}

} // verus!
