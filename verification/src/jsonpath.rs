//! Templates whose expressions are replaced by parts of a JSON value.

use crate::json;
use crate::json::{Json, JsonView};
use crate::number;
use crate::text;
use vstd::prelude::*;

verus! {

/// A step into a JSON value.
#[derive(Debug)]
pub enum PathSegment<'a> {
    /// To a member of an object.
    Key(&'a str),
    /// To a member of an object, and on to an element of that.
    Index(&'a str, usize),
}

/// What a [`PathSegment`] says.
pub enum SegmentView {
    Key(Seq<char>),
    Index(Seq<char>, int),
}

impl<'a> View for PathSegment<'a> {
    type V = SegmentView;

    open spec fn view(&self) -> SegmentView {
        match self {
            PathSegment::Key(key) => SegmentView::Key(key@),
            PathSegment::Index(key, i) => SegmentView::Index(key@, *i as int),
        }
    }
}

/// Whether the last character behind an opening bracket can be taken for the
/// closing one: there is one, and it takes a single byte.
pub open spec fn bracket_closes(part: Seq<char>) -> bool {
    part.contains('[') ==> text::position(part, '[') + 1 < part.len() && (part.last() as u32) < 128
}

/// The step that a part of a path describes. A part such as `tasks[0]` goes to an
/// element; whatever stands last is taken for the closing bracket. A part whose
/// index is not a number is a plain key.
pub open spec fn segment(part: Seq<char>) -> SegmentView {
    let p = text::position(part, '[');
    if part.contains('[') {
        match number::parse_unsigned_spec(part.subrange(p + 1, part.len() - 1), usize::MAX as nat) {
            Some(i) => SegmentView::Index(part.take(p), i as int),
            None => SegmentView::Key(part),
        }
    } else {
        SegmentView::Key(part)
    }
}

/// The steps that the first `n` parts of a path describe. Empty parts count for
/// nothing.
pub open spec fn segments(parts: Seq<Seq<char>>, n: int) -> Seq<SegmentView>
    decreases n,
{
    if n <= 0 {
        Seq::empty()
    } else if parts[n - 1].len() == 0 {
        segments(parts, n - 1)
    } else {
        segments(parts, n - 1).push(segment(parts[n - 1]))
    }
}

/// Whether the brackets in the parts of a path can be read.
pub open spec fn readable_parts(parts: Seq<Seq<char>>) -> bool {
    forall|i: int| 0 <= i < parts.len() ==> bracket_closes(#[trigger] parts[i])
}

/// A path without the dot it may begin with.
pub open spec fn without_dot(path: Seq<char>) -> Seq<char> {
    if path.len() > 0 && path[0] == '.' {
        path.skip(1)
    } else {
        path
    }
}

/// Whether the brackets in a path can be read.
pub open spec fn readable_path(path: Seq<char>) -> bool {
    readable_parts(text::split_all(without_dot(path), '.'))
}

/// A value, or null in place of nothing.
pub open spec fn or_null(v: Option<JsonView>) -> JsonView {
    match v {
        Some(v) => v,
        None => JsonView::Null,
    }
}

/// Where a step leads; null where it leads nowhere.
pub open spec fn step_into(v: JsonView, s: SegmentView) -> JsonView {
    match s {
        SegmentView::Key(key) => or_null(json::member(v, key)),
        SegmentView::Index(key, i) => or_null(json::element(or_null(json::member(v, key)), i)),
    }
}

/// Where steps lead, from place `i` on; null as soon as one leads nowhere.
pub open spec fn walk(v: JsonView, steps: Seq<SegmentView>, i: int) -> JsonView
    decreases steps.len() - i,
{
    if i < 0 || i >= steps.len() {
        v
    } else {
        let next = step_into(v, steps[i]);
        if next is Null {
            next
        } else {
            walk(next, steps, i + 1)
        }
    }
}

/// The steps of a path.
pub open spec fn path_steps(path: Seq<char>) -> Seq<SegmentView> {
    let parts = text::split_all(without_dot(path), '.');
    segments(parts, parts.len() as int)
}

/// How a value is written in place of an expression: a string as it is, nothing
/// for null, and anything else as JSON.
pub open spec fn written(v: JsonView) -> Seq<char> {
    match v {
        JsonView::Str(s) => s,
        JsonView::Null => ""@,
        _ => json::json_text(v),
    }
}

/// What a path stands for.
pub open spec fn path_text(path: Seq<char>, v: JsonView) -> Seq<char> {
    written(walk(v, path_steps(path), 0))
}

/// Reads the steps of a path.
fn split_path_segments<'a>(path: &'a str) -> (r: Vec<PathSegment<'a>>)
    requires
        readable_parts(text::split_all(path@, '.')),
    ensures
        r@.map_values(|s: PathSegment<'a>| s@) == segments(
            text::split_all(path@, '.'),
            text::split_all(path@, '.').len() as int,
        ),
{
    let parts = text::split(path, '.');
    let ghost all = text::slices(parts@);
    let mut out: Vec<PathSegment<'a>> = Vec::new();
    let mut i: usize = 0;
    assert(out@.map_values(|s: PathSegment<'a>| s@) =~= Seq::empty());
    while i < parts.len()
        invariant
            i <= parts@.len(),
            all == text::slices(parts@),
            readable_parts(all),
            out@.map_values(|s: PathSegment<'a>| s@) == segments(all, i as int),
        decreases parts@.len() - i,
    {
        let ghost before = out@.map_values(|s: PathSegment<'a>| s@);
        let part = parts[i];
        assert(all[i as int] == part@);
        let n = part.unicode_len();
        if n > 0 {
            let step = match text::find(part, '[') {
                Some(p) => {
                    assert(bracket_closes(all[i as int]));
                    let index = part.substring_char(p + 1, n - 1);
                    match number::parse_unsigned(index, usize::MAX as u64) {
                        Some(k) => {
                            let key = part.substring_char(0, p);
                            assert(key@ =~= part@.take(p as int));
                            PathSegment::Index(key, k as usize)
                        },
                        None => PathSegment::Key(part),
                    }
                },
                None => PathSegment::Key(part),
            };
            assert(step@ == segment(part@));
            let ghost seen = step@;
            out.push(step);
            assert(out@.map_values(|s: PathSegment<'a>| s@) =~= before.push(seen));
        }
        i = i + 1;
    }
    out
}

/// Writes what a path stands for.
fn resolve_path(path: &str, value: &Json) -> (r: String)
    requires
        readable_path(path@),
    ensures
        r@ == path_text(path@, value@),
{
    let n = path.unicode_len();
    let inner = if n > 0 && path.get_char(0) == '.' {
        let inner = path.substring_char(1, n);
        assert(inner@ =~= path@.skip(1));
        inner
    } else {
        path
    };
    let steps = split_path_segments(inner);
    let ghost all = steps@.map_values(|s: PathSegment| s@);
    assert(all == path_steps(path@));
    let mut current = value;
    let mut i: usize = 0;
    while i < steps.len()
        invariant
            i <= steps@.len(),
            all == steps@.map_values(|s: PathSegment| s@),
            all == path_steps(path@),
            walk(value@, all, 0) == walk(current@, all, i as int),
        decreases steps@.len() - i,
    {
        assert(all[i as int] == steps@[i as int]@);
        let next = match &steps[i] {
            PathSegment::Key(key) => current.get(key),
            PathSegment::Index(key, k) => match current.get(key) {
                Some(list) => list.at(*k),
                None => None,
            },
        };
        assert(or_null(json::opt_json(next)) == step_into(current@, all[i as int]));
        match next {
            Some(Json::Null) => {
                return String::from_str("");
            },
            Some(j) => {
                current = j;
            },
            None => {
                return String::from_str("");
            },
        }
        i = i + 1;
    }
    match current {
        Json::Str(s) => s.clone(),
        Json::Null => String::from_str(""),
        _ => json::write_json(current),
    }
}

/// A template with every expression in curly brackets replaced by what it stands
/// for. An opening bracket without a closing one stands for itself.
pub open spec fn filled(template: Seq<char>, v: JsonView) -> Seq<char>
    decreases template.len(),
    via filled_decreases
{
    let start = text::position(template, '{');
    let after = template.skip(start + 1);
    let end = text::position(after, '}');
    if !template.contains('{') {
        template
    } else if after.contains('}') {
        template.take(start) + path_text(text::trimmed(after.take(end)), v) + filled(
            after.skip(end + 1),
            v,
        )
    } else {
        template.take(start) + "{"@ + filled(after, v)
    }
}

#[via_fn]
proof fn filled_decreases(template: Seq<char>, v: JsonView) {
    text::lemma_position(template, '{');
    let after = template.skip(text::position(template, '{') + 1);
    text::lemma_position(after, '}');
}

/// Whether the brackets in the expressions of a template can be read.
pub open spec fn readable(template: Seq<char>) -> bool
    decreases template.len(),
    via readable_decreases
{
    let start = text::position(template, '{');
    let after = template.skip(start + 1);
    let end = text::position(after, '}');
    if !template.contains('{') {
        true
    } else if after.contains('}') {
        readable_path(text::trimmed(after.take(end))) && readable(after.skip(end + 1))
    } else {
        readable(after)
    }
}

#[via_fn]
proof fn readable_decreases(template: Seq<char>) {
    text::lemma_position(template, '{');
    let after = template.skip(text::position(template, '{') + 1);
    text::lemma_position(after, '}');
}

fn can_read_path(path: &str) -> (r: bool)
    ensures
        r == readable_path(path@),
{
    let n = path.unicode_len();
    let inner = if n > 0 && path.get_char(0) == '.' {
        let inner = path.substring_char(1, n);
        assert(inner@ =~= path@.skip(1));
        inner
    } else {
        path
    };
    let parts = text::split(inner, '.');
    let ghost all = text::slices(parts@);
    assert(all == text::split_all(without_dot(path@), '.'));
    let mut i: usize = 0;
    while i < parts.len()
        invariant
            i <= parts@.len(),
            all == text::slices(parts@),
            all == text::split_all(without_dot(path@), '.'),
            forall|j: int| 0 <= j < i ==> bracket_closes(#[trigger] all[j]),
        decreases parts@.len() - i,
    {
        let part = parts[i];
        assert(all[i as int] == part@);
        match text::find(part, '[') {
            Some(p) => {
                let m = part.unicode_len();
                if p >= m - 1 {
                    assert(!bracket_closes(all[i as int]));
                    return false;
                }
                let last = part.get_char(m - 1);
                if last as u32 >= 128 {
                    assert(!bracket_closes(all[i as int]));
                    return false;
                }
            },
            None => {},
        }
        i = i + 1;
    }
    true
}

/// Whether the brackets in the expressions of a template can be read.
pub fn is_readable(template: &str) -> (r: bool)
    ensures
        r == readable(template@),
    decreases template@.len(),
{
    proof {
        text::lemma_position(template@, '{');
    }
    match text::split_once(template, '{') {
        None => true,
        Some((_, after)) => {
            proof {
                text::lemma_position(after@, '}');
            }
            match text::split_once(after, '}') {
                None => is_readable(after),
                Some((path, rest)) => can_read_path(text::trim(path)) && is_readable(rest),
            }
        },
    }
}

/// Fills in a template: every expression in curly brackets, such as
/// `{.tasks[0].public_ip}`, is replaced by what it stands for.
pub fn resolve_jsonpath_template(template: &str, value: &Json) -> (r: String)
    requires
        readable(template@),
    ensures
        r@ == filled(template@, value@),
{
    let mut out = String::new();
    let mut rest = template;
    assert(Seq::<char>::empty() + filled(template@, value@) =~= filled(template@, value@));
    loop
        invariant_except_break
            readable(rest@),
            filled(template@, value@) == out@ + filled(rest@, value@),
        ensures
            filled(template@, value@) == out@ + filled(rest@, value@),
            !rest@.contains('{'),
        decreases rest@.len(),
    {
        proof {
            text::lemma_position(rest@, '{');
        }
        match text::split_once(rest, '{') {
            None => {
                break;
            },
            Some((before, after)) => {
                let ghost start = out@;
                let ghost whole = rest@;
                out.append(before);
                proof {
                    text::lemma_position(after@, '}');
                }
                match text::split_once(after, '}') {
                    Some((path, behind)) => {
                        let resolved = resolve_path(text::trim(path), value);
                        out.append(resolved.as_str());
                        rest = behind;
                        assert(start + filled(whole, value@) =~= out@ + filled(rest@, value@));
                    },
                    None => {
                        out.append("{");
                        rest = after;
                        assert(start + filled(whole, value@) =~= out@ + filled(rest@, value@));
                    },
                }
            },
        }
    }
    out.append(rest);
    out
}

/// A template without expressions is its own result.
pub proof fn lemma_plain_template(template: Seq<char>, v: JsonView)
    requires
        !template.contains('{'),
    ensures
        readable(template),
        filled(template, v) == template,
{
}

/// A part of a path with a number in square brackets is a step to the element of that
/// number, counted from zero; one without brackets is a step to the member of its name, and
/// so is one with something else than digits in them.
pub proof fn lemma_steps(key: Seq<char>, n: nat, other: Seq<char>, k: int)
    requires
        !key.contains('['),
        n <= usize::MAX,
        0 <= k < other.len(),
        !('0' <= other[k] <= '9'),
        other[0] != '+',
    ensures
        segment(key) == SegmentView::Key(key),
        segment(key + seq!['['] + number::decimal(n) + seq![']']) == SegmentView::Index(
            key,
            n as int,
        ),
        segment(key + seq!['['] + other + seq![']']) == SegmentView::Key(
            key + seq!['['] + other + seq![']'],
        ),
{
    lemma_bracket(key, number::decimal(n));
    lemma_bracket(key, other);
    number::lemma_number_round_trip(n, usize::MAX as nat, 0);
    assert(!number::is_digit(other[k]));
}

proof fn lemma_bracket(key: Seq<char>, inner: Seq<char>)
    requires
        !key.contains('['),
    ensures
        ({
            let s = key + seq!['['] + inner + seq![']'];
            &&& s.contains('[')
            &&& text::position(s, '[') == key.len()
            &&& s.take(key.len() as int) == key
            &&& s.subrange(key.len() as int + 1, s.len() - 1) == inner
        }),
{
    let s = key + seq!['['] + inner + seq![']'];
    let p = key.len() as int;
    assert(s[p] == '[');
    assert forall|j: int| 0 <= j < p implies s[j] != '[' by {
        assert(s[j] == key[j]);
        assert(key.contains(key[j]));
    }
    text::lemma_position_is(s, '[', p);
    assert(s.take(p) =~= key);
    assert(s.subrange(p + 1, s.len() - 1) =~= inner);
}

proof fn lemma_segments_front(x: Seq<char>, parts: Seq<Seq<char>>, n: int)
    requires
        0 <= n <= parts.len(),
    ensures
        segments(seq![x] + parts, n + 1) == if x.len() == 0 {
            segments(parts, n)
        } else {
            seq![segment(x)] + segments(parts, n)
        },
    decreases n,
{
    let all = seq![x] + parts;
    reveal_with_fuel(segments, 2);
    if n == 0 {
        assert(all[0] == x);
        assert(segments(all, 0) =~= Seq::empty());
        if x.len() > 0 {
            assert(segments(all, 1) =~= seq![segment(x)]);
        }
    } else {
        lemma_segments_front(x, parts, n - 1);
        assert(all[n] == parts[n - 1]);
        if parts[n - 1].len() > 0 && x.len() > 0 {
            assert((seq![segment(x)] + segments(parts, n - 1)).push(segment(parts[n - 1]))
                =~= seq![segment(x)] + segments(parts, n - 1).push(segment(parts[n - 1])));
        }
    }
}

proof fn lemma_walk_on(v: JsonView, s: SegmentView, steps: Seq<SegmentView>, i: int)
    requires
        0 <= i <= steps.len(),
    ensures
        walk(v, seq![s] + steps, i + 1) == walk(v, steps, i),
    decreases steps.len() - i,
{
    let all = seq![s] + steps;
    if i < steps.len() {
        assert(all[i + 1] == steps[i]);
        lemma_walk_on(step_into(v, steps[i]), s, steps, i + 1);
    }
}

/// A path is followed part by part: from a member of a value it goes on as from that member;
/// an empty part leads nowhere else; and where there is no such member, or it is null,
/// nothing is written. The dot in front of a path may be left out.
pub proof fn lemma_path_goes_on(key: Seq<char>, rest: Seq<char>, v: JsonView)
    requires
        !key.contains('.'),
        !key.contains('['),
    ensures
        key.len() > 0 ==> (json::member(v, key) matches Some(w) ==> (!(w is Null) ==> path_text(
            seq!['.'] + (key + seq!['.'] + rest),
            v,
        ) == path_text(seq!['.'] + rest, w))),
        key.len() > 0 && (json::member(v, key) is None || json::member(v, key) == Some(
            JsonView::Null,
        )) ==> path_text(seq!['.'] + (key + seq!['.'] + rest), v) == ""@ && path_text(
            seq!['.'] + key,
            v,
        ) == ""@,
        key.len() == 0 ==> path_text(seq!['.'] + (key + seq!['.'] + rest), v) == path_text(
            seq!['.'] + rest,
            v,
        ),
        key.len() > 0 ==> path_text(seq!['.'] + key, v) == path_text(key, v),
{
    let path = key + seq!['.'] + rest;
    let parts = text::split_all(rest, '.');
    assert((seq!['.'] + path).skip(1) =~= path);
    assert((seq!['.'] + rest).skip(1) =~= rest);
    assert((seq!['.'] + key).skip(1) =~= key);
    text::lemma_first_piece(key, rest, 1, '.');
    lemma_segments_front(key, parts, parts.len() as int);
    lemma_segments_front(key, Seq::empty(), 0);
    assert(seq![key] + Seq::<Seq<char>>::empty() =~= seq![key]);
    assert(segments(Seq::empty(), 0) =~= Seq::empty());
    assert(seq![segment(key)] + Seq::<SegmentView>::empty() =~= seq![segment(key)]);
    if key.len() > 0 {
        let steps = path_steps(seq!['.'] + rest);
        assert(path_steps(seq!['.'] + path) == seq![segment(key)] + steps);
        assert(path_steps(seq!['.'] + key) == seq![segment(key)]);
        let next = step_into(v, segment(key));
        lemma_walk_on(next, segment(key), steps, 0);
        assert((seq![segment(key)] + steps)[0] == segment(key));
        if key[0] == '.' {
            assert(key.contains('.'));
        }
    }
}

/// A path of one name stands for the member of that name, and one with a number in square
/// brackets for the element of that member; a string is written as it is, and what
/// is missing as nothing.
pub proof fn lemma_path_of_one_part(key: Seq<char>, n: nat, v: JsonView)
    requires
        key.len() > 0,
        !key.contains('.'),
        !key.contains('['),
        n <= usize::MAX,
    ensures
        json::member(v, key) matches Some(JsonView::Str(s)) ==> path_text(seq!['.'] + key, v) == s,
        json::member(v, key) matches Some(w) ==> (!(w is Str) && !(w is Null) ==> path_text(
            seq!['.'] + key,
            v,
        ) == json::json_text(w)),
        json::member(v, key) is None ==> path_text(seq!['.'] + key, v).len() == 0,
        json::member(v, key) matches Some(JsonView::Array(list)) ==> (n < list.len()
            && list[n as int] is Str ==> path_text(
            seq!['.'] + (key + seq!['['] + number::decimal(n) + seq![']']),
            v,
        ) == list[n as int]->Str_0),
        json::member(v, key) matches Some(JsonView::Array(list)) ==> (n >= list.len() ==> path_text(
            seq!['.'] + (key + seq!['['] + number::decimal(n) + seq![']']),
            v,
        ).len() == 0),
        json::member(v, key) is None ==> path_text(
            seq!['.'] + (key + seq!['['] + number::decimal(n) + seq![']']),
            v,
        ).len() == 0,
{
    reveal_strlit("");
    lemma_steps(key, n, seq!['a'], 0);
    lemma_one_step(key, v);
    let part = key + seq!['['] + number::decimal(n) + seq![']'];
    number::lemma_decimal_is_read(n);
    assert(!part.contains('.')) by {
        assert forall|i: int| 0 <= i < part.len() implies part[i] != '.' by {
            if i < key.len() {
                assert(part[i] == key[i]);
                assert(key.contains(key[i]));
            } else if key.len() < i < part.len() - 1 {
                assert(part[i] == number::decimal(n)[i - key.len() - 1]);
            }
        }
    }
    lemma_one_step(part, v);
}

proof fn lemma_one_step(part: Seq<char>, v: JsonView)
    requires
        part.len() > 0,
        !part.contains('.'),
    ensures
        path_text(seq!['.'] + part, v) == written(step_into(v, segment(part))),
{
    assert((seq!['.'] + part).skip(1) =~= part);
    text::lemma_first_piece(part, Seq::empty(), 1, '.');
    lemma_segments_front(part, Seq::empty(), 0);
    assert(seq![part] + Seq::<Seq<char>>::empty() =~= seq![part]);
    assert(segments(Seq::empty(), 0) =~= Seq::empty());
    assert(seq![segment(part)] + Seq::<SegmentView>::empty() =~= seq![segment(part)]);
    let steps = path_steps(seq!['.'] + part);
    assert(steps == seq![segment(part)]);
    reveal_with_fuel(walk, 2);
}

/// A template is filled in from the front: what stands before an expression is kept, the
/// expression is replaced by what its path stands for, and the rest is filled in by itself.
/// An opening bracket that nothing closes is kept.
pub proof fn lemma_filled_in(plain: Seq<char>, expr: Seq<char>, rest: Seq<char>, v: JsonView)
    requires
        !plain.contains('{'),
        !expr.contains('}'),
    ensures
        filled(plain + (seq!['{'] + (expr + seq!['}'] + rest)), v) == plain + path_text(
            text::trimmed(expr),
            v,
        ) + filled(rest, v),
        filled(plain + (seq!['{'] + expr), v) == plain + seq!['{'] + filled(expr, v),
{
    reveal_strlit("{");
    assert("{"@ =~= seq!['{']);
    let tail = expr + seq!['}'] + rest;
    lemma_opening(plain, tail);
    lemma_opening(plain, expr);
    assert(tail[expr.len() as int] == '}');
    assert(tail.contains('}'));
    assert forall|j: int| 0 <= j < expr.len() implies tail[j] != '}' by {
        assert(tail[j] == expr[j]);
        assert(expr.contains(expr[j]));
    }
    text::lemma_position_is(tail, '}', expr.len() as int);
    assert(tail.take(expr.len() as int) =~= expr);
    assert(tail.skip(expr.len() as int + 1) =~= rest);
}

proof fn lemma_opening(plain: Seq<char>, tail: Seq<char>)
    requires
        !plain.contains('{'),
    ensures
        ({
            let s = plain + (seq!['{'] + tail);
            &&& s.contains('{')
            &&& text::position(s, '{') == plain.len()
            &&& s.take(plain.len() as int) == plain
            &&& s.skip(plain.len() as int + 1) == tail
        }),
{
    let s = plain + (seq!['{'] + tail);
    let p = plain.len() as int;
    assert(s[p] == '{');
    assert forall|j: int| 0 <= j < p implies s[j] != '{' by {
        assert(s[j] == plain[j]);
        assert(plain.contains(plain[j]));
    }
    text::lemma_position_is(s, '{', p);
    assert(s.take(p) =~= plain);
    assert(s.skip(p + 1) =~= tail);
}

/// A part of a path can be read if it has no opening bracket, or one with something behind
/// it that ends in an ASCII character; with nothing behind the bracket it cannot.
pub proof fn lemma_readable_parts(key: Seq<char>, inner: Seq<char>, end: char)
    requires
        !key.contains('['),
    ensures
        bracket_closes(key),
        !bracket_closes(key.push('[')),
        bracket_closes(key + seq!['['] + inner.push(end)) <==> end <= '\u{7f}',
{
    let bare = key.push('[');
    let full = key + seq!['['] + inner.push(end);
    let p = key.len() as int;
    assert(bare[p] == '[');
    assert(full[p] == '[');
    assert forall|j: int| 0 <= j < p implies bare[j] != '[' && full[j] != '[' by {
        assert(bare[j] == key[j] && full[j] == key[j]);
        assert(key.contains(key[j]));
    }
    text::lemma_position_is(bare, '[', p);
    text::lemma_position_is(full, '[', p);
    assert(full.last() == end);
}

/// A template can be filled in exactly if each of its expressions can be read.
pub proof fn lemma_readable_template(plain: Seq<char>, expr: Seq<char>, rest: Seq<char>)
    requires
        !plain.contains('{'),
        !expr.contains('}'),
    ensures
        readable(plain + (seq!['{'] + (expr + seq!['}'] + rest))) <==> readable_path(
            text::trimmed(expr),
        ) && readable(rest),
        readable(plain + (seq!['{'] + expr)) <==> readable(expr),
{
    let tail = expr + seq!['}'] + rest;
    lemma_opening(plain, tail);
    lemma_opening(plain, expr);
    assert(tail[expr.len() as int] == '}');
    assert(tail.contains('}'));
    assert forall|j: int| 0 <= j < expr.len() implies tail[j] != '}' by {
        assert(tail[j] == expr[j]);
        assert(expr.contains(expr[j]));
    }
    text::lemma_position_is(tail, '}', expr.len() as int);
    assert(tail.take(expr.len() as int) =~= expr);
    assert(tail.skip(expr.len() as int + 1) =~= rest);
}

/// A path can be read exactly if each of its parts between dots can; the dot in front of it
/// does not count.
pub proof fn lemma_readable_path(part: Seq<char>, rest: Seq<char>)
    requires
        !part.contains('.'),
        part.len() > 0,
    ensures
        readable_path(seq!['.'] + part) <==> bracket_closes(part),
        readable_path(part) <==> bracket_closes(part),
        readable_path(seq!['.'] + (part + seq!['.'] + rest)) <==> bracket_closes(part)
            && readable_path(seq!['.'] + rest),
{
    assert((seq!['.'] + part).skip(1) =~= part);
    assert((seq!['.'] + rest).skip(1) =~= rest);
    assert((seq!['.'] + (part + seq!['.'] + rest)).skip(1) =~= part + seq!['.'] + rest);
    text::lemma_first_piece(part, rest, 1, '.');
    if part[0] == '.' {
        assert(part.contains('.'));
    }
    let parts = text::split_all(rest, '.');
    let all = seq![part] + parts;
    assert(all[0] == part);
    assert(seq![part][0] == part);
    if readable_parts(all) {
        assert forall|i: int| 0 <= i < parts.len() implies bracket_closes(
            #[trigger] parts[i],
        ) by {
            assert(all[i + 1] == parts[i]);
        }
    }
}

} // verus!
