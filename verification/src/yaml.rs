//! YAML documents, and settings in them by path.

use crate::error::Error;
use crate::number;
use crate::text;
use vstd::prelude::*;

verus! {

/// A YAML document.
#[derive(Debug)]
pub enum Yaml {
    Null,
    Bool(bool),
    /// A number, as it is written.
    Number(String),
    Str(String),
    Sequence(Vec<Yaml>),
    Mapping(Vec<YamlEntry>),
    Tagged(String, Box<Yaml>),
}

/// An entry of a mapping.
#[derive(Debug)]
pub struct YamlEntry {
    pub key: Yaml,
    pub value: Yaml,
}

/// What a [`Yaml`] says.
pub enum YamlView {
    Null,
    Bool(bool),
    Number(Seq<char>),
    Str(Seq<char>),
    Sequence(Seq<YamlView>),
    Mapping(Seq<(YamlView, YamlView)>),
    Tagged(Seq<char>, Box<YamlView>),
}

/// What a document says.
pub open spec fn yaml_view(y: Yaml) -> YamlView
    decreases y,
{
    match y {
        Yaml::Null => YamlView::Null,
        Yaml::Bool(b) => YamlView::Bool(b),
        Yaml::Number(n) => YamlView::Number(n@),
        Yaml::Str(s) => YamlView::Str(s@),
        Yaml::Sequence(list) => YamlView::Sequence(
            Seq::new(
                list@.len(),
                |i: int|
                    if 0 <= i < list@.len() {
                        yaml_view(list@[i])
                    } else {
                        YamlView::Null
                    },
            ),
        ),
        Yaml::Mapping(entries) => YamlView::Mapping(
            Seq::new(
                entries@.len(),
                |i: int|
                    if 0 <= i < entries@.len() {
                        (yaml_view(entries@[i].key), yaml_view(entries@[i].value))
                    } else {
                        (YamlView::Null, YamlView::Null)
                    },
            ),
        ),
        Yaml::Tagged(tag, inner) => YamlView::Tagged(tag@, Box::new(yaml_view(*inner))),
    }
}

impl View for Yaml {
    type V = YamlView;

    open spec fn view(&self) -> YamlView {
        yaml_view(*self)
    }
}

/// A document without the tags around it.
pub open spec fn untagged(v: YamlView) -> YamlView
    decreases v,
{
    match v {
        YamlView::Tagged(_, inner) => untagged(*inner),
        _ => v,
    }
}

/// The place of the first entry whose key is a string; the number of entries
/// where there is none.
pub open spec fn key_place(entries: Seq<(YamlView, YamlView)>, key: Seq<char>, i: int) -> int
    decreases entries.len() - i,
{
    if i < 0 || i >= entries.len() {
        entries.len() as int
    } else if entries[i].0 == YamlView::Str(key) {
        i
    } else {
        key_place(entries, key, i + 1)
    }
}

/// The value of a key in a document; null where it has none.
pub open spec fn value_at(v: YamlView, key: Seq<char>) -> YamlView {
    match untagged(v) {
        YamlView::Mapping(entries) => {
            let p = key_place(entries, key, 0);
            if p < entries.len() {
                entries[p].1
            } else {
                YamlView::Null
            }
        },
        _ => YamlView::Null,
    }
}

/// Whether a key can be set in a document: in a mapping, which may be tagged,
/// and in place of nothing.
pub open spec fn holds_keys(v: YamlView) -> bool
    decreases v,
{
    match v {
        YamlView::Null => true,
        YamlView::Mapping(_) => true,
        YamlView::Tagged(_, inner) => !(*inner is Null) && holds_keys(*inner),
        _ => false,
    }
}

/// A document with a key set to a value. A new key comes last.
pub open spec fn with_key(v: YamlView, key: Seq<char>, x: YamlView) -> YamlView
    decreases v,
{
    match v {
        YamlView::Mapping(entries) => {
            let p = key_place(entries, key, 0);
            if p < entries.len() {
                YamlView::Mapping(entries.update(p, (entries[p].0, x)))
            } else {
                YamlView::Mapping(entries.push((YamlView::Str(key), x)))
            }
        },
        YamlView::Tagged(tag, inner) => YamlView::Tagged(
            tag,
            Box::new(with_key(*inner, key, x)),
        ),
        _ => YamlView::Mapping(seq![(YamlView::Str(key), x)]),
    }
}

/// What a text is set as, in place of an existing value: a boolean stays a
/// boolean, a number stays a number if the text is an integer, and all else
/// becomes a string.
pub open spec fn setting(existing: YamlView, value: Seq<char>) -> YamlView {
    let old_value = untagged(existing);
    if old_value is Bool || (old_value is Null && (value == "true"@ || value == "false"@)) {
        YamlView::Bool(value == "true"@)
    } else if old_value is Number && number::parse_i64_spec(value) is Some {
        YamlView::Number(number::decimal_int(number::parse_i64_spec(value)->0))
    } else {
        YamlView::Str(value)
    }
}

/// The part of a document that a path goes on in: an empty mapping in place of
/// nothing.
pub open spec fn next_part(v: YamlView, key: Seq<char>) -> YamlView {
    let child = value_at(v, key);
    if untagged(child) is Null {
        YamlView::Mapping(Seq::empty())
    } else {
        child
    }
}

/// A document with the value at a path set to a text.
pub open spec fn with_setting(v: YamlView, path: Seq<Seq<char>>, value: Seq<char>) -> YamlView
    decreases path.len(),
{
    if path.len() == 0 {
        v
    } else if path.len() == 1 {
        with_key(v, path[0], setting(value_at(v, path[0]), value))
    } else {
        with_key(v, path[0], with_setting(next_part(v, path[0]), path.skip(1), value))
    }
}

/// Whether a path leads through mappings, or through nothing, to the place
/// where a value can be set.
pub open spec fn settable(v: YamlView, path: Seq<Seq<char>>) -> bool
    decreases path.len(),
{
    &&& holds_keys(v)
    &&& path.len() > 1 ==> settable(next_part(v, path[0]), path.skip(1))
}

impl Yaml {
    /// The value without the tags around it.
    fn untag(&self) -> (r: &Yaml)
        ensures
            r@ == untagged(self@),
            !(r is Tagged),
        decreases self,
    {
        match self {
            Yaml::Tagged(_, inner) => inner.untag(),
            _ => self,
        }
    }

    /// Whether the value is a string.
    fn is_text(&self, s: &str) -> (r: bool)
        ensures
            r == (self@ == YamlView::Str(s@)),
    {
        match self {
            Yaml::Str(t) => text::same(t.as_str(), s),
            _ => false,
        }
    }

    /// Whether a key can be set in the value.
    fn takes_keys(&self) -> (r: bool)
        ensures
            r == holds_keys(self@),
        decreases self,
    {
        match self {
            Yaml::Null => true,
            Yaml::Mapping(_) => true,
            Yaml::Tagged(_, inner) => {
                let empty = match &**inner {
                    Yaml::Null => true,
                    _ => false,
                };
                !empty && inner.takes_keys()
            },
            _ => false,
        }
    }
}

/// The place of the first entry with a key.
fn find_key(entries: &Vec<YamlEntry>, key: &str) -> (r: usize)
    ensures
        r == key_place(yaml_view(Yaml::Mapping(*entries))->Mapping_0, key@, 0),
        r <= entries@.len(),
{
    let ghost all = yaml_view(Yaml::Mapping(*entries))->Mapping_0;
    let mut i: usize = 0;
    while i < entries.len()
        invariant
            i <= entries@.len(),
            all == yaml_view(Yaml::Mapping(*entries))->Mapping_0,
            all.len() == entries@.len(),
            key_place(all, key@, 0) == key_place(all, key@, i as int),
        decreases entries@.len() - i,
    {
        assert(all[i as int].0 == entries@[i as int].key@);
        if entries[i].key.is_text(key) {
            return i;
        }
        i = i + 1;
    }
    i
}

/// The value of a key.
fn get<'a>(v: &'a Yaml, key: &str) -> (r: Option<&'a Yaml>)
    ensures
        match r {
            Some(x) => x@ == value_at(v@, key@),
            None => value_at(v@, key@) == YamlView::Null,
        },
{
    match v.untag() {
        Yaml::Mapping(entries) => {
            let p = find_key(entries, key);
            if p < entries.len() {
                Some(&entries[p].value)
            } else {
                None
            }
        },
        _ => None,
    }
}

/// What a text is set as.
fn make_setting(existing: Option<&Yaml>, value: &str) -> (r: Yaml)
    ensures
        r@ == setting(
            match existing {
                Some(x) => x@,
                None => YamlView::Null,
            },
            value@,
        ),
{
    let (was_bool, was_null, was_number) = match existing {
        Some(x) => match x.untag() {
            Yaml::Bool(_) => (true, false, false),
            Yaml::Null => (false, true, false),
            Yaml::Number(_) => (false, false, true),
            _ => (false, false, false),
        },
        None => (false, true, false),
    };
    let is_true = text::same(value, "true");
    if was_bool || (was_null && (is_true || text::same(value, "false"))) {
        return Yaml::Bool(is_true);
    }
    if was_number {
        match number::parse_i64(value) {
            Some(n) => {
                return Yaml::Number(number::to_decimal_int(n as i128));
            },
            None => {},
        }
    }
    Yaml::Str(String::from_str(value))
}

/// Whether the value at a path can be set.
fn can_set(v: &Yaml, path: &Vec<&str>, i: usize) -> (r: bool)
    requires
        i < path@.len(),
    ensures
        r == settable(v@, text::slices(path@).skip(i as int)),
    decreases path@.len() - i,
{
    let ghost rest = text::slices(path@).skip(i as int);
    assert(rest[0] == path@[i as int]@);
    assert(rest.skip(1) =~= text::slices(path@).skip(i + 1));
    if !v.takes_keys() {
        return false;
    }
    if i == path.len() - 1 {
        return true;
    }
    match get(v, path[i]) {
        Some(child) => {
            let empty = match child.untag() {
                Yaml::Null => true,
                _ => false,
            };
            if empty {
                let fresh = Yaml::Mapping(Vec::new());
                assert(fresh@ == YamlView::Mapping(Seq::empty())) by {
                    assert(fresh@->Mapping_0 =~= Seq::empty());
                }
                can_set(&fresh, path, i + 1)
            } else {
                can_set(child, path, i + 1)
            }
        },
        None => {
            let fresh = Yaml::Mapping(Vec::new());
            assert(fresh@ == YamlView::Mapping(Seq::empty())) by {
                assert(fresh@->Mapping_0 =~= Seq::empty());
            }
            can_set(&fresh, path, i + 1)
        },
    }
}

/// The value that a path ends in, or goes on in.
fn make_child(existing: Yaml, path: &Vec<&str>, i: usize, value: &str) -> (r: Yaml)
    requires
        i < path@.len(),
        i + 1 < path@.len() ==> settable(
            if untagged(existing@) is Null {
                YamlView::Mapping(Seq::empty())
            } else {
                existing@
            },
            text::slices(path@).skip(i + 1),
        ),
    ensures
        r@ == if i + 1 == path@.len() {
            setting(existing@, value@)
        } else {
            with_setting(
                if untagged(existing@) is Null {
                    YamlView::Mapping(Seq::empty())
                } else {
                    existing@
                },
                text::slices(path@).skip(i + 1),
                value@,
            )
        },
    decreases path@.len() - i, 0nat,
{
    if i == path.len() - 1 {
        return make_setting(Some(&existing), value);
    }
    let empty = match existing.untag() {
        Yaml::Null => true,
        _ => false,
    };
    if empty {
        let fresh = Yaml::Mapping(Vec::new());
        assert(fresh@ == YamlView::Mapping(Seq::empty())) by {
            assert(fresh@->Mapping_0 =~= Seq::empty());
        }
        set_at(fresh, path, i + 1, value)
    } else {
        set_at(existing, path, i + 1, value)
    }
}

proof fn lemma_setting_in_tag(
    tag: Seq<char>,
    inner: YamlView,
    path: Seq<Seq<char>>,
    value: Seq<char>,
)
    requires
        path.len() > 0,
    ensures
        with_setting(YamlView::Tagged(tag, Box::new(inner)), path, value) == YamlView::Tagged(
            tag,
            Box::new(with_setting(inner, path, value)),
        ),
        settable(YamlView::Tagged(tag, Box::new(inner)), path) ==> settable(inner, path) && !(
        inner is Null),
{
    let v = YamlView::Tagged(tag, Box::new(inner));
    assert(value_at(v, path[0]) == value_at(inner, path[0]));
    assert(next_part(v, path[0]) == next_part(inner, path[0]));
}

/// Sets the value at a path, from place `i` on.
fn set_at(v: Yaml, path: &Vec<&str>, i: usize, value: &str) -> (r: Yaml)
    requires
        i < path@.len(),
        settable(v@, text::slices(path@).skip(i as int)),
    ensures
        r@ == with_setting(v@, text::slices(path@).skip(i as int), value@),
    decreases path@.len() - i, 1nat, v,
{
    let ghost rest = text::slices(path@).skip(i as int);
    let ghost seen = v@;
    let key = path[i];
    assert(rest[0] == key@);
    assert(rest.len() == path@.len() - i);
    assert(rest.skip(1) =~= text::slices(path@).skip(i + 1));
    match v {
        Yaml::Mapping(mut entries) => {
            let ghost all = seen->Mapping_0;
            let p = find_key(&entries, key);
            if p < entries.len() {
                let YamlEntry { key: k, value: existing } = entries.remove(p);
                let ghost kept = k@;
                assert(all[p as int] == (k@, existing@));
                let child = make_child(existing, path, i, value);
                let ghost put = child@;
                entries.insert(p, YamlEntry { key: k, value: child });
                let r = Yaml::Mapping(entries);
                assert(r@->Mapping_0 =~= all.update(p as int, (kept, put)));
                r
            } else {
                let child = make_child(Yaml::Null, path, i, value);
                let ghost put = child@;
                let k = Yaml::Str(String::from_str(key));
                assert(k@ == YamlView::Str(key@));
                entries.push(YamlEntry { key: k, value: child });
                let r = Yaml::Mapping(entries);
                assert(r@->Mapping_0 =~= all.push((YamlView::Str(key@), put)));
                r
            }
        },
        Yaml::Tagged(tag, inner) => {
            proof {
                lemma_setting_in_tag(tag@, inner@, rest, value@);
            }
            Yaml::Tagged(tag, Box::new(set_at(*inner, path, i, value)))
        },
        _ => {
            assert(seen is Null);
            let child = make_child(Yaml::Null, path, i, value);
            let ghost put = child@;
            let mut entries: Vec<YamlEntry> = Vec::new();
            let k = Yaml::Str(String::from_str(key));
            assert(k@ == YamlView::Str(key@));
            entries.push(YamlEntry { key: k, value: child });
            let r = Yaml::Mapping(entries);
            assert(r@->Mapping_0 =~= seq![(YamlView::Str(key@), put)]);
            r
        },
    }
}

/// Whether the value at a path, whose parts stand between dots, can be set.
pub fn can_set_field(root: &Yaml, path: &str) -> (r: bool)
    ensures
        r == settable(root@, text::split_all(path@, '.')),
{
    let parts = text::split(path, '.');
    assert(text::slices(parts@).skip(0) =~= text::slices(parts@));
    can_set(root, &parts, 0)
}

/// Sets the value at a path, whose parts stand between dots. Mappings come into
/// being on the way, and the type of an existing value is kept where the text
/// allows it.
pub fn set_yaml_field(root: &mut Yaml, path: &str, value: &str)
    requires
        settable(old(root)@, text::split_all(path@, '.')),
    ensures
        final(root)@ == with_setting(old(root)@, text::split_all(path@, '.'), value@),
{
    let parts = text::split(path, '.');
    assert(text::slices(parts@).skip(0) =~= text::slices(parts@));
    let mut v = Yaml::Null;
    std::mem::swap(&mut v, root);
    let set = set_at(v, &parts, 0, value);
    *root = set;
}

/// What can be wrong with a document and what is to be set in it.
#[derive(Debug, Clone, Copy, PartialEq, Eq, Structural)]
pub enum YamlProblem {
    /// The text is not a YAML document.
    Syntax,
    /// A setting is not of the form `KEY=VALUE`.
    Setting,
}

/// A document with settings of the form `KEY=VALUE` made from place `i` on.
pub open spec fn overridden(v: YamlView, settings: Seq<Seq<char>>, i: int) -> Result<
    YamlView,
    (YamlProblem, Seq<char>),
>
    decreases settings.len() - i,
{
    if i < 0 || i >= settings.len() {
        Ok(v)
    } else {
        let entry = settings[i];
        let p = text::position(entry, '=');
        if !entry.contains('=') {
            Err(
                (
                    YamlProblem::Setting,
                    "invalid --set format '"@ + entry + "': expected KEY=VALUE"@,
                ),
            )
        } else {
            overridden(
                with_setting(v, text::split_all(entry.take(p), '.'), entry.skip(p + 1)),
                settings,
                i + 1,
            )
        }
    }
}

/// Whether the paths of settings can be set one after the other, from place `i`
/// on, up to the first that is malformed.
pub open spec fn overridable(v: YamlView, settings: Seq<Seq<char>>, i: int) -> bool
    decreases settings.len() - i,
{
    if i < 0 || i >= settings.len() || !settings[i].contains('=') {
        true
    } else {
        let entry = settings[i];
        let p = text::position(entry, '=');
        let path = text::split_all(entry.take(p), '.');
        settable(v, path) && overridable(
            with_setting(v, path, entry.skip(p + 1)),
            settings,
            i + 1,
        )
    }
}

/// Copies a document.
fn copy(v: &Yaml) -> (r: Yaml)
    ensures
        r@ == v@,
    decreases v,
{
    match v {
        Yaml::Null => Yaml::Null,
        Yaml::Bool(b) => Yaml::Bool(*b),
        Yaml::Number(n) => Yaml::Number(n.clone()),
        Yaml::Str(s) => Yaml::Str(s.clone()),
        Yaml::Sequence(list) => {
            let mut out: Vec<Yaml> = Vec::new();
            let mut i: usize = 0;
            while i < list.len()
                invariant
                    i <= list@.len(),
                    out@.len() == i,
                    v == Yaml::Sequence(*list),
                    forall|j: int| 0 <= j < i ==> (#[trigger] out@[j])@ == list@[j]@,
                decreases list@.len() - i,
            {
                assert(decreases_to!(v => v->Sequence_0@[i as int]));
                out.push(copy(&list[i]));
                i = i + 1;
            }
            let r = Yaml::Sequence(out);
            assert(r@->Sequence_0 =~= v@->Sequence_0);
            r
        },
        Yaml::Mapping(entries) => {
            let mut out: Vec<YamlEntry> = Vec::new();
            let mut i: usize = 0;
            while i < entries.len()
                invariant
                    i <= entries@.len(),
                    out@.len() == i,
                    v == Yaml::Mapping(*entries),
                    forall|j: int|
                        0 <= j < i ==> (#[trigger] out@[j]).key@ == entries@[j].key@
                            && out@[j].value@ == entries@[j].value@,
                decreases entries@.len() - i,
            {
                assert(decreases_to!(v => v->Mapping_0@[i as int]));
                assert(decreases_to!(entries@[i as int] => entries@[i as int].key));
                assert(decreases_to!(entries@[i as int] => entries@[i as int].value));
                let entry = &entries[i];
                out.push(YamlEntry { key: copy(&entry.key), value: copy(&entry.value) });
                i = i + 1;
            }
            let r = Yaml::Mapping(out);
            assert(r@->Mapping_0 =~= v@->Mapping_0);
            r
        },
        Yaml::Tagged(tag, inner) => Yaml::Tagged(tag.clone(), Box::new(copy(inner))),
    }
}

/// Whether settings can be made one after the other.
pub fn can_override(root: &Yaml, settings: &Vec<String>) -> (r: bool)
    ensures
        r == overridable(root@, text::texts(settings@), 0),
{
    let ghost all = text::texts(settings@);
    let mut v = copy(root);
    let mut i: usize = 0;
    while i < settings.len()
        invariant
            i <= settings@.len(),
            all == text::texts(settings@),
            overridable(root@, all, 0) == overridable(v@, all, i as int),
        decreases settings@.len() - i,
    {
        assert(all[i as int] == settings@[i as int]@);
        match text::split_once(settings[i].as_str(), '=') {
            Some((path, value)) => {
                if !can_set_field(&v, path) {
                    return false;
                }
                set_yaml_field(&mut v, path, value);
            },
            None => {
                return true;
            },
        }
        i = i + 1;
    }
    true
}

/// Makes settings of the form `KEY=VALUE` in a document, one after the other.
pub fn apply_overrides(root: Yaml, settings: &Vec<String>) -> (r: Result<Yaml, Error<YamlProblem>>)
    requires
        overridable(root@, text::texts(settings@), 0),
    ensures
        match r {
            Ok(v) => overridden(root@, text::texts(settings@), 0) == Ok::<
                YamlView,
                (YamlProblem, Seq<char>),
            >(v@),
            Err(e) => overridden(root@, text::texts(settings@), 0) == Err::<
                YamlView,
                (YamlProblem, Seq<char>),
            >(e@),
        },
{
    let ghost all = text::texts(settings@);
    let ghost start = root@;
    let mut v = root;
    let mut i: usize = 0;
    while i < settings.len()
        invariant
            i <= settings@.len(),
            all == text::texts(settings@),
            overridable(v@, all, i as int),
            start == root@,
            overridden(start, all, 0) == overridden(v@, all, i as int),
        decreases settings@.len() - i,
    {
        let entry = settings[i].as_str();
        assert(all[i as int] == entry@);
        match text::split_once(entry, '=') {
            Some((path, value)) => {
                set_yaml_field(&mut v, path, value);
            },
            None => {
                let mut m = String::from_str("invalid --set format '");
                m.append(entry);
                m.append("': expected KEY=VALUE");
                return Err(Error { kind: YamlProblem::Setting, message: m });
            },
        }
        i = i + 1;
    }
    Ok(v)
}

/// `serde_yaml::Value`, the document that `serde_yaml` reads.
#[verifier::external_type_specification]
#[verifier::external_body]
pub struct ExValue(serde_yaml::Value);

/// What the document in a text says, as `serde_yaml::from_str` reads it; nothing
/// where the text is not a YAML document.
pub uninterp spec fn parsed_yaml(s: Seq<char>) -> Option<YamlView>;

/// Takes over a `serde_yaml::Value` part by part. Numbers and tags are taken by
/// the text that `serde_yaml` writes for them. Nothing is claimed of the result.
#[verifier::external_body]
fn yaml_of(v: serde_yaml::Value) -> Yaml {
    match v {
        serde_yaml::Value::Null => Yaml::Null,
        serde_yaml::Value::Bool(b) => Yaml::Bool(b),
        serde_yaml::Value::Number(n) => Yaml::Number(n.to_string()),
        serde_yaml::Value::String(s) => Yaml::Str(s),
        serde_yaml::Value::Sequence(l) => Yaml::Sequence(l.into_iter().map(yaml_of).collect()),
        serde_yaml::Value::Mapping(m) => Yaml::Mapping(
            m.into_iter().map(|(k, v)| YamlEntry { key: yaml_of(k), value: yaml_of(v) }).collect(),
        ),
        serde_yaml::Value::Tagged(t) => Yaml::Tagged(t.tag.to_string(), Box::new(yaml_of(t.value))),
    }
}

/// `serde_yaml::from_str` reads a text as one YAML document. What comes out is a
/// function of the text, which [`parsed_yaml`] names; how YAML is read is not
/// stated.
#[verifier::external_body]
fn parse_yaml(s: &str) -> (r: Option<Yaml>)
    ensures
        match r {
            Some(y) => parsed_yaml(s@) == Some(y@),
            None => parsed_yaml(s@) is None,
        },
{
    serde_yaml::from_str::<serde_yaml::Value>(s).ok().map(yaml_of)
}

/// What a text comes to: the document in it, or the complaint that there is
/// none.
pub open spec fn loaded(doc: Option<YamlView>) -> Result<YamlView, (YamlProblem, Seq<char>)> {
    match doc {
        Some(v) => Ok(v),
        None => Err((YamlProblem::Syntax, "failed to parse YAML"@)),
    }
}

/// Reads a YAML document.
pub fn load_yaml(content: &str) -> (r: Result<Yaml, Error<YamlProblem>>)
    ensures
        match r {
            Ok(y) => loaded(parsed_yaml(content@)) == Ok::<YamlView, (YamlProblem, Seq<char>)>(y@),
            Err(e) => loaded(parsed_yaml(content@)) == Err::<YamlView, (YamlProblem, Seq<char>)>(
                e@,
            ),
        },
{
    match parse_yaml(content) {
        Some(y) => Ok(y),
        None => Err(
            Error {
                kind: YamlProblem::Syntax,
                message: String::from_str("failed to parse YAML"),
            },
        ),
    }
}

/// The value that a path leads to; null where it leads nowhere.
pub open spec fn value_along(v: YamlView, path: Seq<Seq<char>>) -> YamlView
    decreases path.len(),
{
    if path.len() == 0 {
        v
    } else {
        value_along(value_at(v, path[0]), path.skip(1))
    }
}

proof fn lemma_key_place(entries: Seq<(YamlView, YamlView)>, key: Seq<char>, i: int)
    requires
        0 <= i <= entries.len(),
    ensures
        i <= key_place(entries, key, i) <= entries.len(),
        key_place(entries, key, i) < entries.len() ==> entries[key_place(entries, key, i)].0
            == YamlView::Str(key),
        forall|j: int|
            i <= j < key_place(entries, key, i) ==> (#[trigger] entries[j]).0 != YamlView::Str(key),
    decreases entries.len() - i,
{
    if i < entries.len() && entries[i].0 != YamlView::Str(key) {
        lemma_key_place(entries, key, i + 1);
    }
}

proof fn lemma_key_place_is(entries: Seq<(YamlView, YamlView)>, key: Seq<char>, p: int)
    requires
        0 <= p <= entries.len(),
        forall|j: int| 0 <= j < p ==> (#[trigger] entries[j]).0 != YamlView::Str(key),
        p < entries.len() ==> entries[p].0 == YamlView::Str(key),
    ensures
        key_place(entries, key, 0) == p,
{
    lemma_key_place(entries, key, 0);
    let q = key_place(entries, key, 0);
    if q < p {
        assert(entries[q].0 != YamlView::Str(key));
    }
    if p < q {
        assert(entries[p].0 != YamlView::Str(key));
    }
}

/// A key that was set has the value it was set to, and every other key keeps its
/// own.
pub proof fn lemma_with_key(v: YamlView, key: Seq<char>, x: YamlView, other: Seq<char>)
    requires
        holds_keys(v),
    ensures
        value_at(with_key(v, key, x), key) == x,
        other != key ==> value_at(with_key(v, key, x), other) == value_at(v, other),
    decreases v,
{
    match v {
        YamlView::Mapping(entries) => {
            lemma_key_place(entries, key, 0);
            lemma_key_place(entries, other, 0);
            let p = key_place(entries, key, 0);
            let q = key_place(entries, other, 0);
            let after = with_key(v, key, x)->Mapping_0;
            assert forall|j: int| 0 <= j < entries.len() implies (#[trigger] after[j]).0
                == entries[j].0 by {}
            assert forall|j: int| 0 <= j < p implies (#[trigger] after[j]).0 != YamlView::Str(
                key,
            ) by {
                assert(entries[j].0 != YamlView::Str(key));
            }
            lemma_key_place_is(after, key, p);
            if other != key {
                assert forall|j: int| 0 <= j < q implies (#[trigger] after[j]).0
                    != YamlView::Str(other) by {
                    assert(entries[j].0 != YamlView::Str(other));
                }
                if q < entries.len() {
                    assert(p != q);
                    lemma_key_place_is(after, other, q);
                    assert(after[q] == entries[q]);
                } else {
                    lemma_key_place(after, other, 0);
                    let s = key_place(after, other, 0);
                    if s < after.len() {
                        if s < entries.len() {
                            assert(entries[s].0 != YamlView::Str(other));
                        }
                        assert(after[s].0 == YamlView::Str(other));
                    }
                }
            }
        },
        YamlView::Tagged(tag, inner) => {
            lemma_with_key(*inner, key, x, other);
        },
        _ => {
            let after = with_key(v, key, x)->Mapping_0;
            assert(after[0] == (YamlView::Str(key), x));
            lemma_key_place_is(after, key, 0);
            if other != key {
                lemma_key_place_is(after, other, 1);
            }
        },
    }
}

/// The value at a path that was set is the text that was given, of the type that
/// the value had before.
pub proof fn lemma_setting_is_read_back(v: YamlView, path: Seq<Seq<char>>, value: Seq<char>)
    requires
        path.len() > 0,
        settable(v, path),
    ensures
        value_along(with_setting(v, path, value), path) == setting(value_along(v, path), value),
    decreases path.len(),
{
    reveal_with_fuel(value_along, 2);
    let key = path[0];
    let rest = path.skip(1);
    if path.len() == 1 {
        lemma_with_key(v, key, setting(value_at(v, key), value), key);
        assert(rest.len() == 0);
    } else {
        let child = next_part(v, key);
        let put = with_setting(child, rest, value);
        lemma_with_key(v, key, put, key);
        lemma_setting_is_read_back(child, rest, value);
        lemma_along_nothing(value_at(v, key), rest);
        lemma_along_nothing(child, rest);
    }
}

/// Nothing is found below a value that is null, nor below an empty mapping.
proof fn lemma_along_nothing(v: YamlView, path: Seq<Seq<char>>)
    requires
        path.len() > 0,
    ensures
        untagged(v) is Null ==> value_along(v, path) == YamlView::Null,
        untagged(v) == YamlView::Mapping(Seq::empty()) ==> value_along(v, path)
            == YamlView::Null,
    decreases path.len(),
{
    reveal_with_fuel(value_along, 2);
    if untagged(v) is Null || untagged(v) == YamlView::Mapping(Seq::empty()) {
        assert(value_at(v, path[0]) == YamlView::Null);
        if path.len() > 1 {
            lemma_along_nothing(YamlView::Null, path.skip(1));
        } else {
            assert(path.skip(1).len() == 0);
        }
    }
}

/// Setting the value at a path leaves alone whatever lies on another path that
/// parts from it.
pub proof fn lemma_setting_keeps_the_rest(
    v: YamlView,
    path: Seq<Seq<char>>,
    value: Seq<char>,
    other: Seq<Seq<char>>,
    fork: int,
)
    requires
        settable(v, path),
        0 <= fork < path.len(),
        fork < other.len(),
        path[fork] != other[fork],
        forall|i: int| 0 <= i < fork ==> path[i] == other[i],
    ensures
        value_along(with_setting(v, path, value), other) == value_along(v, other),
    decreases path.len(),
{
    let key = path[0];
    let rest = path.skip(1);
    let put = if path.len() == 1 {
        setting(value_at(v, key), value)
    } else {
        with_setting(next_part(v, key), rest, value)
    };
    lemma_with_key(v, key, put, other[0]);
    if fork > 0 {
        assert(path[0] == other[0]);
        let others = other.skip(1);
        assert forall|i: int| 0 <= i < fork - 1 implies rest[i] == others[i] by {
            assert(path[i + 1] == other[i + 1]);
        }
        let child = next_part(v, key);
        lemma_setting_keeps_the_rest(child, rest, value, others, fork - 1);
        lemma_along_nothing(value_at(v, key), others);
        lemma_along_nothing(child, others);
    }
}

/// A tag makes no difference to what a value is.
pub proof fn lemma_tags_do_not_count(tag: Seq<char>, v: YamlView, key: Seq<char>, value: Seq<char>)
    ensures
        untagged(YamlView::Tagged(tag, Box::new(v))) == untagged(v),
        !(v is Tagged) ==> untagged(v) == v,
        value_at(YamlView::Tagged(tag, Box::new(v)), key) == value_at(v, key),
        setting(YamlView::Tagged(tag, Box::new(v)), value) == setting(v, value),
{
}

/// The value of a key in a mapping is that of the first entry with the key; a mapping
/// without such an entry has none, nor has anything that is no mapping.
pub proof fn lemma_value_of_key(entries: Seq<(YamlView, YamlView)>, key: Seq<char>, p: int)
    requires
        0 <= p <= entries.len(),
        forall|j: int| 0 <= j < p ==> (#[trigger] entries[j]).0 != YamlView::Str(key),
        p < entries.len() ==> entries[p].0 == YamlView::Str(key),
    ensures
        value_at(YamlView::Mapping(entries), key) == if p < entries.len() {
            entries[p].1
        } else {
            YamlView::Null
        },
        value_at(YamlView::Null, key) is Null,
        forall|b: bool| (#[trigger] value_at(YamlView::Bool(b), key)) is Null,
        forall|s: Seq<char>| (#[trigger] value_at(YamlView::Str(s), key)) is Null,
        forall|s: Seq<char>| (#[trigger] value_at(YamlView::Number(s), key)) is Null,
        forall|l: Seq<YamlView>| (#[trigger] value_at(YamlView::Sequence(l), key)) is Null,
{
    lemma_key_place_is(entries, key, p);
}

/// What a value becomes that is set to a text: true and false stay what they say in place
/// of a boolean or of nothing, an integer in place of a number is that number, and any
/// other text in place of anything else is that text.
pub proof fn lemma_set_values(v: YamlView, path: Seq<Seq<char>>, value: Seq<char>)
    requires
        path.len() > 0,
        settable(v, path),
    ensures
        ({
            let before = value_along(v, path);
            let after = value_along(with_setting(v, path, value), path);
            &&& (before is Null || before is Bool) && value == "true"@ ==> after
                == YamlView::Bool(true)
            &&& (before is Null || before is Bool) && value == "false"@ ==> after
                == YamlView::Bool(false)
            &&& before is Bool && value != "true"@ ==> after == YamlView::Bool(false)
            &&& before is Null && value != "true"@ && value != "false"@ ==> after
                == YamlView::Str(value)
            &&& before is Str || before is Sequence || before is Mapping ==> after
                == YamlView::Str(value)
        }),
{
    lemma_setting_is_read_back(v, path, value);
    let before = value_along(v, path);
    reveal_strlit("true");
    reveal_strlit("false");
    assert("true"@.len() != "false"@.len());
}

/// In place of a number, an integer becomes that number, as it is written; what is no
/// integer becomes a text.
pub proof fn lemma_set_number(v: YamlView, path: Seq<Seq<char>>, i: int, other: Seq<char>)
    requires
        path.len() > 0,
        settable(v, path),
        value_along(v, path) is Number,
        -0x8000_0000_0000_0000 <= i <= 0x7fff_ffff_ffff_ffff,
        exists|k: int|
            0 <= k < other.len() && !('0' <= #[trigger] other[k] <= '9') && (k > 0 || (other[0]
                != '+' && other[0] != '-')),
    ensures
        value_along(with_setting(v, path, number::decimal_int(i)), path) == YamlView::Number(
            number::decimal_int(i),
        ),
        value_along(with_setting(v, path, other), path) == YamlView::Str(other),
{
    lemma_setting_is_read_back(v, path, number::decimal_int(i));
    lemma_setting_is_read_back(v, path, other);
    number::lemma_number_round_trip(0, 0, i);
    let k = choose|k: int|
        0 <= k < other.len() && !('0' <= #[trigger] other[k] <= '9') && (k > 0 || (other[0] != '+'
            && other[0] != '-'));
    number::lemma_only_digits_are_read(other, 0, k);
}

/// A path can be set exactly if it leads through mappings as far as there is anything;
/// where there is nothing, it can go on at will.
pub proof fn lemma_where_values_can_be_set(v: YamlView, path: Seq<Seq<char>>)
    requires
        path.len() > 0,
    ensures
        v is Bool || v is Number || v is Str || v is Sequence ==> !settable(v, path),
        v is Null ==> settable(v, path),
        v is Mapping && path.len() == 1 ==> settable(v, path),
        v is Mapping && path.len() > 1 && value_at(v, path[0]) is Null ==> settable(v, path),
        v is Mapping && path.len() > 1 && !(untagged(value_at(v, path[0])) is Null) ==> (settable(
            v,
            path,
        ) <==> settable(value_at(v, path[0]), path.skip(1))),
    decreases path.len(),
{
    if path.len() > 1 {
        let empty = YamlView::Mapping(Seq::empty());
        lemma_key_place_is(Seq::empty(), path[1], 0);
        lemma_where_values_can_be_set(YamlView::Null, path.skip(1));
        lemma_where_values_can_be_set(empty, path.skip(1));
        if path.len() > 2 {
            assert(path.skip(1)[0] == path[1]);
            assert(value_at(empty, path[1]) is Null);
        }
    }
}

proof fn lemma_overridden_shift(v: YamlView, settings: Seq<Seq<char>>, i: int)
    requires
        0 <= i <= settings.len(),
    ensures
        overridden(v, settings, i) == overridden(v, settings.skip(i), 0),
        overridable(v, settings, i) == overridable(v, settings.skip(i), 0),
    decreases settings.len() - i,
{
    if i < settings.len() {
        let rest = settings.skip(i);
        assert(rest[0] == settings[i]);
        let entry = settings[i];
        let p = text::position(entry, '=');
        if entry.contains('=') {
            let after = with_setting(v, text::split_all(entry.take(p), '.'), entry.skip(p + 1));
            lemma_overridden_shift(after, settings, i + 1);
            lemma_overridden_shift(after, rest, 1);
            assert(rest.skip(1) =~= settings.skip(i + 1));
        }
    }
}

/// Settings are made one after the other: each sets what stands behind its first `=` at
/// the path before it, in what the ones before have made.
pub proof fn lemma_settings_in_turn(
    v: YamlView,
    path: Seq<char>,
    value: Seq<char>,
    rest: Seq<Seq<char>>,
)
    requires
        !path.contains('='),
    ensures
        overridden(v, Seq::empty(), 0) == Ok::<YamlView, (YamlProblem, Seq<char>)>(v),
        overridden(v, seq![path + seq!['='] + value] + rest, 0) == overridden(
            with_setting(v, text::split_all(path, '.'), value),
            rest,
            0,
        ),
        overridable(v, seq![path + seq!['='] + value] + rest, 0) <==> settable(
            v,
            text::split_all(path, '.'),
        ) && overridable(with_setting(v, text::split_all(path, '.'), value), rest, 0),
{
    let entry = path + seq!['='] + value;
    let all = seq![entry] + rest;
    let n = path.len() as int;
    assert(entry[n] == '=');
    assert forall|j: int| 0 <= j < n implies entry[j] != '=' by {
        assert(entry[j] == path[j]);
        assert(path.contains(path[j]));
    }
    text::lemma_position_is(entry, '=', n);
    assert(entry.contains('='));
    assert(entry.take(n) =~= path);
    assert(entry.skip(n + 1) =~= value);
    assert(all[0] == entry);
    let after = with_setting(v, text::split_all(path, '.'), value);
    lemma_overridden_shift(after, all, 1);
    assert(all.skip(1) =~= rest);
}

/// Settings are refused exactly if one of them has no `=`.
pub proof fn lemma_malformed_setting_is_refused(v: YamlView, settings: Seq<Seq<char>>)
    ensures
        overridden(v, settings, 0) is Err <==> exists|k: int|
            0 <= k < settings.len() && !(#[trigger] settings[k]).contains('='),
{
    lemma_refused_from(v, settings, 0);
}

proof fn lemma_refused_from(v: YamlView, settings: Seq<Seq<char>>, i: int)
    requires
        0 <= i <= settings.len(),
    ensures
        overridden(v, settings, i) is Err <==> exists|k: int|
            i <= k < settings.len() && !(#[trigger] settings[k]).contains('='),
    decreases settings.len() - i,
{
    if i < settings.len() && settings[i].contains('=') {
        let entry = settings[i];
        let p = text::position(entry, '=');
        lemma_refused_from(
            with_setting(v, text::split_all(entry.take(p), '.'), entry.skip(p + 1)),
            settings,
            i + 1,
        );
    }
}

} // verus!
