//! JSON documents, read with `serde_json`: their form, whether a text writes a
//! key twice, and a survey of the parts of a tokenizer.

use vstd::prelude::*;

use crate::chars::{same_chars, to_chars};

verus! {

/// The form of a JSON value. The entries of an object have different keys.
pub ghost enum Json {
    Null,
    Flag(bool),
    /// A number as it is written, and its value where that is a `u64`.
    Number(Seq<char>, Option<u64>),
    Text(Seq<char>),
    List(Seq<Json>),
    Object(Seq<(Seq<char>, Json)>),
}

/// The form of a value of the `serde_json` crate.
pub uninterp spec fn json_form(v: serde_json::Value) -> Json;

/// The form of the JSON value that a text holds, if it holds one.
pub uninterp spec fn parsed_json(text: Seq<char>) -> Option<Json>;

/// `serde_json::from_str` reads a text that is a JSON value. The text of the
/// error is left open.
#[verifier::external_body]
pub(crate) fn parse_json(text: &str) -> (r: Result<serde_json::Value, String>)
    ensures
        match r {
            Ok(v) => parsed_json(text@) == Some(json_form(v)),
            Err(_) => parsed_json(text@) is None,
        },
{
    serde_json::from_str(text).map_err(|e| e.to_string())
}

/// A value that was taken apart.
pub enum Opened {
    Null,
    Flag(bool),
    Number(String, Option<u64>),
    Text(String),
    List(Vec<serde_json::Value>),
    /// The keys, and the values in the same order.
    Object(Vec<String>, Vec<serde_json::Value>),
}

/// The form of the value that `o` was.
pub open spec fn opened_form(o: Opened) -> Json {
    match o {
        Opened::Null => Json::Null,
        Opened::Flag(b) => Json::Flag(b),
        Opened::Number(written, n) => Json::Number(written@, n),
        Opened::Text(s) => Json::Text(s@),
        Opened::List(items) => Json::List(forms(items@)),
        Opened::Object(keys, values) => Json::Object(entry_forms(keys@, values@)),
    }
}

pub open spec fn forms(items: Seq<serde_json::Value>) -> Seq<Json> {
    items.map_values(|v: serde_json::Value| json_form(v))
}

pub open spec fn entry_forms(keys: Seq<String>, values: Seq<serde_json::Value>) -> Seq<
    (Seq<char>, Json),
> {
    Seq::new(values.len(), |i: int| (keys[i]@, json_form(values[i])))
}

/// The variants of `serde_json::Value` hold the parts of a value;
/// `serde_json::Number` is written in a way that tells it from every other
/// number, its `as_u64` gives one that is a `u64`, and iterating a
/// `serde_json::Map` gives its entries.
#[verifier::external_body]
pub(crate) fn open_json(v: &serde_json::Value) -> (r: Opened)
    ensures
        opened_form(r) == json_form(*v),
        r matches Opened::Object(keys, values) ==> keys@.len() == values@.len(),
{
    match v.clone() {
        serde_json::Value::Null => Opened::Null,
        serde_json::Value::Bool(b) => Opened::Flag(b),
        serde_json::Value::Number(n) => Opened::Number(n.to_string(), n.as_u64()),
        serde_json::Value::String(s) => Opened::Text(s),
        serde_json::Value::Array(items) => Opened::List(items),
        serde_json::Value::Object(entries) => {
            let (keys, values) = entries.into_iter().unzip();
            Opened::Object(keys, values)
        },
    }
}

/// The value under `key`.
pub open spec fn entry(j: Json, key: Seq<char>) -> Option<Json> {
    match j {
        Json::Object(entries) => if exists|i: int|
            0 <= i < entries.len() && (#[trigger] entries[i]).0 == key {
            let i = choose|i: int| 0 <= i < entries.len() && (#[trigger] entries[i]).0 == key;
            Some(entries[i].1)
        } else {
            None
        },
        _ => None,
    }
}

/// The text under `key`.
pub open spec fn entry_text(j: Json, key: Seq<char>) -> Option<Seq<char>> {
    match entry(j, key) {
        Some(Json::Text(s)) => Some(s),
        _ => None,
    }
}

/// The number under `key`.
pub open spec fn entry_number(j: Json, key: Seq<char>) -> Option<u64> {
    match entry(j, key) {
        Some(Json::Number(_, n)) => n,
        _ => None,
    }
}

/// `serde_json::Value::get` finds the value of a key, and
/// `serde_json::Value::as_str` shows a text.
#[verifier::external_body]
pub(crate) fn text_under(v: &serde_json::Value, key: &str) -> (r: Option<String>)
    ensures
        match r {
            Some(s) => entry_text(json_form(*v), key@) == Some(s@),
            None => entry_text(json_form(*v), key@) is None,
        },
{
    match v.get(key) {
        Some(found) => found.as_str().map(|s| s.to_owned()),
        None => None,
    }
}

/// `serde_json::Value::get` finds the value of a key, and
/// `serde_json::Value::as_u64` shows a number that is a `u64`.
#[verifier::external_body]
pub(crate) fn number_under(v: &serde_json::Value, key: &str) -> (r: Option<u64>)
    ensures
        r == entry_number(json_form(*v), key@),
{
    match v.get(key) {
        Some(found) => found.as_u64(),
        None => None,
    }
}

/// `serde_json::Value::get` finds the value of a key.
#[verifier::external_body]
pub(crate) fn value_under(v: &serde_json::Value, key: &str) -> (r: Option<serde_json::Value>)
    ensures
        match r {
            Some(found) => entry(json_form(*v), key@) == Some(json_form(found)),
            None => entry(json_form(*v), key@) is None,
        },
{
    v.get(key).cloned()
}

/// How many entries the objects within `j` have, `j` itself counted in.
pub open spec fn entry_total(j: Json) -> nat
    decreases j, 0nat,
{
    match j {
        Json::List(items) => item_total(items, items.len()),
        Json::Object(entries) => entries.len() + value_total(entries, entries.len()),
        _ => 0,
    }
}

/// The entries within the first `n` items.
pub open spec fn item_total(items: Seq<Json>, n: nat) -> nat
    decreases items, n,
{
    if n == 0 || n > items.len() {
        0
    } else {
        item_total(items, (n - 1) as nat) + entry_total(items[n - 1])
    }
}

/// The entries within the values of the first `n` entries.
pub open spec fn value_total(entries: Seq<(Seq<char>, Json)>, n: nat) -> nat
    decreases entries, n,
{
    if n == 0 || n > entries.len() {
        0
    } else {
        value_total(entries, (n - 1) as nat) + entry_total(entries[n - 1].1)
    }
}

/// Where a reader of a JSON text stands.
#[derive(Clone, Copy, PartialEq, Eq, Structural)]
pub enum Reading {
    Outside,
    /// Within a text.
    Within,
    /// Within a text, behind a backslash.
    Escaped,
}

/// Where a reader stands behind the first `n` characters.
pub open spec fn reading(s: Seq<char>, n: nat) -> Reading
    decreases n,
{
    if n == 0 {
        Reading::Outside
    } else {
        match reading(s, (n - 1) as nat) {
            Reading::Outside => if s[n - 1] == '"' {
                Reading::Within
            } else {
                Reading::Outside
            },
            Reading::Within => if s[n - 1] == '"' {
                Reading::Outside
            } else if s[n - 1] == '\\' {
                Reading::Escaped
            } else {
                Reading::Within
            },
            Reading::Escaped => Reading::Within,
        }
    }
}

/// How many of the first `n` characters are colons outside texts: in a JSON
/// text, one for each entry that is written.
pub open spec fn colons(s: Seq<char>, n: nat) -> nat
    decreases n,
{
    if n == 0 {
        0
    } else {
        colons(s, (n - 1) as nat) + if s[n - 1] == ':' && reading(s, (n - 1) as nat)
            == Reading::Outside {
            1nat
        } else {
            0
        }
    }
}

/// Every entry that the text of `j` writes is there: no object of it has a key
/// twice.
pub open spec fn keys_differ(text: Seq<char>, j: Json) -> bool {
    colons(text, text.len()) == entry_total(j)
}

fn count_colons(text: &str) -> (r: usize)
    ensures
        r == colons(text@, text@.len()),
{
    let s = to_chars(text);
    let mut state = Reading::Outside;
    let mut count: usize = 0;
    for i in 0..s.len()
        invariant
            s@ == text@,
            state == reading(s@, i as nat),
            count == colons(s@, i as nat),
            count <= i,
    {
        let c: char = s[i];
        match state {
            Reading::Outside => {
                if c == ':' {
                    count = count + 1;
                }
                if c == '"' {
                    state = Reading::Within;
                }
            },
            Reading::Within => {
                if c == '"' {
                    state = Reading::Outside;
                } else if c == '\\' {
                    state = Reading::Escaped;
                }
            },
            Reading::Escaped => {
                state = Reading::Within;
            },
        }
    }
    count
}

/// The number of entries within a value, where it is at most `limit`.
fn count_entries(v: &serde_json::Value, limit: usize) -> (r: Option<usize>)
    ensures
        match r {
            Some(n) => n == entry_total(json_form(*v)) && n <= limit,
            None => entry_total(json_form(*v)) > limit,
        },
    decreases json_form(*v),
{
    match open_json(v) {
        Opened::List(items) => {
            let ghost views = forms(items@);
            let mut count: usize = 0;
            for i in 0..items.len()
                invariant
                    views == forms(items@),
                    json_form(*v) == Json::List(views),
                    count == item_total(views, i as nat),
                    count <= limit,
            {
                assert(views[i as int] == json_form(items@[i as int]));
                assert(decreases_to!(json_form(*v) => json_form(*v)->List_0[i as int]));
                proof {
                    lemma_item_total(views, (i + 1) as nat, views.len());
                    lemma_totals(json_form(*v));
                    lemma_item_total_step(views, (i + 1) as nat);
                }
                match count_entries(&items[i], limit - count) {
                    Some(more) => {
                        count = count + more;
                    },
                    None => {
                        return None;
                    },
                }
            }
            proof {
                lemma_totals(json_form(*v));
            }
            Some(count)
        },
        Opened::Object(keys, values) => {
            let ghost entries = entry_forms(keys@, values@);
            proof {
                lemma_totals(json_form(*v));
            }
            let mut count: usize = keys.len();
            if count > limit {
                return None;
            }
            for i in 0..values.len()
                invariant
                    keys@.len() == values@.len(),
                    entries == entry_forms(keys@, values@),
                    json_form(*v) == Json::Object(entries),
                    count == entries.len() + value_total(entries, i as nat),
                    count <= limit,
            {
                assert(entries[i as int].1 == json_form(values@[i as int]));
                assert(decreases_to!(json_form(*v) => json_form(*v)->Object_0[i as int]));
                proof {
                    lemma_value_total(entries, (i + 1) as nat, entries.len());
                    lemma_totals(json_form(*v));
                    lemma_value_total_step(entries, (i + 1) as nat);
                }
                match count_entries(&values[i], limit - count) {
                    Some(more) => {
                        count = count + more;
                    },
                    None => {
                        return None;
                    },
                }
            }
            Some(count)
        },
        _ => {
            proof {
                lemma_totals(json_form(*v));
            }
            Some(0)
        },
    }
}

proof fn lemma_totals(j: Json)
    ensures
        entry_total(j) == match j {
            Json::List(items) => item_total(items, items.len()),
            Json::Object(entries) => entries.len() + value_total(entries, entries.len()),
            _ => 0,
        },
{
    reveal_with_fuel(entry_total, 2);
}

proof fn lemma_item_total_step(items: Seq<Json>, n: nat)
    requires
        0 < n <= items.len(),
    ensures
        item_total(items, n) == item_total(items, (n - 1) as nat) + entry_total(items[n - 1]),
{
    reveal_with_fuel(item_total, 2);
}

proof fn lemma_value_total_step(entries: Seq<(Seq<char>, Json)>, n: nat)
    requires
        0 < n <= entries.len(),
    ensures
        value_total(entries, n) == value_total(entries, (n - 1) as nat) + entry_total(
            entries[n - 1].1,
        ),
{
    reveal_with_fuel(value_total, 2);
}

proof fn lemma_item_total(items: Seq<Json>, a: nat, b: nat)
    requires
        a <= b <= items.len(),
    ensures
        item_total(items, a) <= item_total(items, b),
    decreases b - a,
{
    if a < b {
        lemma_item_total(items, a, (b - 1) as nat);
        lemma_item_total_step(items, b);
    }
}

proof fn lemma_value_total(entries: Seq<(Seq<char>, Json)>, a: nat, b: nat)
    requires
        a <= b <= entries.len(),
    ensures
        value_total(entries, a) <= value_total(entries, b),
    decreases b - a,
{
    if a < b {
        lemma_value_total(entries, a, (b - 1) as nat);
        lemma_value_total_step(entries, b);
    }
}

/// Whether no object of a text has a key twice, where the text holds `v`.
pub(crate) fn check_keys(text: &str, v: &serde_json::Value) -> (r: bool)
    ensures
        r == keys_differ(text@, json_form(*v)),
{
    let written: usize = count_colons(text);
    match count_entries(v, written) {
        Some(kept) => kept == written,
        None => false,
    }
}

/// The parts of a pre-tokenizer that a survey looks for.
#[derive(Clone, Copy, PartialEq, Eq, Structural)]
pub enum Part {
    /// It cuts into pieces of no length.
    ZeroLength,
    /// It writes bytes as characters.
    ByteLevel,
    /// It splits at a regular expression that moves the start of its matches.
    KeepOut,
}

/// A regular expression that moves the start of its matches, with `\K`.
pub open spec fn keeps_out(s: Seq<char>) -> bool {
    exists|i: int| 0 <= i < s.len() - 1 && #[trigger] s[i] == '\\' && s[i + 1] == 'K'
}

/// Whether a regular expression moves the start of its matches.
pub(crate) fn find_keep_out(text: &str) -> (r: bool)
    ensures
        r == keeps_out(text@),
{
    let s = to_chars(text);
    let n: usize = s.len();
    if n == 0 {
        return false;
    }
    for i in 0..n - 1
        invariant
            s@ == text@,
            n == s@.len(),
            n > 0,
            forall|k: int| 0 <= k < i ==> !(#[trigger] s@[k] == '\\' && s@[k + 1] == 'K'),
    {
        if s[i] == '\\' && s[i + 1] == 'K' {
            assert(text@[i as int] == '\\' && text@[i + 1] == 'K');
            return true;
        }
    }
    false
}

/// `j` itself is such a part.
pub open spec fn is_part(j: Json, part: Part) -> bool {
    match part {
        Part::ZeroLength => entry_text(j, "type"@) == Some("FixedLength"@) && entry_number(
            j,
            "length"@,
        ) == Some(0u64),
        Part::ByteLevel => entry_text(j, "type"@) == Some("ByteLevel"@),
        Part::KeepOut => match entry_text(j, "Regex"@) {
            Some(s) => keeps_out(s),
            None => false,
        },
    }
}

/// `j` is such a part, or one stands within it.
pub open spec fn has_part(j: Json, part: Part) -> bool
    decreases j,
{
    is_part(j, part) || match j {
        Json::List(items) => exists|i: int|
            0 <= i < items.len() && has_part(#[trigger] items[i], part),
        Json::Object(entries) => exists|i: int|
            0 <= i < entries.len() && has_part((#[trigger] entries[i]).1, part),
        _ => false,
    }
}

pub(crate) fn is_text(found: &Option<String>, wanted: &str) -> (r: bool)
    ensures
        r == (match *found {
            Some(s) => Some(s@),
            None => None::<Seq<char>>,
        } == Some(wanted@)),
{
    match found {
        Some(s) => {
            let a = to_chars(s);
            let b = to_chars(wanted);
            same_chars(&a, &b)
        },
        None => false,
    }
}

fn check_part(v: &serde_json::Value, part: Part) -> (r: bool)
    ensures
        r == is_part(json_form(*v), part),
{
    match part {
        Part::ZeroLength => is_text(&text_under(v, "type"), "FixedLength") && number_under(
            v,
            "length",
        ) == Some(0u64),
        Part::ByteLevel => is_text(&text_under(v, "type"), "ByteLevel"),
        Part::KeepOut => match text_under(v, "Regex") {
            Some(s) => find_keep_out(&s),
            None => false,
        },
    }
}

/// The values right within a value.
pub open spec fn children(j: Json) -> Seq<Json> {
    match j {
        Json::List(items) => items,
        Json::Object(entries) => entries.map_values(|e: (Seq<char>, Json)| e.1),
        _ => Seq::empty(),
    }
}

fn child_values(v: &serde_json::Value) -> (r: Vec<serde_json::Value>)
    ensures
        forms(r@) == children(json_form(*v)),
{
    match open_json(v) {
        Opened::List(items) => items,
        Opened::Object(_, values) => {
            assert(forms(values@) =~= children(json_form(*v)));
            values
        },
        _ => {
            let none: Vec<serde_json::Value> = Vec::new();
            assert(forms(none@) =~= children(json_form(*v)));
            none
        },
    }
}

proof fn lemma_children(j: Json, part: Part)
    ensures
        has_part(j, part) <==> is_part(j, part) || exists|i: int|
            0 <= i < children(j).len() && has_part(#[trigger] children(j)[i], part),
        forall|i: int| 0 <= i < children(j).len() ==> decreases_to!(j => #[trigger] children(j)[i]),
{
    match j {
        Json::List(items) => {
            if has_part(j, part) && !is_part(j, part) {
                let i = choose|i: int| 0 <= i < items.len() && has_part(#[trigger] items[i], part);
                assert(0 <= i < children(j).len() && has_part(children(j)[i], part));
            }
        },
        Json::Object(entries) => {
            let c = children(j);
            assert(c.len() == entries.len());
            assert(forall|i: int| 0 <= i < entries.len() ==> c[i] == (#[trigger] entries[i]).1);
            assert(forall|i: int| 0 <= i < entries.len() ==> #[trigger] c[i] == entries[i].1);
            if has_part(j, part) && !is_part(j, part) {
                let i = choose|i: int|
                    0 <= i < entries.len() && has_part((#[trigger] entries[i]).1, part);
                assert(0 <= i < children(j).len() && has_part(children(j)[i], part));
            }
            if exists|i: int| 0 <= i < c.len() && has_part(#[trigger] c[i], part) {
                let i = choose|i: int| 0 <= i < c.len() && has_part(#[trigger] c[i], part);
                assert(0 <= i < entries.len() && has_part(entries[i].1, part));
                assert(has_part(j, part));
            }
        },
        _ => {},
    }
}

/// Whether a value is such a part, or one stands within it.
pub(crate) fn find_part(v: &serde_json::Value, part: Part) -> (r: bool)
    ensures
        r == has_part(json_form(*v), part),
    decreases json_form(*v),
{
    proof {
        lemma_children(json_form(*v), part);
    }
    if check_part(v, part) {
        return true;
    }
    let inner = child_values(v);
    let ghost views = children(json_form(*v));
    for i in 0..inner.len()
        invariant
            views == forms(inner@),
            views == children(json_form(*v)),
            forall|k: int|
                0 <= k < views.len() ==> decreases_to!(json_form(*v) => #[trigger] views[k]),
            forall|k: int| 0 <= k < i ==> !has_part(#[trigger] views[k], part),
            has_part(json_form(*v), part) <==> is_part(json_form(*v), part) || exists|k: int|
                0 <= k < views.len() && has_part(#[trigger] views[k], part),
    {
        assert(views[i as int] == json_form(inner@[i as int]));
        if find_part(&inner[i], part) {
            return true;
        }
    }
    false
}

} // verus!
