//! Normalizers of tokenizers, by their descriptions: which of them can be used
//! on every text.

use vstd::prelude::*;

use crate::charmap::{charmap_usable, check_charmap};
use crate::chars::to_chars;
use crate::json::{entry, entry_text, find_keep_out, forms, is_text, json_form, keeps_out, open_json};
use crate::json::{text_under, value_under, Json, Opened};

verus! {

/// At `i` nothing can be left out or repeated no times.
pub open spec fn binding_at(s: Seq<char>, i: int) -> bool {
    s[i] != '*' && s[i] != '?' && (s[i] == '{' ==> i + 1 < s.len() && '1' <= s[i + 1] && s[i + 1]
        <= '9')
}

/// A letter that stands for a character behind a backslash.
pub open spec fn class_letter(c: char) -> bool {
    c == 's' || c == 'S' || c == 'd' || c == 'D' || c == 'w' || c == 'W' || c == 'n' || c == 'r'
        || c == 't'
}

/// What starts at `i` matches a character, or is a group of such.
pub open spec fn starts_at(s: Seq<char>, i: int) -> bool {
    &&& i < s.len()
    &&& s[i] != '^' && s[i] != '$' && s[i] != ')' && s[i] != '*' && s[i] != '+' && s[i] != '?'
    &&& s[i] != '{' && s[i] != '|'
    &&& s[i] == '\\' ==> i + 1 < s.len() && class_letter(s[i + 1])
}

/// A regular expression that shows by its form that it matches no empty text:
/// every way through it starts with a character, and nothing can be left out.
pub open spec fn takes_text(s: Seq<char>) -> bool {
    &&& starts_at(s, 0)
    &&& forall|i: int| 0 <= i < s.len() ==> #[trigger] sound_at(s, i)
}

/// At `i` nothing can be left out, and what is opened there starts with a
/// character.
pub open spec fn sound_at(s: Seq<char>, i: int) -> bool {
    binding_at(s, i) && ((s[i] == '(' || s[i] == '|') ==> starts_at(s, i + 1))
}

fn check_start(s: &Vec<char>, i: usize) -> (r: bool)
    requires
        i <= s@.len(),
    ensures
        r == starts_at(s@, i as int),
{
    if i >= s.len() {
        return false;
    }
    let c: char = s[i];
    if c == '^' || c == '$' || c == ')' || c == '*' || c == '+' || c == '?' || c == '{' || c
        == '|' {
        return false;
    }
    if c == '\\' {
        if i + 1 >= s.len() {
            return false;
        }
        let d: char = s[i + 1];
        return d == 's' || d == 'S' || d == 'd' || d == 'D' || d == 'w' || d == 'W' || d == 'n'
            || d == 'r' || d == 't';
    }
    true
}

/// Whether a regular expression shows that it matches no empty text.
pub fn expression_takes_text(text: &str) -> (r: bool)
    ensures
        r == takes_text(text@),
{
    let s = to_chars(text);
    let n: usize = s.len();
    if !check_start(&s, 0) {
        return false;
    }
    for i in 0..n
        invariant
            n == s@.len(),
            s@ == text@,
            starts_at(s@, 0),
            forall|k: int| 0 <= k < i ==> #[trigger] sound_at(s@, k),
    {
        let c: char = s[i];
        let binding = c != '*' && c != '?' && (c != '{' || (i + 1 < n && '1' <= s[i + 1] && s[i
            + 1] <= '9'));
        let opens = c == '(' || c == '|';
        if !binding || (opens && !check_start(&s, i + 1)) {
            assert(!sound_at(s@, i as int));
            return false;
        }
    }
    true
}

/// Whether a normalizer has written in front of the first character, behind one
/// that replaces a pattern; nothing, where the pattern cannot be used.
pub open spec fn after_replacing(pattern: Json, inserted: bool) -> Option<bool> {
    match (entry_text(pattern, "String"@), entry_text(pattern, "Regex"@)) {
        (Some(s), _) => Some(inserted || s.len() == 0),
        (None, Some(s)) => if keeps_out(s) {
            None
        } else {
            Some(inserted || !takes_text(s))
        },
        (None, None) => Some(inserted),
    }
}

/// The same behind a normalizer that goes through all characters: it needs to
/// find the place of each in the text, and what was written in front has none.
pub open spec fn after_mapping(inserted: bool) -> Option<bool> {
    if inserted {
        None
    } else {
        Some(false)
    }
}

/// One of the keys by which normalizers are told apart that have no type.
pub open spec fn has_telling_key(j: Json) -> bool {
    entry(j, "normalizers"@) is Some || entry(j, "pattern"@) is Some || entry(j, "prepend"@) is Some
        || entry(j, "precompiled_charsmap"@) is Some
}

/// The normalizers of a sequence.
pub open spec fn sequence_items(j: Json) -> Option<Seq<Json>> {
    match (entry_text(j, "type"@), entry(j, "normalizers"@)) {
        (Some(kind), Some(Json::List(items))) => if kind == "Sequence"@ {
            Some(items)
        } else {
            None
        },
        _ => None,
    }
}

/// What a normalizer that is no sequence does to the front of a text. One that
/// is neither an object nor a list may be read as one without parameters.
pub open spec fn single_run(j: Json, inserted: bool) -> Option<bool> {
    match j {
        Json::List(_) => None,
        Json::Object(_) => match entry(j, "type"@) {
            Some(Json::Text(kind)) => if kind == "Sequence"@ {
                Some(inserted)
            } else if kind == "Replace"@ {
                match entry(j, "pattern"@) {
                    Some(pattern) => after_replacing(pattern, inserted),
                    None => Some(inserted),
                }
            } else if kind == "Prepend"@ {
                match entry_text(j, "prepend"@) {
                    Some(front) => Some(inserted || front.len() == 0),
                    None => Some(inserted),
                }
            } else if kind == "Precompiled"@ {
                match entry_text(j, "precompiled_charsmap"@) {
                    Some(map) => if charmap_usable(map) {
                        after_mapping(inserted)
                    } else {
                        None
                    },
                    None => None,
                }
            } else if has_telling_key(j) {
                None
            } else {
                after_mapping(inserted)
            },
            Some(_) => None,
            None => if has_telling_key(j) {
                None
            } else {
                after_mapping(inserted)
            },
        },
        _ => after_mapping(inserted),
    }
}

/// What a normalizer does to the front of a text: whether something has been
/// written in front of the first character behind it, where `inserted` says
/// whether that was so before it. Nothing, where the normalizer cannot be used:
/// - it goes through the characters behind what was written in front of them;
/// - it has a character map that leads out of itself;
/// - it moves the start of what it replaces;
/// - its description is a list, or tells its type in another way than by name.
pub open spec fn normalizer_run(j: Json, inserted: bool) -> Option<bool>
    decreases j, 0nat,
{
    match sequence_items(j) {
        Some(items) => normalizers_run(items, items.len(), inserted),
        None => single_run(j, inserted),
    }
}

/// The same of the first `n` normalizers, one behind the other.
pub open spec fn normalizers_run(items: Seq<Json>, n: nat, inserted: bool) -> Option<bool>
    decreases items, n,
{
    if n == 0 || n > items.len() {
        Some(inserted)
    } else {
        match normalizers_run(items, (n - 1) as nat, inserted) {
            Some(before) => normalizer_run(items[n - 1], before),
            None => None,
        }
    }
}

proof fn lemma_run(j: Json, inserted: bool)
    ensures
        normalizer_run(j, inserted) == match sequence_items(j) {
            Some(items) => normalizers_run(items, items.len(), inserted),
            None => single_run(j, inserted),
        },
{
    reveal_with_fuel(normalizer_run, 2);
}

proof fn lemma_runs(items: Seq<Json>, n: nat, inserted: bool)
    requires
        0 < n <= items.len(),
    ensures
        normalizers_run(items, n, inserted) == match normalizers_run(
            items,
            (n - 1) as nat,
            inserted,
        ) {
            Some(before) => normalizer_run(items[n - 1], before),
            None => None,
        },
        normalizers_run(items, 0, inserted) == Some(inserted),
{
    reveal_with_fuel(normalizers_run, 2);
}

/// Where the first normalizers cannot be used, all of them cannot.
proof fn lemma_runs_stop(items: Seq<Json>, n: nat, inserted: bool)
    requires
        n <= items.len(),
        normalizers_run(items, n, inserted) is None,
    ensures
        normalizers_run(items, items.len(), inserted) is None,
    decreases items.len() - n,
{
    if n < items.len() {
        lemma_runs(items, n + 1, inserted);
        lemma_runs_stop(items, n + 1, inserted);
    }
}

fn map_all(inserted: bool) -> (r: Option<bool>)
    ensures
        r == after_mapping(inserted),
{
    if inserted {
        None
    } else {
        Some(false)
    }
}

fn replace_all(pattern: &serde_json::Value, inserted: bool) -> (r: Option<bool>)
    ensures
        r == after_replacing(json_form(*pattern), inserted),
{
    match text_under(pattern, "String") {
        Some(s) => Some(inserted || to_chars(&s).len() == 0),
        None => match text_under(pattern, "Regex") {
            Some(s) => {
                if find_keep_out(&s) {
                    None
                } else {
                    Some(inserted || !expression_takes_text(&s))
                }
            },
            None => Some(inserted),
        },
    }
}

fn find_telling_key(v: &serde_json::Value) -> (r: bool)
    ensures
        r == has_telling_key(json_form(*v)),
{
    value_under(v, "normalizers").is_some() || value_under(v, "pattern").is_some() || value_under(
        v,
        "prepend",
    ).is_some() || value_under(v, "precompiled_charsmap").is_some()
}

/// What a normalizer does to the front of a text, and whether it can be used.
pub(crate) fn run_normalizer(v: &serde_json::Value, inserted: bool) -> (r: Option<bool>)
    ensures
        r == normalizer_run(json_form(*v), inserted),
    decreases json_form(*v),
{
    proof {
        lemma_run(json_form(*v), inserted);
    }
    match open_json(v) {
        Opened::List(_) => None,
        Opened::Object(_, _) => {
            let kind = match value_under(v, "type") {
                Some(found) => match open_json(&found) {
                    Opened::Text(kind) => Some(kind),
                    _ => {
                        return None;
                    },
                },
                None => None,
            };
            if is_text(&kind, "Sequence") {
                match value_under(v, "normalizers") {
                    Some(inner) => match open_json(&inner) {
                        Opened::List(items) => {
                            let ghost views = forms(items@);
                            let mut state: bool = inserted;
                            proof {
                                if items@.len() > 0 {
                                    lemma_runs(views, 1, inserted);
                                }
                            }
                            for i in 0..items.len()
                                invariant
                                    views == forms(items@),
                                    decreases_to!(json_form(*v) => views),
                                    normalizer_run(json_form(*v), inserted) == normalizers_run(
                                        views,
                                        views.len(),
                                        inserted,
                                    ),
                                    normalizers_run(views, i as nat, inserted) == Some(state),
                            {
                                assert(views[i as int] == json_form(items@[i as int]));
                                assert(decreases_to!(views => views[i as int]));
                                proof {
                                    lemma_runs(views, (i + 1) as nat, inserted);
                                }
                                match run_normalizer(&items[i], state) {
                                    Some(next) => {
                                        state = next;
                                    },
                                    None => {
                                        proof {
                                            lemma_runs_stop(views, (i + 1) as nat, inserted);
                                        }
                                        return None;
                                    },
                                }
                            }
                            Some(state)
                        },
                        _ => Some(inserted),
                    },
                    None => Some(inserted),
                }
            } else if is_text(&kind, "Replace") {
                match value_under(v, "pattern") {
                    Some(pattern) => replace_all(&pattern, inserted),
                    None => Some(inserted),
                }
            } else if is_text(&kind, "Prepend") {
                match text_under(v, "prepend") {
                    Some(front) => Some(inserted || to_chars(&front).len() == 0),
                    None => Some(inserted),
                }
            } else if is_text(&kind, "Precompiled") {
                match text_under(v, "precompiled_charsmap") {
                    Some(map) => {
                        if check_charmap(&map) {
                            map_all(inserted)
                        } else {
                            None
                        }
                    },
                    None => None,
                }
            } else if find_telling_key(v) {
                None
            } else {
                map_all(inserted)
            }
        },
        _ => map_all(inserted),
    }
}

/// An expression that matches no empty text may be put in a group, and beside
/// another one; what can be left out, or leaves one side of a choice empty, does
/// not show that it matches none.
pub proof fn law_groups_and_choices_take_text(a: Seq<char>, b: Seq<char>)
    requires
        takes_text(a),
        takes_text(b),
    ensures
        takes_text(seq!['('] + a + seq![')']),
        takes_text(a + seq!['|'] + b),
        !takes_text(a + seq!['|']),
        !takes_text(a + seq!['*']),
        !takes_text(a + seq!['?'] + b),
        !takes_text(Seq::empty()),
        !takes_text(seq!['^'] + a),
{
    let g = seq!['('] + a + seq![')'];
    assert(g[0] == '(');
    assert forall|i: int| 0 <= i < g.len() implies #[trigger] sound_at(g, i) by {
        if i == 0 {
            assert(g[1] == a[0]);
            if a[0] == '\\' {
                assert(g[2] == a[1]);
            }
        } else if i <= a.len() {
            assert(g[i] == a[i - 1]);
            assert(sound_at(a, i - 1));
            if i + 1 < g.len() - 1 {
                assert(g[i + 1] == a[i]);
                if i + 2 < g.len() - 1 {
                    assert(g[i + 2] == a[i + 1]);
                }
            }
        }
    }
    let c = a + seq!['|'] + b;
    let n = a.len() as int;
    assert(c[0] == a[0]);
    if a[0] == '\\' {
        assert(c[1] == a[1]);
    }
    assert forall|i: int| 0 <= i < c.len() implies #[trigger] sound_at(c, i) by {
        if i < n {
            assert(c[i] == a[i]);
            assert(sound_at(a, i));
            if i + 1 < n {
                assert(c[i + 1] == a[i + 1]);
                if i + 2 < n {
                    assert(c[i + 2] == a[i + 2]);
                }
            }
        } else if i == n {
            assert(c[n + 1] == b[0]);
            if b[0] == '\\' {
                assert(c[n + 2] == b[1]);
            }
        } else {
            let k = i - n - 1;
            assert(c[i] == b[k]);
            assert(sound_at(b, k));
            if k + 1 < b.len() {
                assert(c[i + 1] == b[k + 1]);
                if k + 2 < b.len() {
                    assert(c[i + 2] == b[k + 2]);
                }
            }
        }
    }
    let d = a + seq!['|'];
    assert(d[n] == '|' && !sound_at(d, n));
    let e = a + seq!['*'];
    assert(e[n] == '*' && !sound_at(e, n));
    let f = a + seq!['?'] + b;
    assert(f[n] == '?' && !sound_at(f, n));
    assert((seq!['^'] + a)[0] == '^');
}

} // verus!
