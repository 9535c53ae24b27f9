//! Post-processors of tokenizers, by their descriptions: which of them can be
//! used on the tokens of one text.

use vstd::prelude::*;

use crate::json::{entry, entry_text, forms, is_text, json_form, open_json, text_under, value_under};
use crate::json::{Json, Opened};

verus! {

/// A piece of a template that stands for the second sequence.
pub open spec fn names_second(piece: Json) -> bool {
    match entry(piece, "Sequence"@) {
        Some(sequence) => entry_text(sequence, "id"@) == Some("B"@),
        None => false,
    }
}

pub open spec fn some_names_second(pieces: Seq<Json>) -> bool {
    exists|i: int| 0 <= i < pieces.len() && names_second(#[trigger] pieces[i])
}

/// How many of the first `n` pieces stand for a sequence.
pub open spec fn sequence_count(pieces: Seq<Json>, n: nat) -> nat
    decreases n,
{
    if n == 0 {
        0
    } else {
        sequence_count(pieces, (n - 1) as nat) + if entry(pieces[n - 1], "Sequence"@) is Some {
            1nat
        } else {
            0
        }
    }
}

/// How many sequences a template makes of `n`: there is one for one sequence,
/// which cannot name a second, and one for two. Nothing, where there is none.
pub open spec fn template_run(j: Json, n: nat) -> Option<nat> {
    if n == 1 {
        match entry(j, "single"@) {
            Some(Json::List(pieces)) => if some_names_second(pieces) {
                None
            } else {
                Some(sequence_count(pieces, pieces.len()))
            },
            _ => None,
        }
    } else if n == 2 {
        match entry(j, "pair"@) {
            Some(Json::List(pieces)) => Some(sequence_count(pieces, pieces.len())),
            _ => None,
        }
    } else {
        None
    }
}

/// The post-processors of a sequence.
pub open spec fn chain_items(j: Json) -> Option<Seq<Json>> {
    match (entry_text(j, "type"@), entry(j, "processors"@)) {
        (Some(kind), Some(Json::List(items))) => if kind == "Sequence"@ {
            Some(items)
        } else {
            None
        },
        _ => None,
    }
}

/// How many sequences a post-processor makes of `n`, without special tokens.
/// Nothing, where it cannot be used.
pub open spec fn post_run(j: Json, n: nat) -> Option<nat>
    decreases j, 0nat,
{
    match chain_items(j) {
        Some(items) => posts_run(items, items.len(), n),
        None => if entry_text(j, "type"@) == Some("TemplateProcessing"@) {
            template_run(j, n)
        } else {
            Some(n)
        },
    }
}

/// The same of the first `k` post-processors, one behind the other.
pub open spec fn posts_run(items: Seq<Json>, k: nat, n: nat) -> Option<nat>
    decreases items, k,
{
    if k == 0 || k > items.len() {
        Some(n)
    } else {
        match posts_run(items, (k - 1) as nat, n) {
            Some(m) => post_run(items[k - 1], m),
            None => None,
        }
    }
}

/// A post-processor that is a template, or has one within it.
pub open spec fn has_template(j: Json) -> bool
    decreases j,
{
    match chain_items(j) {
        Some(items) => exists|i: int| 0 <= i < items.len() && has_template(#[trigger] items[i]),
        None => entry_text(j, "type"@) == Some("TemplateProcessing"@),
    }
}

proof fn lemma_run(j: Json, n: nat)
    ensures
        post_run(j, n) == match chain_items(j) {
            Some(items) => posts_run(items, items.len(), n),
            None => if entry_text(j, "type"@) == Some("TemplateProcessing"@) {
                template_run(j, n)
            } else {
                Some(n)
            },
        },
{
    reveal_with_fuel(post_run, 2);
}

proof fn lemma_runs(items: Seq<Json>, k: nat, n: nat)
    requires
        0 < k <= items.len(),
    ensures
        posts_run(items, k, n) == match posts_run(items, (k - 1) as nat, n) {
            Some(m) => post_run(items[k - 1], m),
            None => None,
        },
{
    reveal_with_fuel(posts_run, 2);
}

/// Where the first post-processors cannot be used, all of them cannot.
proof fn lemma_runs_stop(items: Seq<Json>, k: nat, n: nat)
    requires
        k <= items.len(),
        posts_run(items, k, n) is None,
    ensures
        posts_run(items, items.len(), n) is None,
    decreases items.len() - k,
{
    if k < items.len() {
        lemma_runs(items, k + 1, n);
        lemma_runs_stop(items, k + 1, n);
    }
}

fn piece_names_second(piece: &serde_json::Value) -> (r: bool)
    ensures
        r == names_second(json_form(*piece)),
{
    match value_under(piece, "Sequence") {
        Some(sequence) => is_text(&text_under(&sequence, "id"), "B"),
        None => false,
    }
}

/// How many pieces stand for a sequence, and whether one names the second.
fn survey_pieces(pieces: &Vec<serde_json::Value>) -> (r: (usize, bool))
    ensures
        r.0 == sequence_count(forms(pieces@), pieces@.len()),
        r.1 == some_names_second(forms(pieces@)),
{
    let ghost views = forms(pieces@);
    let mut count: usize = 0;
    let mut second: bool = false;
    for i in 0..pieces.len()
        invariant
            views == forms(pieces@),
            count == sequence_count(views, i as nat),
            count <= i,
            second == exists|k: int| 0 <= k < i && names_second(#[trigger] views[k]),
    {
        assert(views[i as int] == json_form(pieces@[i as int]));
        let here = piece_names_second(&pieces[i]);
        if value_under(&pieces[i], "Sequence").is_some() {
            count = count + 1;
        }
        second = second || here;
    }
    (count, second)
}

fn run_template(v: &serde_json::Value, n: usize) -> (r: Option<usize>)
    ensures
        match r {
            Some(m) => template_run(json_form(*v), n as nat) == Some(m as nat),
            None => template_run(json_form(*v), n as nat) is None,
        },
{
    if n == 1 {
        match value_under(v, "single") {
            Some(template) => match open_json(&template) {
                Opened::List(pieces) => {
                    let (count, second) = survey_pieces(&pieces);
                    if second {
                        None
                    } else {
                        Some(count)
                    }
                },
                _ => None,
            },
            None => None,
        }
    } else if n == 2 {
        match value_under(v, "pair") {
            Some(template) => match open_json(&template) {
                Opened::List(pieces) => Some(survey_pieces(&pieces).0),
                _ => None,
            },
            None => None,
        }
    } else {
        None
    }
}

/// How many sequences a post-processor makes of `n`, where it can be used.
pub(crate) fn run_post(v: &serde_json::Value, n: usize) -> (r: Option<usize>)
    ensures
        match r {
            Some(m) => post_run(json_form(*v), n as nat) == Some(m as nat),
            None => post_run(json_form(*v), n as nat) is None,
        },
    decreases json_form(*v),
{
    proof {
        lemma_run(json_form(*v), n as nat);
    }
    let kind = text_under(v, "type");
    if is_text(&kind, "TemplateProcessing") {
        proof {
            reveal_strlit("Sequence");
            reveal_strlit("TemplateProcessing");
            assert("Sequence"@.len() != "TemplateProcessing"@.len());
        }
        return run_template(v, n);
    }
    if !is_text(&kind, "Sequence") {
        return Some(n);
    }
    match value_under(v, "processors") {
        Some(inner) => match open_json(&inner) {
            Opened::List(items) => {
                let ghost views = forms(items@);
                let mut state: usize = n;
                for i in 0..items.len()
                    invariant
                        views == forms(items@),
                        decreases_to!(json_form(*v) => views),
                        post_run(json_form(*v), n as nat) == posts_run(
                            views,
                            views.len(),
                            n as nat,
                        ),
                        posts_run(views, i as nat, n as nat) == Some(state as nat),
                {
                    assert(views[i as int] == json_form(items@[i as int]));
                    assert(decreases_to!(views => views[i as int]));
                    proof {
                        lemma_runs(views, (i + 1) as nat, n as nat);
                    }
                    match run_post(&items[i], state) {
                        Some(next) => {
                            state = next;
                        },
                        None => {
                            proof {
                                lemma_runs_stop(views, (i + 1) as nat, n as nat);
                            }
                            return None;
                        },
                    }
                }
                Some(state)
            },
            _ => Some(n),
        },
        None => Some(n),
    }
}

} // verus!
