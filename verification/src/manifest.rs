//! The constants of the model and the manifest that is shipped with it.

use vstd::prelude::*;

verus! {

pub const DIM: usize = 896;

pub const N_HEAD: usize = 14;

pub const N_LOCAL_HEADS: usize = 2;

pub const HEAD_DIM: usize = 64;

pub const INTERMEDIATE_SIZE: usize = 4864;

pub const N_LAYER: usize = 24;

pub const N_FAST_LAYER: usize = 4;

pub const FAST_DIM: usize = 896;

pub const CODEBOOK_SIZE: usize = 4096;

pub const NUM_CODEBOOKS: usize = 10;

pub const VOCAB_SIZE: usize = 155776;

pub const SLOW_LOGITS_SIZE: usize = 4097;

pub const MAX_SEQ_LEN: usize = 2048;

pub const SEMANTIC_BEGIN_ID: i64 = 151678;

pub const SEMANTIC_END_ID: i64 = 155773;

pub const IM_END_ID: i64 = 151645;

pub const SLOW_LOGITS_LAYOUT_SEMANTIC_THEN_EOS: bool = true;

/// The sizes and ids of a model export.
pub struct RuntimeManifest {
    pub max_seq_len: usize,
    pub num_layers: usize,
    pub num_fast_layers: usize,
    pub num_codebooks: usize,
    pub n_local_heads: usize,
    pub fast_n_local_heads: usize,
    pub head_dim: usize,
    pub fast_head_dim: usize,
    pub semantic_begin_id: i64,
    pub semantic_end_id: i64,
    pub im_end_id: i64,
    pub codebook_size: usize,
    pub codec_hop_length: usize,
    pub slow_logits_layout: Option<String>,
}

/// A JSON object of the `serde_json` crate.
#[verifier::external_type_specification]
#[verifier::external_body]
#[verifier::reject_recursive_types(K)]
#[verifier::reject_recursive_types(V)]
pub struct ExJsonMap<K, V>(serde_json::Map<K, V>);

/// A JSON value of the `serde_json` crate.
#[verifier::external_type_specification]
#[verifier::external_body]
pub struct ExJsonValue(serde_json::Value);

/// The keys of a JSON object, each with its value where that is an integer that
/// an `i64` can hold.
pub uninterp spec fn object_ints(object: serde_json::Map<String, serde_json::Value>) -> Map<
    Seq<char>,
    Option<i64>,
>;

/// The keys and integers of the JSON object that a text holds, if it holds
/// one.
pub uninterp spec fn parsed_object(text: Seq<char>) -> Option<Map<Seq<char>, Option<i64>>>;

/// `serde_json::from_str` reads a text that is a JSON object. The text of the
/// error is left open.
#[verifier::external_body]
fn parse_object(text: &str) -> (r: Result<serde_json::Map<String, serde_json::Value>, String>)
    ensures
        match r {
            Ok(object) => parsed_object(text@) == Some(object_ints(object)),
            Err(_) => parsed_object(text@) is None,
        },
{
    serde_json::from_str(text).map_err(|e| e.to_string())
}

/// `serde_json::Map::get` finds the value of a key, and
/// `serde_json::Value::as_i64` gives an integer that fits.
#[verifier::external_body]
fn object_int(object: &serde_json::Map<String, serde_json::Value>, key: &str) -> (r: Option<i64>)
    ensures
        r == known_int(object_ints(*object), key@),
{
    match object.get(key) {
        Some(value) => value.as_i64(),
        None => None,
    }
}

/// The integer under `key`, if there is one.
pub open spec fn known_int(ints: Map<Seq<char>, Option<i64>>, key: Seq<char>) -> Option<i64> {
    if ints.contains_key(key) {
        ints[key]
    } else {
        None
    }
}

/// Why a manifest does not fit the constants.
#[derive(Debug)]
pub enum ManifestError {
    /// The text is no JSON object.
    Parse(String),
    /// A value differs from the constant; a missing one counts as -1.
    Mismatch { key: String, got: i64, expect: i64 },
}

/// The keys that are checked, in this order, each with the constant that it
/// must equal.
pub open spec fn expected_ints() -> Seq<(Seq<char>, i64)> {
    seq![
        ("num_layers"@, N_LAYER as i64),
        ("num_fast_layers"@, N_FAST_LAYER as i64),
        ("num_codebooks"@, NUM_CODEBOOKS as i64),
        ("n_local_heads"@, N_LOCAL_HEADS as i64),
        ("head_dim"@, HEAD_DIM as i64),
        ("codebook_size"@, CODEBOOK_SIZE as i64),
        ("slow_logits_size"@, SLOW_LOGITS_SIZE as i64),
        ("vocab_size"@, VOCAB_SIZE as i64),
    ]
}

/// What a manifest says under `key`: -1 where it has no integer there.
pub open spec fn stated(ints: Map<Seq<char>, Option<i64>>, key: Seq<char>) -> i64 {
    match known_int(ints, key) {
        Some(v) => v,
        None => (-1) as i64,
    }
}

/// What a manifest says under the checked keys.
pub open spec fn stated_values(ints: Map<Seq<char>, Option<i64>>) -> Seq<i64> {
    expected_ints().map_values(|e: (Seq<char>, i64)| stated(ints, e.0))
}

/// The first position, from `from` on, at which a value is not the expected
/// one.
pub open spec fn first_mismatch(values: Seq<i64>, from: int) -> Option<int>
    decreases expected_ints().len() - from,
{
    if from < 0 || from >= expected_ints().len() {
        None
    } else if values[from] != expected_ints()[from].1 {
        Some(from)
    } else {
        first_mismatch(values, from + 1)
    }
}

/// `r` is the verdict on the values under the checked keys: the first mismatch
/// where there is one.
pub open spec fn is_verdict(r: Result<(), ManifestError>, values: Seq<i64>) -> bool {
    match first_mismatch(values, 0) {
        None => r is Ok,
        Some(i) => r matches Err(ManifestError::Mismatch { key, got, expect }) && key@
            == expected_ints()[i].0 && got == values[i] && expect == expected_ints()[i].1,
    }
}

fn expected() -> (r: Vec<(&'static str, i64)>)
    ensures
        r@.len() == expected_ints().len(),
        forall|i: int|
            #![trigger r@[i]]
            0 <= i < r@.len() ==> r@[i].0@ == expected_ints()[i].0 && r@[i].1
                == expected_ints()[i].1,
{
    vec![
        ("num_layers", N_LAYER as i64),
        ("num_fast_layers", N_FAST_LAYER as i64),
        ("num_codebooks", NUM_CODEBOOKS as i64),
        ("n_local_heads", N_LOCAL_HEADS as i64),
        ("head_dim", HEAD_DIM as i64),
        ("codebook_size", CODEBOOK_SIZE as i64),
        ("slow_logits_size", SLOW_LOGITS_SIZE as i64),
        ("vocab_size", VOCAB_SIZE as i64),
    ]
}

/// Checks the constants against the manifest of a model.
pub struct ManifestCheck;

impl ManifestCheck {
    /// The verdict on the values that a manifest has under the checked keys, in
    /// the order of `expected_ints`.
    pub fn check_values(values: &Vec<i64>) -> (r: Result<(), ManifestError>)
        requires
            values@.len() == expected_ints().len(),
        ensures
            is_verdict(r, values@),
    {
        let list = expected();
        for i in 0..list.len()
            invariant
                list@.len() == values@.len(),
                values@.len() == expected_ints().len(),
                forall|k: int|
                    #![trigger list@[k]]
                    0 <= k < list@.len() ==> list@[k].0@ == expected_ints()[k].0 && list@[k].1
                        == expected_ints()[k].1,
                first_mismatch(values@, 0) == first_mismatch(values@, i as int),
        {
            let got: i64 = values[i];
            let (key, expect) = list[i];
            assert(list@[i as int].1 == expected_ints()[i as int].1);
            if got != expect {
                return Err(ManifestError::Mismatch { key: key.to_owned(), got, expect });
            }
        }
        Ok(())
    }

    /// Checks the text of a manifest.
    pub fn verify(text: &str) -> (r: Result<(), ManifestError>)
        ensures
            match parsed_object(text@) {
                None => r matches Err(ManifestError::Parse(_)),
                Some(ints) => is_verdict(r, stated_values(ints)),
            },
    {
        let object = match parse_object(text) {
            Ok(object) => object,
            Err(e) => {
                return Err(ManifestError::Parse(e));
            },
        };
        let ghost ints = object_ints(object);
        let list = expected();
        let mut values: Vec<i64> = Vec::new();
        for i in 0..list.len()
            invariant
                ints == object_ints(object),
                list@.len() == expected_ints().len(),
                forall|k: int|
                    #![trigger list@[k]]
                    0 <= k < list@.len() ==> list@[k].0@ == expected_ints()[k].0,
                values@ == stated_values(ints).take(i as int),
        {
            let key = list[i].0;
            assert(list@[i as int].0@ == expected_ints()[i as int].0);
            let value: i64 = match object_int(&object, key) {
                Some(v) => v,
                None => -1,
            };
            values.push(value);
            assert(values@ =~= stated_values(ints).take(i + 1));
        }
        assert(values@ =~= stated_values(ints));
        Self::check_values(&values)
    }
}

proof fn lemma_first_mismatch(values: Seq<i64>, from: int)
    requires
        0 <= from,
    ensures
        match first_mismatch(values, from) {
            Some(i) => from <= i < expected_ints().len() && values[i] != expected_ints()[i].1,
            None => forall|i: int|
                from <= i < expected_ints().len() ==> values[i] == #[trigger] expected_ints()[i].1,
        },
    decreases expected_ints().len() - from,
{
    if from < expected_ints().len() {
        lemma_first_mismatch(values, from + 1);
    }
}

/// A manifest passes exactly where it states every expected value.
pub proof fn law_manifest_passes_iff_all_stated(ints: Map<Seq<char>, Option<i64>>)
    ensures
        first_mismatch(stated_values(ints), 0) is None <==> forall|i: int|
            0 <= i < expected_ints().len() ==> stated(ints, (#[trigger] expected_ints()[i]).0)
                == expected_ints()[i].1,
{
    lemma_first_mismatch(stated_values(ints), 0);
}

/// A manifest is accepted where it states the sizes of the model, and only there.
/// Where one differs, the first of them in this order is named, with what the
/// manifest says and what it should say; a size that is not there counts as -1.
pub proof fn law_manifest_states_the_sizes(
    text: &str,
    r: Result<(), ManifestError>,
    ints: Map<Seq<char>, Option<i64>>,
)
    requires
        call_ensures(ManifestCheck::verify, (text,), r),
        parsed_object(text@) == Some(ints),
    ensures
        ({
            let says = |key: Seq<char>, size: i64|
                ints.contains_key(key) && ints[key] == Some(size);
            let all = says("num_layers"@, 24) && says("num_fast_layers"@, 4) && says(
                "num_codebooks"@,
                10,
            ) && says("n_local_heads"@, 2) && says("head_dim"@, 64) && says("codebook_size"@, 4096)
                && says("slow_logits_size"@, 4097) && says("vocab_size"@, 155776);
            &&& r is Ok <==> all
            &&& r matches Err(e) ==> {
                let keys = seq![
                    "num_layers"@,
                    "num_fast_layers"@,
                    "num_codebooks"@,
                    "n_local_heads"@,
                    "head_dim"@,
                    "codebook_size"@,
                    "slow_logits_size"@,
                    "vocab_size"@,
                ];
                let sizes = seq![24i64, 4, 10, 2, 64, 4096, 4097, 155776];
                &&& e is Mismatch
                &&& e->got == if ints.contains_key(e->key@) && ints[e->key@] is Some {
                    ints[e->key@].unwrap()
                } else {
                    -1i64
                }
                &&& exists|i: int|
                    {
                        &&& 0 <= i < 8
                        &&& e->key@ == #[trigger] keys[i]
                        &&& e->expect == sizes[i]
                        &&& !says(keys[i], sizes[i])
                        &&& forall|j: int| 0 <= j < i ==> says(#[trigger] keys[j], sizes[j])
                    }
            }
        }),
{
    let v = stated_values(ints);
    let e = expected_ints();
    assert(e.len() == 8);
    reveal_with_fuel(first_mismatch, 9);
    lemma_first_mismatch(v, 0);
    assert(v[0] == stated(ints, "num_layers"@));
    assert(v[1] == stated(ints, "num_fast_layers"@));
    assert(v[2] == stated(ints, "num_codebooks"@));
    assert(v[3] == stated(ints, "n_local_heads"@));
    assert(v[4] == stated(ints, "head_dim"@));
    assert(v[5] == stated(ints, "codebook_size"@));
    assert(v[6] == stated(ints, "slow_logits_size"@));
    assert(v[7] == stated(ints, "vocab_size"@));
    let keys = seq![
        "num_layers"@,
        "num_fast_layers"@,
        "num_codebooks"@,
        "n_local_heads"@,
        "head_dim"@,
        "codebook_size"@,
        "slow_logits_size"@,
        "vocab_size"@,
    ];
    let sizes = seq![24i64, 4, 10, 2, 64, 4096, 4097, 155776];
    if r is Err {
        let i = first_mismatch(v, 0).unwrap();
        lemma_before_mismatch(v, 0);
        assert forall|j: int| 0 <= j < 8 implies keys[j] == #[trigger] e[j].0 && sizes[j]
            == e[j].1 by {}
        assert forall|j: int| 0 <= j < i implies ints.contains_key(#[trigger] keys[j])
            && ints[keys[j]] == Some(sizes[j]) by {
            assert(v[j] == e[j].1);
            assert(v[j] == stated(ints, e[j].0));
        }
        assert(keys[i] == e[i].0);
        assert(v[i] == stated(ints, e[i].0));
    }
}

proof fn lemma_before_mismatch(values: Seq<i64>, from: int)
    requires
        0 <= from,
    ensures
        first_mismatch(values, from) matches Some(i) ==> forall|j: int|
            from <= j < i ==> values[j] == #[trigger] expected_ints()[j].1,
    decreases expected_ints().len() - from,
{
    if from < expected_ints().len() {
        lemma_before_mismatch(values, from + 1);
    }
}

/// A text that is no JSON object is refused.
pub proof fn law_no_object_no_manifest(text: &str, r: Result<(), ManifestError>)
    requires
        call_ensures(ManifestCheck::verify, (text,), r),
        parsed_object(text@) is None,
    ensures
        r matches Err(ManifestError::Parse(_)),
{
}

/// The ids and sizes of the model fit together: there is a semantic token for
/// each entry of a codebook, the token that ends the speech is none of them, the
/// slow model has a logit for each of these, and its heads fill its width.
pub proof fn law_constants_fit_together()
    ensures
        SEMANTIC_END_ID - SEMANTIC_BEGIN_ID + 1 == CODEBOOK_SIZE,
        !(SEMANTIC_BEGIN_ID <= IM_END_ID <= SEMANTIC_END_ID),
        SLOW_LOGITS_SIZE == CODEBOOK_SIZE + 1,
        SEMANTIC_END_ID < VOCAB_SIZE,
        N_HEAD * HEAD_DIM == DIM,
        N_HEAD % N_LOCAL_HEADS == 0,
        FAST_DIM == DIM,
        DIM == 896 && HEAD_DIM == 64 && N_LOCAL_HEADS == 2,
        INTERMEDIATE_SIZE == 4864,
        N_LAYER == 24 && N_FAST_LAYER == 4,
        CODEBOOK_SIZE == 4096 && NUM_CODEBOOKS == 10,
        VOCAB_SIZE == 155776,
        MAX_SEQ_LEN == 2048,
        SEMANTIC_BEGIN_ID == 151678 && IM_END_ID == 151645,
{
}

} // verus!
