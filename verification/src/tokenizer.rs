//! Tokenizers of the `tokenizers` crate: which descriptions can be loaded, which
//! tokenizers can be used, and what they make of a text.

use vstd::prelude::*;
use vstd::utf8::*;

use crate::chars::{copy_range, find, is_whitespace, lemma_position, occurs_at, position};
use crate::chars::{same_chars, to_chars, to_text, white_space};
use crate::json::{check_keys, entry, entry_forms, entry_number, entry_text, find_part, forms};
use crate::json::{has_part, json_form, keys_differ, number_under, open_json, parse_json};
use crate::json::{parsed_json, text_under, value_under, Json, Opened, Part};
use crate::normalizer::{normalizer_run, run_normalizer};
use crate::post::{has_template, post_run, run_post};

verus! {

/// A tokenizer of the `tokenizers` crate.
#[verifier::external_type_specification]
#[verifier::external_body]
pub struct ExTokenizer(tokenizers::Tokenizer);

/// What encoding a text may give: its token ids, and whether parts of it that
/// were cut off are left beside them; or nothing, where it fails.
pub type Outcome = Option<(Seq<u32>, bool)>;

/// What encoding each text may give with a tokenizer.
pub uninterp spec fn token_table(t: tokenizers::Tokenizer) -> Map<Seq<char>, Set<Outcome>>;

/// The kind of the model of a tokenizer.
pub uninterp spec fn token_model(t: tokenizers::Tokenizer) -> ModelKind;

/// The length to which a tokenizer truncates, and by how much the parts that it
/// cuts overlap.
pub uninterp spec fn token_limit(t: tokenizers::Tokenizer) -> Option<(usize, usize)>;

/// The description of the normalizer of a tokenizer.
pub uninterp spec fn token_normalizer(t: tokenizers::Tokenizer) -> Option<Json>;

/// The description of the pre-tokenizer of a tokenizer.
pub uninterp spec fn token_pre(t: tokenizers::Tokenizer) -> Option<Json>;

/// The description of the post-processor of a tokenizer.
pub uninterp spec fn token_post(t: tokenizers::Tokenizer) -> Option<Json>;

/// The description of the added tokens of a tokenizer.
pub uninterp spec fn token_added(t: tokenizers::Tokenizer) -> Option<Json>;

/// The description of the padding of a tokenizer.
pub uninterp spec fn token_padding(t: tokenizers::Tokenizer) -> Option<Json>;

/// The texts for which the added tokens of a tokenizer stand, by their numbers:
/// as they were normalized when they were added, where they are.
pub uninterp spec fn token_forms(t: tokenizers::Tokenizer) -> Map<u32, Seq<char>>;

/// The kinds of models, and what they may do at random.
#[derive(Clone, Copy, PartialEq, Eq, Structural)]
pub enum ModelKind {
    /// Pairs of tokens are merged; with a dropout, not all of them.
    BytePairs { dropout: bool },
    /// The best split is chosen; with a smoothing, one of the better ones.
    Unigram { smoothing: bool },
    WordPieces,
    Words,
}

/// Whether a model draws random numbers.
pub open spec fn draws_of(kind: ModelKind) -> bool {
    match kind {
        ModelKind::BytePairs { dropout } => dropout,
        ModelKind::Unigram { smoothing } => smoothing,
        ModelKind::WordPieces => false,
        ModelKind::Words => false,
    }
}

fn draws_random(kind: ModelKind) -> (r: bool)
    ensures
        r == draws_of(kind),
{
    match kind {
        ModelKind::BytePairs { dropout } => dropout,
        ModelKind::Unigram { smoothing } => smoothing,
        ModelKind::WordPieces => false,
        ModelKind::Words => false,
    }
}

/// The descriptions of the parts of a tokenizer.
pub ghost struct Parts {
    pub normalizer: Option<Json>,
    pub pre: Option<Json>,
    pub post: Option<Json>,
    pub added: Option<Json>,
    pub forms: Map<u32, Seq<char>>,
    pub padding: Option<Json>,
}

/// The parts of a tokenizer.
pub open spec fn token_parts(t: tokenizers::Tokenizer) -> Parts {
    Parts {
        normalizer: token_normalizer(t),
        pre: token_pre(t),
        post: token_post(t),
        added: token_added(t),
        forms: token_forms(t),
        padding: token_padding(t),
    }
}

/// What a text loads as: what encoding may give, the kind of the model, the
/// truncation, and the parts.
pub uninterp spec fn loaded_tokenizer(text: Seq<char>) -> Option<
    (Map<Seq<char>, Set<Outcome>>, ModelKind, Option<(usize, usize)>, Parts),
>;

/// The number of bytes of a text.
pub open spec fn byte_len(s: Seq<char>) -> nat {
    encode_utf8(s).len()
}

/// The two tokens of a merge: a list of two texts, or a text with one blank in
/// it. A text that states a version is no merge.
pub open spec fn merge_parts(m: Json) -> Option<(Seq<char>, Seq<char>)> {
    match m {
        Json::List(items) => if items.len() == 2 {
            match (items[0], items[1]) {
                (Json::Text(a), Json::Text(b)) => Some((a, b)),
                _ => None,
            }
        } else {
            None
        },
        Json::Text(s) => if occurs_at(s, "#version"@, 0) {
            None
        } else {
            match position(s, seq![' ']) {
                Some(k) => if position(s.skip(k + 1), seq![' ']) is None {
                    Some((s.take(k), s.skip(k + 1)))
                } else {
                    None
                },
                None => None,
            }
        },
        _ => None,
    }
}

/// The length of the longest of the first `n` keys.
pub open spec fn longest_key(entries: Seq<(Seq<char>, Json)>, n: nat) -> nat
    decreases n,
{
    if n == 0 {
        0
    } else {
        let before = longest_key(entries, (n - 1) as nat);
        let here = byte_len(entries[n - 1].0);
        if before < here {
            here
        } else {
            before
        }
    }
}

/// The merged token is no longer than the longest token, and the second token
/// can be cut behind a prefix of `prefix` bytes.
pub open spec fn merge_fits(m: Json, prefix: nat, longest: nat) -> bool {
    match merge_parts(m) {
        Some((a, b)) => {
            &&& prefix <= byte_len(b)
            &&& is_char_boundary(encode_utf8(b), prefix as int)
            &&& byte_len(a) + byte_len(b) - prefix <= longest
        },
        None => true,
    }
}

/// Where a model may be one of byte pairs, all its merges fit.
pub open spec fn merges_fit(model: Json) -> bool {
    match (entry(model, "vocab"@), entry(model, "merges"@)) {
        (Some(Json::Object(vocab)), Some(Json::List(merges))) => {
            let kind = entry_text(model, "type"@);
            let prefix = match entry_text(model, "continuing_subword_prefix"@) {
                Some(p) => byte_len(p),
                None => 0,
            };
            (kind is None || kind == Some("BPE"@)) ==> all_fit(
                merges,
                prefix,
                longest_key(vocab, vocab.len()),
            )
        },
        _ => true,
    }
}

pub open spec fn all_fit(merges: Seq<Json>, prefix: nat, longest: nat) -> bool {
    forall|i: int| 0 <= i < merges.len() ==> merge_fits(#[trigger] merges[i], prefix, longest)
}

/// The description can be read: its merges fit, and its normalizer can be used.
pub open spec fn loadable(j: Json) -> bool {
    &&& entry(j, "normalizer"@) matches Some(n) ==> normalizer_run(n, false) is Some
    &&& entry(j, "model"@) matches Some(m) ==> merges_fit(m)
}

/// A text that can be read as a tokenizer: a JSON text without a key twice in
/// one object, whose description can be read.
pub open spec fn text_loadable(text: Seq<char>) -> bool {
    parsed_json(text) matches Some(j) && keys_differ(text, j) && loadable(j)
}

/// The added tokens of a description can be told apart in every text: they have
/// different contents, and no normalizer changes them.
pub open spec fn settled(j: Json) -> bool {
    match entry(j, "added_tokens"@) {
        Some(Json::List(tokens)) => {
            &&& forall|i: int, k: int|
                0 <= i < k < tokens.len() ==> entry(#[trigger] tokens[i], "content"@) != entry(
                    #[trigger] tokens[k],
                    "content"@,
                )
            &&& entry(j, "normalizer"@) is None || entry(j, "normalizer"@) == Some(Json::Null)
                || forall|i: int|
                0 <= i < tokens.len() ==> entry(#[trigger] tokens[i], "normalized"@) == Some(
                    Json::Flag(false),
                )
        },
        _ => true,
    }
}

/// `serde_json::from_str` reads a tokenizer from a text; from the same text it
/// reads the same one, or fails each time. Only where added tokens could be
/// taken for one another is what encoding gives left open: which of them counts
/// then depends on the walk of a hash map. The text of the error is left open.
/// It panics on merges that are longer than every token or shorter than the
/// prefix, on a precompiled normalizer without a readable map, and where an
/// added token is put through a normalizer that cannot be used; of a key that an
/// object has twice, it may read both values.
#[verifier::external_body]
fn tokenizer_from_str(text: &str) -> (r: Result<tokenizers::Tokenizer, String>)
    requires
        text_loadable(text@),
    ensures
        match r {
            Ok(t) => loaded_tokenizer(text@) matches Some((table, model, limit, parts)) && (
            settled(parsed_json(text@).unwrap()) ==> table == token_table(t)) && model
                == token_model(t) && limit == token_limit(t) && parts == token_parts(t),
            Err(_) => loaded_tokenizer(text@) is None,
        },
{
    serde_json::from_str(text).map_err(|e| e.to_string())
}

/// `TokenizerImpl::get_model` shows the model of a tokenizer, of which there are
/// four kinds; byte-pair models show whether they have a dropout, unigram models
/// whether they have a smoothing parameter.
#[verifier::external_body]
fn tokenizer_model(t: &tokenizers::Tokenizer) -> (r: ModelKind)
    ensures
        r == token_model(*t),
{
    match t.get_model() {
        tokenizers::ModelWrapper::BPE(m) => ModelKind::BytePairs { dropout: m.dropout.is_some() },
        tokenizers::ModelWrapper::Unigram(m) => ModelKind::Unigram { smoothing: m.alpha.is_some() },
        tokenizers::ModelWrapper::WordPiece(_) => ModelKind::WordPieces,
        tokenizers::ModelWrapper::WordLevel(_) => ModelKind::Words,
    }
}

/// `TokenizerImpl::get_truncation` gives the truncation parameters.
#[verifier::external_body]
fn tokenizer_limit(t: &tokenizers::Tokenizer) -> (r: Option<(usize, usize)>)
    ensures
        r == token_limit(*t),
{
    t.get_truncation().map(|p| (p.max_length, p.stride))
}

/// `TokenizerImpl::get_normalizer` shows the normalizer, and
/// `serde_json::to_value` describes it.
#[verifier::external_body]
fn tokenizer_normalizer(t: &tokenizers::Tokenizer) -> (r: Option<serde_json::Value>)
    ensures
        match r {
            Some(v) => token_normalizer(*t) == Some(json_form(v)),
            None => token_normalizer(*t) is None,
        },
{
    serde_json::to_value(t.get_normalizer()).ok()
}

/// `TokenizerImpl::get_pre_tokenizer` shows the pre-tokenizer, and
/// `serde_json::to_value` describes it.
#[verifier::external_body]
fn tokenizer_pre(t: &tokenizers::Tokenizer) -> (r: Option<serde_json::Value>)
    ensures
        match r {
            Some(v) => token_pre(*t) == Some(json_form(v)),
            None => token_pre(*t) is None,
        },
{
    serde_json::to_value(t.get_pre_tokenizer()).ok()
}

/// `TokenizerImpl::get_post_processor` shows the post-processor, and
/// `serde_json::to_value` describes it.
#[verifier::external_body]
fn tokenizer_post(t: &tokenizers::Tokenizer) -> (r: Option<serde_json::Value>)
    ensures
        match r {
            Some(v) => token_post(*t) == Some(json_form(v)),
            None => token_post(*t) is None,
        },
{
    serde_json::to_value(t.get_post_processor()).ok()
}

/// `TokenizerImpl::get_added_vocabulary` shows the added tokens, and
/// `serde_json::to_value` describes them.
#[verifier::external_body]
fn tokenizer_added(t: &tokenizers::Tokenizer) -> (r: Option<serde_json::Value>)
    ensures
        match r {
            Some(v) => token_added(*t) == Some(json_form(v)),
            None => token_added(*t) is None,
        },
{
    serde_json::to_value(t.get_added_vocabulary()).ok()
}

/// `TokenizerImpl::get_padding` shows the padding, and `serde_json::to_value`
/// describes it.
#[verifier::external_body]
fn tokenizer_padding(t: &tokenizers::Tokenizer) -> (r: Option<serde_json::Value>)
    ensures
        match r {
            Some(v) => token_padding(*t) == Some(json_form(v)),
            None => token_padding(*t) is None,
        },
{
    serde_json::to_value(t.get_padding()).ok()
}

/// `AddedVocabulary::simple_id_to_token`, on the added tokens that
/// `TokenizerImpl::get_added_vocabulary` shows, gives the text for which an
/// added token stands.
#[verifier::external_body]
fn tokenizer_form(t: &tokenizers::Tokenizer, id: u32) -> (r: Option<String>)
    ensures
        match r {
            Some(s) => token_forms(*t).contains_key(id) && token_forms(*t)[id] == s@,
            None => !token_forms(*t).contains_key(id),
        },
{
    t.get_added_vocabulary().simple_id_to_token(id)
}

/// The cut parts of a truncated text overlap by less than their length.
pub open spec fn limit_usable(limit: Option<(usize, usize)>) -> bool {
    match limit {
        Some((length, overlap)) => length == 0 || overlap < length,
        None => true,
    }
}

/// The flag under `key` is set.
pub open spec fn flag(j: Json, key: Seq<char>) -> bool {
    entry(j, key) == Some(Json::Flag(true))
}

/// All characters are white space.
pub open spec fn blank(s: Seq<char>) -> bool {
    forall|i: int| 0 <= i < s.len() ==> white_space(#[trigger] s[i])
}

/// The text by which an added token is found.
pub open spec fn token_pattern(token: Json, forms: Map<u32, Seq<char>>) -> Option<Seq<char>> {
    if flag(token, "normalized"@) {
        match entry_number(token, "id"@) {
            Some(id) => if id <= u32::MAX && forms.contains_key(id as u32) {
                Some(forms[id as u32])
            } else {
                None
            },
            None => None,
        }
    } else {
        entry_text(token, "content"@)
    }
}

/// An added token is found by some text.
pub open spec fn token_usable(token: Json, forms: Map<u32, Seq<char>>) -> bool {
    &&& entry_text(token, "content"@) is Some
    &&& token_pattern(token, forms) matches Some(s) && s.len() > 0
}

/// An added token that takes the white space behind it. Those that are found in
/// normalized texts are looked for apart from the others.
pub open spec fn right_strip(token: Json, normalized: bool) -> bool {
    flag(token, "rstrip"@) && flag(token, "normalized"@) == normalized
}

/// An added token that takes the white space in front of it, not that behind it,
/// and is itself found in white space.
pub open spec fn blank_left_strip(
    token: Json,
    forms: Map<u32, Seq<char>>,
    normalized: bool,
) -> bool {
    &&& flag(token, "lstrip"@) && !flag(token, "rstrip"@) && flag(token, "normalized"@)
        == normalized
    &&& token_pattern(token, forms) matches Some(s) ==> blank(s)
}

pub open spec fn some_right_strip(tokens: Seq<Json>, normalized: bool) -> bool {
    exists|i: int| 0 <= i < tokens.len() && right_strip(#[trigger] tokens[i], normalized)
}

pub open spec fn some_blank_left_strip(
    tokens: Seq<Json>,
    forms: Map<u32, Seq<char>>,
    normalized: bool,
) -> bool {
    exists|i: int|
        0 <= i < tokens.len() && blank_left_strip(#[trigger] tokens[i], forms, normalized)
}

/// An added token may be found in the white space that another one has taken.
pub open spec fn clash(
    tokens: Seq<Json>,
    forms: Map<u32, Seq<char>>,
    normalized: bool,
) -> bool {
    some_right_strip(tokens, normalized) && some_blank_left_strip(tokens, forms, normalized)
}

/// The contents of those of the first `n` tokens that take the white space
/// behind them.
pub open spec fn right_contents(tokens: Seq<Json>, n: nat) -> Seq<Seq<char>>
    decreases n,
{
    if n == 0 {
        Seq::empty()
    } else {
        let before = right_contents(tokens, (n - 1) as nat);
        match entry_text(tokens[n - 1], "content"@) {
            Some(content) => if flag(tokens[n - 1], "rstrip"@) {
                before.push(content)
            } else {
                before
            },
            None => before,
        }
    }
}

/// `content` stands in `text` at `p`, with white space behind it.
pub open spec fn spaced_at(content: Seq<char>, text: Seq<char>, p: int) -> bool {
    &&& 0 <= p
    &&& p + content.len() < text.len()
    &&& occurs_at(text, content, p)
    &&& white_space(text[p + content.len()])
}

/// One of the contents stands somewhere in `text` with white space behind it.
pub open spec fn spaced(contents: Seq<Seq<char>>, text: Seq<char>) -> bool {
    exists|i: int, p: int|
        0 <= i < contents.len() && #[trigger] spaced_at(contents[i], text, p)
}

/// Every added token is found by some text, and in normalized texts, which are
/// not at hand, they do not clash.
pub open spec fn added_usable(
    added: Json,
    forms: Map<u32, Seq<char>>,
    normalizer: Json,
) -> bool {
    match added {
        Json::List(tokens) => {
            &&& all_usable(tokens, forms)
            &&& normalizer != Json::Null ==> !clash(tokens, forms, true)
        },
        _ => false,
    }
}

pub open spec fn all_usable(tokens: Seq<Json>, forms: Map<u32, Seq<char>>) -> bool {
    forall|i: int| 0 <= i < tokens.len() ==> token_usable(#[trigger] tokens[i], forms)
}

/// The added tokens clash in some texts.
pub open spec fn some_clash(tokens: Seq<Json>, forms: Map<u32, Seq<char>>) -> bool {
    clash(tokens, forms, false) || clash(tokens, forms, true)
}

/// The added tokens do not clash in a text: they never do, or no white space is
/// taken.
pub open spec fn text_usable(parts: Parts, text: Seq<char>) -> bool {
    match parts.added {
        Some(Json::List(tokens)) => some_clash(tokens, parts.forms) ==> !spaced(
            right_contents(tokens, tokens.len()),
            text,
        ),
        _ => false,
    }
}

/// The length to which `n` tokens are filled up to a multiple of `m`.
pub open spec fn rounded(n: int, m: int) -> int {
    if m > 0 && n % m > 0 {
        n + (m - n % m)
    } else {
        n
    }
}

/// So many tokens can be listed: their texts, of 24 bytes each, fit the largest
/// allocation.
pub open spec fn listable(n: int) -> bool {
    n <= isize::MAX as int / 24
}

/// Texts are filled up to a number of tokens that can be listed.
pub open spec fn padding_usable(padding: Json) -> bool {
    let m = match entry_number(padding, "pad_to_multiple_of"@) {
        Some(m) => m as int,
        None => 0,
    };
    match entry(padding, "strategy"@) {
        Some(strategy) => match entry_number(strategy, "Fixed"@) {
            Some(n) => listable(rounded(n as int, m)),
            None => listable(m),
        },
        None => listable(m),
    }
}

/// A text can be encoded with such parts:
/// - the normalizer can be used, and where it writes in front of a text, the
///   pre-tokenizer does not go through all characters;
/// - the pre-tokenizer does not cut into pieces of no length, and splits at no
///   expression that moves the start of its matches;
/// - the templates of the post-processor find the sequences that they name;
/// - the added tokens are found by some text;
/// - the padding can be listed.
pub open spec fn parts_usable(parts: Parts) -> bool {
    match (parts.normalizer, parts.pre, parts.post, parts.added, parts.padding) {
        (Some(normalizer), Some(pre), Some(post), Some(added), Some(padding)) => {
            &&& normalizer_run(normalizer, false) matches Some(inserted) && (inserted ==> !has_part(
                pre,
                Part::ByteLevel,
            ))
            &&& !has_part(pre, Part::ZeroLength)
            &&& !has_part(pre, Part::KeepOut)
            &&& post_run(post, 1) is Some
            &&& added_usable(added, parts.forms, normalizer)
            &&& padding_usable(padding)
        },
        _ => false,
    }
}

/// What encoding may give with `a` where nothing is cut off, it may give with
/// `b` too.
pub open spec fn whole_texts_agree(
    a: Map<Seq<char>, Set<Outcome>>,
    b: Map<Seq<char>, Set<Outcome>>,
) -> bool {
    forall|text: Seq<char>, o: Outcome| #[trigger]
        a[text].contains(o) && (o matches Some((_, cut)) ==> !cut) ==> b[text].contains(o)
}

/// A post-processor may drop what was cut off a text.
pub open spec fn may_drop(post: Option<Json>) -> bool {
    post matches Some(j) ==> has_template(j)
}

/// The same length with another overlap.
pub open spec fn with_overlap(limit: Option<(usize, usize)>, overlap: usize) -> Option<
    (usize, usize),
> {
    match limit {
        Some((length, _)) => Some((length, overlap)),
        None => None,
    }
}

/// `TokenizerImpl::get_truncation_mut` lets the overlap of the cut parts be set.
/// That changes nothing for the texts of which nothing is cut off. Where a
/// template may drop what was cut off, its ids do not show that it was: then
/// they are the same only where the overlap is usable.
#[verifier::external_body]
fn set_overlap(t: &mut tokenizers::Tokenizer, overlap: usize)
    ensures
        token_model(*final(t)) == token_model(*old(t)),
        token_parts(*final(t)) == token_parts(*old(t)),
        token_limit(*final(t)) == with_overlap(token_limit(*old(t)), overlap),
        limit_usable(token_limit(*final(t))) || !may_drop(token_post(*old(t)))
            ==> whole_texts_agree(token_table(*old(t)), token_table(*final(t))),
        limit_usable(token_limit(*old(t))) || !may_drop(token_post(*old(t))) ==> whole_texts_agree(
            token_table(*final(t)),
            token_table(*old(t)),
        ),
{
    if let Some(p) = t.get_truncation_mut() {
        p.stride = overlap;
    }
}

/// What a call of `encode` gave.
pub open spec fn given(r: Result<(Vec<u32>, bool), String>) -> Outcome {
    match r {
        Ok((ids, cut)) => Some((ids@, cut)),
        Err(_) => None,
    }
}

/// `TokenizerImpl::encode` without special tokens, with `Encoding::get_ids` and
/// `Encoding::get_overflowing`: the token ids of a text, and whether parts of it
/// that were cut off are left. It gives what the table says it may give; where
/// no random numbers are drawn, that is one thing only. The text of the error is
/// left open. It panics where the parts of a truncated text would overlap by
/// their whole length, on parts of a tokenizer that are not usable, and on texts
/// in which the added tokens clash.
#[verifier::external_body]
fn tokenizer_encode(t: &tokenizers::Tokenizer, text: &str) -> (r: Result<(Vec<u32>, bool), String>)
    requires
        limit_usable(token_limit(*t)),
        parts_usable(token_parts(*t)),
        text_usable(token_parts(*t), text@),
    ensures
        token_table(*t)[text@].contains(given(r)),
        !draws_of(token_model(*t)) ==> forall|o: Outcome| #[trigger]
            token_table(*t)[text@].contains(o) ==> o == given(r),
{
    match t.encode(text, false) {
        Ok(encoding) => {
            let cut = !encoding.get_overflowing().is_empty();
            Ok((encoding.get_ids().to_vec(), cut))
        },
        Err(e) => Err(e.to_string()),
    }
}

/// Why a text has no ids.
#[derive(Debug)]
pub enum TokenizerError {
    /// The description is no JSON, or does not describe a tokenizer.
    Load(String),
    /// The description has a key twice, merges that fit no token, or a
    /// normalizer that cannot be used.
    Unreadable,
    /// The tokenizer has parts with which no text can be encoded.
    Unusable,
    /// The tokenizer fails on the text.
    Encode(String),
    /// The text would be truncated to parts that overlap by their whole length.
    Truncation,
    /// Added tokens of the tokenizer clash in the text.
    Clash,
}

/// Why a text has no ids, in specifications.
pub ghost enum EncodeFault {
    Failed,
    Truncated,
    Clashed,
}

/// What encoding gives, in the form of specifications.
pub open spec fn ids_of(r: Result<Vec<u32>, TokenizerError>) -> Result<Seq<u32>, EncodeFault> {
    match r {
        Ok(ids) => Ok(ids@),
        Err(TokenizerError::Truncation) => Err(EncodeFault::Truncated),
        Err(TokenizerError::Clash) => Err(EncodeFault::Clashed),
        Err(_) => Err(EncodeFault::Failed),
    }
}

/// The two tokens of a merge.
fn split_merge(m: &serde_json::Value) -> (r: Option<(String, String)>)
    ensures
        match r {
            Some((a, b)) => merge_parts(json_form(*m)) == Some((a@, b@)),
            None => merge_parts(json_form(*m)) is None,
        },
{
    match open_json(m) {
        Opened::List(items) => {
            assert(forms(items@).len() == items@.len());
            if items.len() != 2 {
                return None;
            }
            assert(forms(items@)[0] == json_form(items@[0]));
            assert(forms(items@)[1] == json_form(items@[1]));
            match (open_json(&items[0]), open_json(&items[1])) {
                (Opened::Text(a), Opened::Text(b)) => Some((a, b)),
                _ => None,
            }
        },
        Opened::Text(text) => {
            let chars = to_chars(&text);
            let version = to_chars("#version");
            proof {
                lemma_position(chars@, version@);
                reveal_strlit("#version");
            }
            match find(&chars, &version) {
                Some(at) => {
                    if at == 0 {
                        return None;
                    }
                },
                None => {},
            }
            assert(!occurs_at(chars@, version@, 0));
            let blank: Vec<char> = vec![' '];
            assert(blank@ =~= seq![' ']);
            match find(&chars, &blank) {
                Some(k) => {
                    let total: usize = chars.len();
                    let front = copy_range(&chars, 0, k);
                    let back = copy_range(&chars, k + 1, total);
                    assert(front@ =~= chars@.take(k as int));
                    assert(back@ =~= chars@.skip(k + 1));
                    match find(&back, &blank) {
                        Some(_) => None,
                        None => Some((to_text(&front), to_text(&back))),
                    }
                },
                None => None,
            }
        },
        _ => None,
    }
}

fn byte_count(s: &str) -> (r: usize)
    ensures
        r == byte_len(s@),
{
    s.as_bytes().len()
}

fn longest(keys: &Vec<String>, Ghost(values): Ghost<Seq<serde_json::Value>>) -> (r: usize)
    requires
        keys@.len() == values.len(),
    ensures
        r == longest_key(entry_forms(keys@, values), values.len()),
{
    let ghost entries = entry_forms(keys@, values);
    let mut most: usize = 0;
    for i in 0..keys.len()
        invariant
            keys@.len() == values.len(),
            entries == entry_forms(keys@, values),
            most == longest_key(entries, i as nat),
    {
        let here: usize = byte_count(&keys[i]);
        assert(entries[i as int].0 == keys@[i as int]@);
        if most < here {
            most = here;
        }
    }
    most
}

/// Whether the merges of a model fit its tokens.
fn check_merges(model: &serde_json::Value) -> (r: bool)
    ensures
        r == merges_fit(json_form(*model)),
{
    let (vocab, merges) = match (value_under(model, "vocab"), value_under(model, "merges")) {
        (Some(vocab), Some(merges)) => (vocab, merges),
        _ => {
            return true;
        },
    };
    let byte_pairs = match text_under(model, "type") {
        Some(kind) => is_same(&kind, "BPE"),
        None => true,
    };
    let prefix: usize = match text_under(model, "continuing_subword_prefix") {
        Some(p) => byte_count(&p),
        None => 0,
    };
    match (open_json(&vocab), open_json(&merges)) {
        (Opened::Object(keys, values), Opened::List(list)) => {
            if !byte_pairs {
                return true;
            }
            let most: usize = longest(&keys, Ghost(values@));
            let ghost views = forms(list@);
            for i in 0..list.len()
                invariant
                    views == forms(list@),
                    forall|k: int|
                        0 <= k < i ==> merge_fits(#[trigger] views[k], prefix as nat, most as nat),
                    merges_fit(json_form(*model)) == all_fit(views, prefix as nat, most as nat),
            {
                assert(views[i as int] == json_form(list@[i as int]));
                if let Some((a, b)) = split_merge(&list[i]) {
                    let first: usize = byte_count(&a);
                    let second: usize = byte_count(&b);
                    let fits = prefix <= second && b.as_str().is_char_boundary(prefix) && first
                        <= most && second - prefix <= most - first;
                    if !fits {
                        assert(!merge_fits(views[i as int], prefix as nat, most as nat));
                        return false;
                    }
                }
            }
            true
        },
        _ => true,
    }
}

fn is_same(a: &str, b: &str) -> (r: bool)
    ensures
        r == (a@ == b@),
{
    let left = to_chars(a);
    let right = to_chars(b);
    same_chars(&left, &right)
}

/// Whether a description can be read.
fn check_description(v: &serde_json::Value) -> (r: bool)
    ensures
        r == loadable(json_form(*v)),
{
    if let Some(normalizer) = value_under(v, "normalizer") {
        if run_normalizer(&normalizer, false).is_none() {
            return false;
        }
    }
    match value_under(v, "model") {
        Some(model) => check_merges(&model),
        None => true,
    }
}

fn is_flagged(v: &serde_json::Value, key: &str) -> (r: bool)
    ensures
        r == flag(json_form(*v), key@),
{
    match value_under(v, key) {
        Some(found) => match open_json(&found) {
            Opened::Flag(set) => set,
            _ => false,
        },
        None => false,
    }
}

fn is_blank(text: &str) -> (r: bool)
    ensures
        r == blank(text@),
{
    let chars = to_chars(text);
    for i in 0..chars.len()
        invariant
            chars@ == text@,
            forall|k: int| 0 <= k < i ==> white_space(#[trigger] chars@[k]),
    {
        if !is_whitespace(chars[i]) {
            assert(!white_space(text@[i as int]));
            return false;
        }
    }
    true
}

/// An added token, as far as its place in a text depends on it.
struct AddedToken {
    left: bool,
    right: bool,
    normalized: bool,
    content: String,
    pattern: String,
}

/// `a` is the added token that `j` describes.
spec fn describes(a: AddedToken, j: Json, forms: Map<u32, Seq<char>>) -> bool {
    &&& a.left == flag(j, "lstrip"@)
    &&& a.right == flag(j, "rstrip"@)
    &&& a.normalized == flag(j, "normalized"@)
    &&& entry_text(j, "content"@) == Some(a.content@)
    &&& token_pattern(j, forms) == Some(a.pattern@)
}

/// The added token that a value describes, where it is found by some text.
fn read_token(t: &tokenizers::Tokenizer, v: &serde_json::Value) -> (r: Option<AddedToken>)
    ensures
        match r {
            Some(a) => describes(a, json_form(*v), token_forms(*t)) && token_usable(
                json_form(*v),
                token_forms(*t),
            ),
            None => !token_usable(json_form(*v), token_forms(*t)),
        },
{
    let content = match text_under(v, "content") {
        Some(content) => content,
        None => {
            return None;
        },
    };
    let normalized = is_flagged(v, "normalized");
    let pattern = if normalized {
        let id: u32 = match number_under(v, "id") {
            Some(id) => {
                if id > 0xffff_ffff {
                    return None;
                }
                id as u32
            },
            None => {
                return None;
            },
        };
        match tokenizer_form(t, id) {
            Some(pattern) => pattern,
            None => {
                return None;
            },
        }
    } else {
        copy_text(&content)
    };
    if to_chars(&pattern).len() == 0 {
        return None;
    }
    Some(
        AddedToken {
            left: is_flagged(v, "lstrip"),
            right: is_flagged(v, "rstrip"),
            normalized,
            content,
            pattern,
        },
    )
}

fn copy_text(text: &str) -> (r: String)
    ensures
        r@ == text@,
{
    to_text(&to_chars(text))
}

/// Whether added tokens clash.
fn find_clash(
    tokens: &Vec<AddedToken>,
    normalized: bool,
    Ghost(views): Ghost<Seq<Json>>,
    Ghost(forms): Ghost<Map<u32, Seq<char>>>,
) -> (r: bool)
    requires
        tokens@.len() == views.len(),
        forall|i: int|
            #![trigger tokens@[i]]
            0 <= i < views.len() ==> describes(tokens@[i], views[i], forms),
    ensures
        r == clash(views, forms, normalized),
{
    let mut takes: bool = false;
    let mut found: bool = false;
    for i in 0..tokens.len()
        invariant
            tokens@.len() == views.len(),
            forall|i: int|
                #![trigger tokens@[i]]
                0 <= i < views.len() ==> describes(tokens@[i], views[i], forms),
            takes == exists|k: int| 0 <= k < i && right_strip(#[trigger] views[k], normalized),
            found == exists|k: int|
                0 <= k < i && blank_left_strip(#[trigger] views[k], forms, normalized),
    {
        let a = &tokens[i];
        assert(describes(tokens@[i as int], views[i as int], forms));
        let same = a.normalized == normalized;
        let right = a.right && same;
        let blank = a.left && !a.right && same && is_blank(&a.pattern);
        assert(right == right_strip(views[i as int], normalized));
        assert(blank == blank_left_strip(views[i as int], forms, normalized));
        takes = takes || right;
        found = found || blank;
    }
    assert(takes == some_right_strip(views, normalized));
    assert(found == some_blank_left_strip(views, forms, normalized));
    takes && found
}

/// What added tokens do to white space: whether they clash in some texts, and
/// the contents of those that take the white space behind them.
struct Strips {
    clashes: bool,
    contents: Vec<String>,
}

spec fn strips_of(s: Strips, parts: Parts) -> bool {
    &&& parts.added matches Some(Json::List(tokens)) && s.clashes == some_clash(tokens, parts.forms)
        && string_views(s.contents@) == right_contents(tokens, tokens.len())
}

spec fn string_views(texts: Seq<String>) -> Seq<Seq<char>> {
    texts.map_values(|t: String| t@)
}

/// What the added tokens do to white space, where they can be used.
fn check_added(
    t: &tokenizers::Tokenizer,
    added: &serde_json::Value,
    normalizer: &serde_json::Value,
) -> (r: Option<Strips>)
    requires
        token_added(*t) == Some(json_form(*added)),
    ensures
        match r {
            Some(s) => added_usable(json_form(*added), token_forms(*t), json_form(*normalizer))
                && strips_of(s, token_parts(*t)),
            None => !added_usable(json_form(*added), token_forms(*t), json_form(*normalizer)),
        },
{
    let items = match open_json(added) {
        Opened::List(items) => items,
        _ => {
            return None;
        },
    };
    let ghost views = forms(items@);
    let ghost by_id = token_forms(*t);
    let mut tokens: Vec<AddedToken> = Vec::new();
    let mut contents: Vec<String> = Vec::new();
    assert(string_views(contents@) =~= right_contents(views, 0));
    for i in 0..items.len()
        invariant
            views == forms(items@),
            json_form(*added) == Json::List(views),
            by_id == token_forms(*t),
            tokens@.len() == i,
            forall|k: int|
                #![trigger tokens@[k]]
                0 <= k < i ==> describes(tokens@[k], views[k], by_id),
            forall|k: int| 0 <= k < i ==> token_usable(#[trigger] views[k], by_id),
            string_views(contents@) == right_contents(views, i as nat),
    {
        assert(views[i as int] == json_form(items@[i as int]));
        match read_token(t, &items[i]) {
            Some(a) => {
                if a.right {
                    let ghost before = contents@;
                    contents.push(copy_text(&a.content));
                    assert(string_views(contents@) =~= string_views(before).push(a.content@));
                }
                tokens.push(a);
            },
            None => {
                assert(!token_usable(views[i as int], by_id));
                assert(0 <= i < views.len());
                assert(!all_usable(views, by_id));
                return None;
            },
        }
    }
    let raw = find_clash(&tokens, false, Ghost(views), Ghost(by_id));
    let normal = find_clash(&tokens, true, Ghost(views), Ghost(by_id));
    let normalizes = match open_json(normalizer) {
        Opened::Null => false,
        _ => true,
    };
    if normalizes && normal {
        return None;
    }
    Some(Strips { clashes: raw || normal, contents })
}

/// Whether one of the contents stands somewhere in a text with white space
/// behind it.
fn find_spaced(contents: &Vec<String>, text: &str) -> (r: bool)
    ensures
        r == spaced(string_views(contents@), text@),
{
    let s = to_chars(text);
    let ghost views = string_views(contents@);
    for i in 0..contents.len()
        invariant
            s@ == text@,
            views == string_views(contents@),
            forall|k: int, p: int|
                0 <= k < i ==> !(#[trigger] spaced_at(views[k], text@, p)),
    {
        let content = to_chars(&contents[i]);
        assert(content@ == views[i as int]);
        for p in 0..s.len()
            invariant
                s@ == text@,
                views == string_views(contents@),
                i < contents@.len(),
                content@ == views[i as int],
                forall|q: int| 0 <= q < p ==> !(#[trigger] spaced_at(content@, text@, q)),
        {
            if is_spaced_at(&content, &s, p) {
                assert(spaced_at(views[i as int], text@, p as int));
                return true;
            }
        }
        assert forall|p: int| !(#[trigger] spaced_at(views[i as int], text@, p)) by {
            if 0 <= p < text@.len() {
                assert(!spaced_at(content@, text@, p));
            }
        }
    }
    false
}

fn is_spaced_at(content: &Vec<char>, s: &Vec<char>, p: usize) -> (r: bool)
    requires
        p < s@.len(),
    ensures
        r == spaced_at(content@, s@, p as int),
{
    let n: usize = content.len();
    if n >= s.len() - p {
        return false;
    }
    let part = copy_range(s, p, p + n);
    assert(part@ == s@.subrange(p as int, p + n));
    same_chars(&part, content) && is_whitespace(s[p + n])
}

fn is_listable(n: u64) -> (r: bool)
    ensures
        r == listable(n as int),
{
    n <= (isize::MAX as u64) / 24
}

/// Whether the padding can be listed.
fn check_padding(padding: &serde_json::Value) -> (r: bool)
    ensures
        r == padding_usable(json_form(*padding)),
{
    let m: u64 = match number_under(padding, "pad_to_multiple_of") {
        Some(m) => m,
        None => 0,
    };
    let fixed = match value_under(padding, "strategy") {
        Some(strategy) => number_under(&strategy, "Fixed"),
        None => None,
    };
    match fixed {
        Some(n) => {
            if m > 0 && n % m > 0 {
                assert(n % m <= n && n % m < m) by (nonlinear_arith)
                    requires
                        m > 0,
                        n >= 0,
                ;
                is_listable(n) && is_listable(m) && is_listable(n + (m - n % m))
            } else {
                is_listable(n)
            }
        },
        None => is_listable(m),
    }
}

/// What the added tokens of a tokenizer do to white space, where a text can be
/// encoded with its parts.
fn check_parts(t: &tokenizers::Tokenizer) -> (r: Option<Strips>)
    ensures
        match r {
            Some(s) => parts_usable(token_parts(*t)) && strips_of(s, token_parts(*t)),
            None => !parts_usable(token_parts(*t)),
        },
{
    match (
        tokenizer_normalizer(t),
        tokenizer_pre(t),
        tokenizer_post(t),
        tokenizer_added(t),
        tokenizer_padding(t),
    ) {
        (Some(normalizer), Some(pre), Some(post), Some(added), Some(padding)) => {
            let inserted = match run_normalizer(&normalizer, false) {
                Some(inserted) => inserted,
                None => {
                    return None;
                },
            };
            if inserted && find_part(&pre, Part::ByteLevel) {
                return None;
            }
            if find_part(&pre, Part::ZeroLength) || find_part(&pre, Part::KeepOut) {
                return None;
            }
            if run_post(&post, 1).is_none() || !check_padding(&padding) {
                return None;
            }
            check_added(t, &added, &normalizer)
        },
        _ => None,
    }
}

/// A tokenizer with which texts can be encoded.
pub struct TextTokenizer {
    tokenizer: tokenizers::Tokenizer,
    strict: bool,
    strips: Strips,
}

impl TextTokenizer {
    /// What encoding each text may give.
    pub closed spec fn table(self) -> Map<Seq<char>, Set<Outcome>> {
        token_table(self.tokenizer)
    }

    /// Whether random numbers are drawn, so that one text can have several
    /// encodings.
    pub closed spec fn draws(self) -> bool {
        draws_of(token_model(self.tokenizer))
    }

    /// Whether a text that would be truncated is refused.
    pub closed spec fn strict(self) -> bool {
        self.strict
    }

    /// Whether added tokens clash in a text.
    pub closed spec fn clashes(self, text: Seq<char>) -> bool {
        !text_usable(token_parts(self.tokenizer), text)
    }

    #[verifier::type_invariant]
    closed spec fn wf(self) -> bool {
        &&& limit_usable(token_limit(self.tokenizer))
        &&& parts_usable(token_parts(self.tokenizer))
        &&& strips_of(self.strips, token_parts(self.tokenizer))
    }

    /// What encoding a text may give.
    pub open spec fn may_give(self, text: Seq<char>, r: Result<Seq<u32>, EncodeFault>) -> bool {
        if self.clashes(text) {
            r == Err::<Seq<u32>, _>(EncodeFault::Clashed)
        } else {
            exists|o: Outcome| #[trigger]
                self.table()[text].contains(o) && r == self.accepted(o)
        }
    }

    /// What is made of what the tokenizer gives.
    pub open spec fn accepted(self, o: Outcome) -> Result<Seq<u32>, EncodeFault> {
        match o {
            Some((ids, cut)) => if self.strict() && cut {
                Err(EncodeFault::Truncated)
            } else {
                Ok(ids)
            },
            None => Err(EncodeFault::Failed),
        }
    }

    /// What encoding a text gives, where no random numbers are drawn.
    pub open spec fn ids(self, text: Seq<char>) -> Result<Seq<u32>, EncodeFault> {
        choose|r: Result<Seq<u32>, EncodeFault>| self.may_give(text, r)
    }

    /// The tokenizer that a description in JSON gives. Where its cut parts would
    /// overlap by their whole length, it takes only texts that need no cut.
    pub fn load(json: &str) -> (r: Result<TextTokenizer, TokenizerError>)
        ensures
            is_loaded(r, json@),
    {
        let described = match parse_json(json) {
            Ok(v) => v,
            Err(e) => {
                return Err(TokenizerError::Load(e));
            },
        };
        if !check_keys(json, &described) || !check_description(&described) {
            return Err(TokenizerError::Unreadable);
        }
        let mut tokenizer = match tokenizer_from_str(json) {
            Ok(t) => t,
            Err(e) => {
                return Err(TokenizerError::Load(e));
            },
        };
        let strips = match check_parts(&tokenizer) {
            Some(strips) => strips,
            None => {
                return Err(TokenizerError::Unusable);
            },
        };
        let strict = match tokenizer_limit(&tokenizer) {
            Some((length, overlap)) => length != 0 && overlap >= length,
            None => false,
        };
        if strict {
            set_overlap(&mut tokenizer, 0);
        }
        Ok(TextTokenizer { tokenizer, strict, strips })
    }

    pub fn is_random(&self) -> (r: bool)
        ensures
            r == self.draws(),
    {
        draws_random(tokenizer_model(&self.tokenizer))
    }

    /// The token ids of a text, without special tokens around them.
    pub fn encode(&self, text: &str) -> (r: Result<Vec<u32>, TokenizerError>)
        ensures
            r matches Err(e) ==> e is Encode || e is Truncation || e is Clash,
            self.may_give(text@, ids_of(r)),
            !self.draws() ==> self.ids(text@) == ids_of(r),
    {
        proof {
            use_type_invariant(self);
        }
        if self.strips.clashes && find_spaced(&self.strips.contents, text) {
            return Err(TokenizerError::Clash);
        }
        let r = tokenizer_encode(&self.tokenizer, text);
        let ghost o = given(r);
        proof {
            assert(self.table()[text@].contains(o));
            assert(self.may_give(text@, self.accepted(o)));
        }
        match r {
            Ok((ids, cut)) => {
                if self.strict && cut {
                    return Err(TokenizerError::Truncation);
                }
                Ok(ids)
            },
            Err(e) => Err(TokenizerError::Encode(e)),
        }
    }
}

/// `r` is what loading a description gives.
pub open spec fn is_loaded(r: Result<TextTokenizer, TokenizerError>, json: Seq<char>) -> bool {
    match parsed_json(json) {
        None => r matches Err(TokenizerError::Load(_)),
        Some(j) => if !keys_differ(json, j) || !loadable(j) {
            r matches Err(TokenizerError::Unreadable)
        } else {
            match loaded_tokenizer(json) {
                None => r matches Err(TokenizerError::Load(_)),
                Some((table, model, limit, parts)) => if !parts_usable(parts) {
                    r matches Err(TokenizerError::Unusable)
                } else {
                    &&& r matches Ok(t)
                    &&& t.draws() == draws_of(model)
                    &&& t.strict() == !limit_usable(limit)
                    &&& forall|text: Seq<char>| #[trigger]
                        t.clashes(text) == !text_usable(parts, text)
                    &&& settled(j) ==> is_table(t.table(), table, limit, parts)
                },
            }
        },
    }
}

/// `used` says what encoding may give with a tokenizer that was loaded with
/// `table`: the same, unless its overlap was dropped.
pub open spec fn is_table(
    used: Map<Seq<char>, Set<Outcome>>,
    table: Map<Seq<char>, Set<Outcome>>,
    limit: Option<(usize, usize)>,
    parts: Parts,
) -> bool {
    if limit_usable(limit) {
        used == table
    } else {
        &&& whole_texts_agree(table, used)
        &&& !may_drop(parts.post) ==> whole_texts_agree(used, table)
    }
}

/// The ids of a text are those that the tokenizer gives it, all of them and in
/// their order; nothing is made up, and a text is refused only where the
/// tokenizer fails on it, where it would be cut by a tokenizer that takes whole
/// texts only, or where added tokens clash in it.
pub proof fn law_ids_are_those_of_the_tokenizer(
    t: &TextTokenizer,
    text: &str,
    r: Result<Vec<u32>, TokenizerError>,
)
    requires
        call_ensures(TextTokenizer::encode, (t, text), r),
    ensures
        r matches Ok(ids) ==> !t.clashes(text@) && (t.table()[text@].contains(
            Some((ids@, false)),
        ) || (t.table()[text@].contains(Some((ids@, true))) && !t.strict())),
        r matches Err(TokenizerError::Encode(_)) ==> !t.clashes(text@)
            && t.table()[text@].contains(None),
        r matches Err(TokenizerError::Truncation) ==> t.strict() && !t.clashes(text@) && exists|
            ids: Seq<u32>,
        |
            #[trigger] t.table()[text@].contains(Some((ids, true))),
        r matches Err(TokenizerError::Clash) ==> t.clashes(text@),
        r matches Err(e) ==> e is Encode || e is Truncation || e is Clash,
{
    if !t.clashes(text@) {
        let o = choose|o: Outcome| #[trigger]
            t.table()[text@].contains(o) && ids_of(r) == t.accepted(o);
        assert(t.table()[text@].contains(o));
        match o {
            Some((ids, cut)) => {
                assert(o == Some((ids, cut)));
            },
            None => {},
        }
    }
}

/// Two encodings of the same text agree where nothing is drawn.
pub proof fn law_encoding_repeats_itself(
    t: &TextTokenizer,
    text: &str,
    a: Result<Vec<u32>, TokenizerError>,
    b: Result<Vec<u32>, TokenizerError>,
)
    requires
        call_ensures(TextTokenizer::encode, (t, text), a),
        call_ensures(TextTokenizer::encode, (t, text), b),
        !t.draws(),
    ensures
        a is Ok <==> b is Ok,
        a is Ok ==> a->Ok_0@ == b->Ok_0@,
{
}

/// A tokenizer that is loaded gives what its description gives, where its added
/// tokens can be told apart and it can truncate; it draws where its model does.
pub proof fn law_loaded_tokenizers_are_those_described(
    json: &str,
    r: Result<TextTokenizer, TokenizerError>,
    j: Json,
    table: Map<Seq<char>, Set<Outcome>>,
    model: ModelKind,
    limit: Option<(usize, usize)>,
    parts: Parts,
)
    requires
        call_ensures(TextTokenizer::load, (json,), r),
        parsed_json(json@) == Some(j),
        keys_differ(json@, j),
        loadable(j),
        loaded_tokenizer(json@) == Some((table, model, limit, parts)),
        parts_usable(parts),
    ensures
        r is Ok,
        settled(j) && limit is None ==> r->Ok_0.table() == table,
        limit is None ==> !r->Ok_0.strict(),
        r->Ok_0.draws() <==> model == (ModelKind::BytePairs { dropout: true }) || model == (
        ModelKind::Unigram { smoothing: true }),
{
}

/// What is no JSON, and what describes no tokenizer, cannot be loaded.
pub proof fn law_only_tokenizers_are_loaded(json: &str, r: Result<TextTokenizer, TokenizerError>)
    requires
        call_ensures(TextTokenizer::load, (json,), r),
    ensures
        parsed_json(json@) is None ==> r matches Err(TokenizerError::Load(_)),
        r is Ok ==> loaded_tokenizer(json@) is Some,
{
}

/// Filling up gives the next multiple, and leaves a multiple as it is.
pub proof fn law_filling_up_gives_the_next_multiple(n: int, m: int)
    requires
        n >= 0,
        m >= 0,
    ensures
        m == 0 ==> rounded(n, m) == n,
        m > 0 ==> rounded(n, m) % m == 0 && n <= rounded(n, m) < n + m,
{
    if m > 0 {
        vstd::arithmetic::div_mod::lemma_fundamental_div_mod(n, m);
        vstd::arithmetic::div_mod::lemma_mod_bound(n, m);
        let q = n / m;
        if n % m > 0 {
            assert(n + (m - n % m) == m * (q + 1)) by (nonlinear_arith)
                requires
                    n == m * q + n % m,
            ;
            vstd::arithmetic::div_mod::lemma_mod_multiples_basic(q + 1, m);
            assert(m * (q + 1) == (q + 1) * m) by (nonlinear_arith);
        }
    }
}

/// The longest of some keys is as long as one of them, and none is longer.
pub proof fn law_longest_key_is_the_greatest(entries: Seq<(Seq<char>, Json)>, n: nat, i: int)
    requires
        n <= entries.len(),
        0 <= i < n,
    ensures
        byte_len(entries[i].0) <= longest_key(entries, n),
        exists|k: int| 0 <= k < n && byte_len((#[trigger] entries[k]).0) == longest_key(entries, n),
    decreases n,
{
    let last = n - 1;
    if n == 1 {
        assert(longest_key(entries, 0) == 0);
        assert(byte_len(entries[0].0) == longest_key(entries, 1));
    } else {
        law_longest_key_is_the_greatest(
            entries,
            (n - 1) as nat,
            if i < last {
                i
            } else {
                0
            },
        );
        let k = choose|k: int|
            0 <= k < n - 1 && byte_len((#[trigger] entries[k]).0) == longest_key(
                entries,
                (n - 1) as nat,
            );
        if longest_key(entries, (n - 1) as nat) < byte_len(entries[last].0) {
            assert(byte_len(entries[last].0) == longest_key(entries, n));
        } else {
            assert(byte_len(entries[k].0) == longest_key(entries, n));
        }
    }
}

} // verus!
