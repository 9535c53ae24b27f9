//! Prompts: the texts of a request, tokenized, with the codes of the reference
//! recording spliced in.

use vstd::prelude::*;

use crate::grid::{rectangular, row_views, CodeGrid, BatchTensor};
use crate::text::{clean_text, cleaned, format_reference_text, reference_form};
use crate::tokenizer::{is_loaded, EncodeFault, TextTokenizer, TokenizerError};

verus! {

/// Why there is no prompt.
#[derive(Debug)]
pub enum PromptError {
    /// The tokenizer cannot be loaded, or cannot encode a text.
    Tokenizer(TokenizerError),
    /// The reference codes do not have one row per codebook, or no column.
    CodeShape { codebooks: usize, rows: usize, cols: usize },
}

/// Token ids in the type of the model's input.
pub open spec fn widened_ids(ids: Seq<u32>) -> Seq<i64> {
    ids.map_values(|id: u32| id as i64)
}

/// The ids of one text, where no random numbers are drawn.
pub open spec fn encoded(t: TextTokenizer, text: Seq<char>) -> Result<Seq<i64>, EncodeFault> {
    match t.ids(text) {
        Ok(ids) => Ok(widened_ids(ids)),
        Err(fault) => Err(fault),
    }
}

/// The ids of several texts, one text after the other, each encoded by itself;
/// the first fault, where there is one.
pub open spec fn encoded_all(t: TextTokenizer, texts: Seq<Seq<char>>) -> Result<
    Seq<i64>,
    EncodeFault,
>
    decreases texts.len(),
{
    if texts.len() == 0 {
        Ok(Seq::empty())
    } else {
        match encoded_all(t, texts.drop_last()) {
            Ok(front) => match encoded(t, texts.last()) {
                Ok(ids) => Ok(front + ids),
                Err(fault) => Err(fault),
            },
            Err(fault) => Err(fault),
        }
    }
}

/// What encoding one text may give, whatever is drawn.
pub open spec fn may_encode(
    t: TextTokenizer,
    text: Seq<char>,
    r: Result<Seq<i64>, EncodeFault>,
) -> bool {
    match r {
        Ok(ids) => exists|raw: Seq<u32>| #[trigger]
            t.may_give(text, Ok(raw)) && ids == widened_ids(raw),
        Err(fault) => t.may_give(text, Err(fault)),
    }
}

/// `parts` may be the ids of the texts, one part for each.
pub open spec fn may_be_parts(
    t: TextTokenizer,
    texts: Seq<Seq<char>>,
    parts: Seq<Seq<i64>>,
) -> bool {
    &&& parts.len() == texts.len()
    &&& forall|i: int| 0 <= i < texts.len() ==> may_encode(t, texts[i], Ok(#[trigger] parts[i]))
}

/// Parts one behind the other.
pub open spec fn joined_ids(parts: Seq<Seq<i64>>) -> Seq<i64>
    decreases parts.len(),
{
    if parts.len() == 0 {
        Seq::empty()
    } else {
        joined_ids(parts.drop_last()) + parts.last()
    }
}

/// What encoding several texts may give, whatever is drawn: the ids of all of
/// them one behind the other, or the fault of the first that has one.
pub open spec fn may_encode_all(
    t: TextTokenizer,
    texts: Seq<Seq<char>>,
    r: Result<Seq<i64>, EncodeFault>,
) -> bool {
    match r {
        Ok(ids) => exists|parts: Seq<Seq<i64>>| #[trigger]
            may_be_parts(t, texts, parts) && ids == joined_ids(parts),
        Err(fault) => exists|parts: Seq<Seq<i64>>|
            parts.len() < texts.len() && #[trigger] may_be_parts(
                t,
                texts.take(parts.len() as int),
                parts,
            ) && may_encode(t, texts[parts.len() as int], Err(fault)),
    }
}

/// What kept a text from being encoded.
pub open spec fn fault_of(e: PromptError) -> Option<EncodeFault> {
    match e {
        PromptError::Tokenizer(TokenizerError::Encode(_)) => Some(EncodeFault::Failed),
        PromptError::Tokenizer(TokenizerError::Truncation) => Some(EncodeFault::Truncated),
        PromptError::Tokenizer(TokenizerError::Clash) => Some(EncodeFault::Clashed),
        _ => None,
    }
}

/// What encoding gives, in the form of specifications.
pub open spec fn outcome(r: Result<Vec<i64>, PromptError>) -> Result<Seq<i64>, EncodeFault> {
    match r {
        Ok(ids) => Ok(ids@),
        Err(e) => Err(fault_of(e).unwrap()),
    }
}

/// The texts before the reference codes.
pub open spec fn prefix_texts(reference_text: Seq<char>) -> Seq<Seq<char>> {
    seq![
        "<|im_start|>system\n"@,
        "convert the provided text to speech reference to the following:\n\nText:\n"@,
        reference_form(reference_text),
        "\n\nSpeech:\n"@,
    ]
}

/// The texts behind the reference codes.
pub open spec fn suffix_texts(target_text: Seq<char>) -> Seq<Seq<char>> {
    seq![
        "<|im_end|>\n"@,
        "<|im_start|>user\n"@,
        cleaned(target_text),
        "<|im_end|>\n"@,
        "<|im_start|>assistant\n<|voice|>"@,
    ]
}

/// The token ids that stand for the codes of the first codebook.
pub open spec fn semantic_ids(codes: Seq<i64>, begin: i64) -> Seq<i64> {
    codes.map_values(|c: i64| (c + begin) as i64)
}

pub open spec fn zeros(n: nat) -> Seq<i64> {
    Seq::new(n, |i: int| 0i64)
}

/// The prompt table. Its first row holds the prefix ids, the semantic ids of
/// the reference and the suffix ids. Each further row holds the reference codes
/// of one codebook under the semantic ids, and zeros elsewhere.
pub open spec fn prompt_table(
    prefix: Seq<i64>,
    suffix: Seq<i64>,
    codes: Seq<Seq<i64>>,
    begin: i64,
) -> Seq<Seq<i64>> {
    Seq::new(
        codes.len() + 1,
        |r: int|
            if r == 0 {
                prefix + semantic_ids(codes[0], begin) + suffix
            } else {
                zeros(prefix.len()) + codes[r - 1] + zeros(suffix.len())
            },
    )
}

/// There is a code to each semantic id, and the ids are within bounds.
pub open spec fn semantic_ids_fit(codes: Seq<Seq<i64>>, begin: i64) -> bool {
    &&& codes.len() > 0
    &&& forall|t: int|
        0 <= t < codes[0].len() ==> i64::MIN <= #[trigger] codes[0][t] + begin <= i64::MAX
}

fn push_zeros(out: &mut Vec<i64>, n: usize)
    ensures
        final(out)@ == old(out)@ + zeros(n as nat),
{
    for i in 0..n
        invariant
            out@ == old(out)@ + zeros(i as nat),
    {
        out.push(0);
        assert(out@ =~= old(out)@ + zeros((i + 1) as nat));
    }
    assert(out@ =~= old(out)@ + zeros(n as nat));
}

fn push_all(out: &mut Vec<i64>, more: &Vec<i64>)
    ensures
        final(out)@ == old(out)@ + more@,
{
    for i in 0..more.len()
        invariant
            out@ == old(out)@ + more@.take(i as int),
    {
        out.push(more[i]);
        assert(out@ =~= old(out)@ + more@.take(i + 1));
    }
    assert(out@ =~= old(out)@ + more@);
}

/// The parts one behind the other.
pub fn join_ids(parts: &Vec<Vec<i64>>) -> (r: Vec<i64>)
    ensures
        r@ == joined_ids(row_views(parts@)),
{
    let mut out: Vec<i64> = Vec::new();
    let ghost views = row_views(parts@);
    assert(views.take(0) =~= Seq::<Seq<i64>>::empty());
    for i in 0..parts.len()
        invariant
            views == row_views(parts@),
            out@ == joined_ids(views.take(i as int)),
    {
        push_all(&mut out, &parts[i]);
        assert(views.take(i + 1).drop_last() =~= views.take(i as int));
        assert(views.take(i + 1).last() == parts@[i as int]@);
    }
    assert(views.take(parts@.len() as int) =~= views);
    out
}

/// The prompt tensor for ids that are already there.
pub fn assemble(
    prefix: &Vec<i64>,
    suffix: &Vec<i64>,
    reference_codes: &CodeGrid,
    semantic_begin_id: i64,
) -> (r: BatchTensor)
    requires
        reference_codes.width() > 0,
        semantic_ids_fit(reference_codes.rows(), semantic_begin_id),
    ensures
        r.rows() == prompt_table(
            prefix@,
            suffix@,
            reference_codes.rows(),
            semantic_begin_id,
        ),
        r.width() == prefix@.len() + reference_codes.width() + suffix@.len(),
{
    let (codebooks, ref_len) = reference_codes.dim();
    let ghost codes = reference_codes.rows();
    let ghost table = prompt_table(prefix@, suffix@, codes, semantic_begin_id);
    let ghost width: nat = prefix@.len() + ref_len as nat + suffix@.len();
    let mut row0: Vec<i64> = Vec::new();
    push_all(&mut row0, prefix);
    for t in 0..ref_len
        invariant
            codes == reference_codes.rows(),
            codes.len() > 0,
            codes[0].len() == ref_len,
            ref_len == reference_codes.width(),
            semantic_ids_fit(codes, semantic_begin_id),
            row0@ == Seq::<i64>::empty() + prefix@ + semantic_ids(codes[0], semantic_begin_id).take(
                t as int,
            ),
    {
        let code: i64 = reference_codes.at(0, t);
        row0.push(code + semantic_begin_id);
        assert(row0@ =~= Seq::<i64>::empty() + prefix@ + semantic_ids(
            codes[0],
            semantic_begin_id,
        ).take(t + 1));
    }
    push_all(&mut row0, suffix);
    assert(row0@ =~= table[0]);
    let total: usize = row0.len();
    let mut rows: Vec<Vec<i64>> = Vec::new();
    rows.push(row0);
    for cb in 0..codebooks
        invariant
            codes == reference_codes.rows(),
            codebooks == codes.len(),
            rectangular(codes, ref_len as nat),
            table == prompt_table(prefix@, suffix@, codes, semantic_begin_id),
            rows@.len() == cb + 1,
            forall|r: int| #![trigger rows@[r]] 0 <= r <= cb ==> rows@[r]@ == table[r],
    {
        let mut row: Vec<i64> = Vec::new();
        push_zeros(&mut row, prefix.len());
        let codes_of: Vec<i64> = reference_codes.row(cb);
        push_all(&mut row, &codes_of);
        push_zeros(&mut row, suffix.len());
        assert(row@ =~= table[cb + 1]);
        rows.push(row);
    }
    assert(row_views(rows@) =~= table);
    proof {
        assert forall|r: int| 0 <= r < table.len() implies (#[trigger] table[r]).len() == total by {
            assert(table[0].len() == width);
            if r > 0 {
                assert(codes[r - 1].len() == ref_len);
            }
        }
        assert(rows@.len() * total > 0) by (nonlinear_arith)
            requires
                rows@.len() > 0,
                total > 0,
        ;
    }
    BatchTensor::from_rows(&rows, total)
}

/// Turns requests into prompts.
pub struct PromptBuilder {
    tokenizer: TextTokenizer,
    semantic_begin_id: i64,
    num_codebooks: usize,
}

impl PromptBuilder {
    pub closed spec fn tokenizer(self) -> TextTokenizer {
        self.tokenizer
    }

    /// Whether the tokenizer draws random numbers.
    pub open spec fn draws(self) -> bool {
        self.tokenizer().draws()
    }

    pub closed spec fn begin_id(self) -> i64 {
        self.semantic_begin_id
    }

    pub closed spec fn codebooks(self) -> nat {
        self.num_codebooks as nat
    }

    /// The reference codes have one row per codebook and at least one column.
    pub open spec fn fits(self, reference_codes: &CodeGrid) -> bool {
        reference_codes.rows().len() == self.codebooks() && reference_codes.width() > 0
    }

    /// The ids before and behind the reference codes, or the first fault that a
    /// text of the request has.
    pub open spec fn prompt_ids(self, target_text: Seq<char>, reference_text: Seq<char>) -> Result<
        (Seq<i64>, Seq<i64>),
        EncodeFault,
    > {
        match encoded_all(self.tokenizer(), prefix_texts(reference_text)) {
            Ok(prefix) => match encoded_all(self.tokenizer(), suffix_texts(target_text)) {
                Ok(suffix) => Ok((prefix, suffix)),
                Err(fault) => Err(fault),
            },
            Err(fault) => Err(fault),
        }
    }

    /// What encoding the texts of a request may give, whatever is drawn.
    pub open spec fn may_prompt(
        self,
        target_text: Seq<char>,
        reference_text: Seq<char>,
        r: Result<(Seq<i64>, Seq<i64>), EncodeFault>,
    ) -> bool {
        let before = prefix_texts(reference_text);
        let behind = suffix_texts(target_text);
        match r {
            Ok((prefix, suffix)) => {
                &&& may_encode_all(self.tokenizer(), before, Ok(prefix))
                &&& may_encode_all(self.tokenizer(), behind, Ok(suffix))
            },
            Err(fault) => {
                ||| may_encode_all(self.tokenizer(), before, Err(fault))
                ||| may_encode_all(self.tokenizer(), behind, Err(fault)) && exists|
                    prefix: Seq<i64>,
                |
                    #[trigger] may_encode_all(self.tokenizer(), before, Ok(prefix))
            },
        }
    }

    /// A builder with the tokenizer that `tokenizer_json` describes.
    pub fn new(tokenizer_json: &str, semantic_begin_id: i64, num_codebooks: usize) -> (r: Result<
        PromptBuilder,
        PromptError,
    >)
        ensures
            match r {
                Ok(b) => {
                    &&& is_loaded(Ok(b.tokenizer()), tokenizer_json@)
                    &&& b.begin_id() == semantic_begin_id
                    &&& b.codebooks() == num_codebooks
                },
                Err(PromptError::Tokenizer(e)) => is_loaded(Err(e), tokenizer_json@),
                Err(_) => false,
            },
    {
        match TextTokenizer::load(tokenizer_json) {
            Ok(tokenizer) => Ok(PromptBuilder { tokenizer, semantic_begin_id, num_codebooks }),
            Err(e) => Err(PromptError::Tokenizer(e)),
        }
    }

    /// Whether the tokenizer draws random numbers, so that one text can have
    /// several encodings.
    pub fn is_random(&self) -> (r: bool)
        ensures
            r == self.draws(),
    {
        self.tokenizer.is_random()
    }

    /// The token ids of `text`, without special tokens around them.
    pub fn encode_text(&self, text: &str) -> (r: Result<Vec<i64>, PromptError>)
        ensures
            r matches Err(e) ==> fault_of(e) is Some,
            may_encode(self.tokenizer(), text@, outcome(r)),
            !self.draws() ==> outcome(r) == encoded(self.tokenizer(), text@),
    {
        match self.tokenizer.encode(text) {
            Ok(ids) => {
                assert(self.tokenizer().may_give(text@, Ok(ids@)));
                Ok(widen_ids(&ids))
            },
            Err(e) => Err(PromptError::Tokenizer(e)),
        }
    }

    /// The token ids of `texts`, each encoded by itself.
    pub fn encode_texts(&self, texts: &Vec<String>) -> (r: Result<Vec<i64>, PromptError>)
        ensures
            r matches Err(e) ==> fault_of(e) is Some,
            may_encode_all(self.tokenizer(), text_views(texts@), outcome(r)),
            !self.draws() ==> outcome(r) == encoded_all(self.tokenizer(), text_views(texts@)),
    {
        let mut parts: Vec<Vec<i64>> = Vec::new();
        let ghost views = text_views(texts@);
        proof {
            assert(views.take(0) =~= Seq::<Seq<char>>::empty());
            assert(row_views(parts@) =~= Seq::<Seq<i64>>::empty());
        }
        for i in 0..texts.len()
            invariant
                views == text_views(texts@),
                parts@.len() == i,
                may_be_parts(self.tokenizer(), views.take(i as int), row_views(parts@)),
                !self.draws() ==> encoded_all(self.tokenizer(), views.take(i as int)) == Ok::<
                    _,
                    EncodeFault,
                >(joined_ids(row_views(parts@))),
        {
            proof {
                assert(views.take(i + 1).drop_last() =~= views.take(i as int));
                assert(views.take(i + 1).last() == texts@[i as int]@);
            }
            let ghost before = row_views(parts@);
            match self.encode_text(&texts[i]) {
                Ok(ids) => {
                    parts.push(ids);
                    proof {
                        let after = row_views(parts@);
                        assert(after =~= before.push(ids@));
                        assert(after.drop_last() =~= before);
                        assert forall|k: int| 0 <= k < i + 1 implies may_encode(
                            self.tokenizer(),
                            views.take(i + 1)[k],
                            Ok(#[trigger] after[k]),
                        ) by {
                            if k < i {
                                assert(after[k] == before[k]);
                                assert(views.take(i + 1)[k] == views.take(i as int)[k]);
                            }
                        }
                    }
                },
                Err(e) => {
                    proof {
                        assert(before.len() == i);
                        assert(may_encode(
                            self.tokenizer(),
                            views[i as int],
                            Err(fault_of(e).unwrap()),
                        ));
                        if !self.draws() {
                            lemma_encoded_part(self.tokenizer(), views, i + 1);
                        }
                    }
                    return Err(e);
                },
            }
        }
        assert(views.take(texts@.len() as int) =~= views);
        Ok(join_ids(&parts))
    }

    /// The prompt for speaking `target_text` with the voice of a recording, of
    /// which `reference_text` is the wording and `reference_codes` are the
    /// codes.
    pub fn build(&self, target_text: &str, reference_text: &str, reference_codes: &CodeGrid) -> (r:
        Result<BatchTensor, PromptError>)
        requires
            self.fits(reference_codes) ==> semantic_ids_fit(reference_codes.rows(), self.begin_id()),
        ensures
            match r {
                Err(PromptError::CodeShape { codebooks, rows, cols }) => {
                    &&& !self.fits(reference_codes)
                    &&& codebooks == self.codebooks()
                    &&& rows == reference_codes.rows().len()
                    &&& cols == reference_codes.width()
                },
                Err(e) => {
                    &&& self.fits(reference_codes)
                    &&& fault_of(e) is Some
                    &&& self.may_prompt(
                        target_text@,
                        reference_text@,
                        Err(fault_of(e).unwrap()),
                    )
                    &&& !self.draws() ==> self.prompt_ids(target_text@, reference_text@) == Err::<
                        (Seq<i64>, Seq<i64>),
                        _,
                    >(fault_of(e).unwrap())
                },
                Ok(p) => {
                    &&& self.fits(reference_codes)
                    &&& exists|front: Seq<i64>, back: Seq<i64>|
                        self.may_prompt(target_text@, reference_text@, Ok((front, back)))
                            && p.rows() == #[trigger] prompt_table(
                            front,
                            back,
                            reference_codes.rows(),
                            self.begin_id(),
                        ) && p.width() == front.len() + reference_codes.width() + back.len()
                    &&& !self.draws() ==> (self.prompt_ids(target_text@, reference_text@) matches Ok(
                        (prefix, suffix),
                    ) && p.rows() == prompt_table(
                        prefix,
                        suffix,
                        reference_codes.rows(),
                        self.begin_id(),
                    ) && p.width() == prefix.len() + reference_codes.width() + suffix.len())
                },
            },
    {
        let (rows, cols) = reference_codes.dim();
        if rows != self.num_codebooks || cols == 0 {
            return Err(PromptError::CodeShape { codebooks: self.num_codebooks, rows, cols });
        }
        let (before, behind) = prompt_texts(target_text, reference_text);
        let prefix: Vec<i64> = match self.encode_texts(&before) {
            Ok(ids) => ids,
            Err(e) => {
                return Err(e);
            },
        };
        let suffix: Vec<i64> = match self.encode_texts(&behind) {
            Ok(ids) => ids,
            Err(e) => {
                return Err(e);
            },
        };
        Ok(assemble(&prefix, &suffix, reference_codes, self.semantic_begin_id))
    }
}

/// The contents of a vector of strings.
pub open spec fn text_views(texts: Seq<String>) -> Seq<Seq<char>> {
    texts.map_values(|t: String| t@)
}

/// The texts of a request, in the order in which they are encoded: those before
/// the reference codes, and those behind them.
pub fn prompt_texts(target_text: &str, reference_text: &str) -> (r: (Vec<String>, Vec<String>))
    ensures
        text_views(r.0@) == prefix_texts(reference_text@),
        text_views(r.1@) == suffix_texts(target_text@),
{
    let mut before: Vec<String> = Vec::new();
    before.push("<|im_start|>system\n".to_owned());
    before.push(
        "convert the provided text to speech reference to the following:\n\nText:\n".to_owned(),
    );
    before.push(format_reference_text(reference_text));
    before.push("\n\nSpeech:\n".to_owned());
    let mut behind: Vec<String> = Vec::new();
    behind.push("<|im_end|>\n".to_owned());
    behind.push("<|im_start|>user\n".to_owned());
    behind.push(clean_text(target_text));
    behind.push("<|im_end|>\n".to_owned());
    behind.push("<|im_start|>assistant\n<|voice|>".to_owned());
    assert(text_views(before@) =~= prefix_texts(reference_text@));
    assert(text_views(behind@) =~= suffix_texts(target_text@));
    (before, behind)
}

/// Where the first texts have a fault, the whole has it.
proof fn lemma_encoded_part(t: TextTokenizer, texts: Seq<Seq<char>>, n: int)
    requires
        0 <= n <= texts.len(),
        encoded_all(t, texts.take(n)) is Err,
    ensures
        encoded_all(t, texts) == encoded_all(t, texts.take(n)),
    decreases texts.len() - n,
{
    if n < texts.len() {
        assert(texts.take(n + 1).drop_last() =~= texts.take(n));
        lemma_encoded_part(t, texts, n + 1);
    } else {
        assert(texts.take(n) =~= texts);
    }
}

fn widen_ids(ids: &Vec<u32>) -> (r: Vec<i64>)
    ensures
        r@ == widened_ids(ids@),
{
    let mut out: Vec<i64> = Vec::new();
    for i in 0..ids.len()
        invariant
            out@ == widened_ids(ids@.take(i as int)),
    {
        out.push(ids[i] as i64);
        assert(out@ =~= widened_ids(ids@.take(i + 1)));
    }
    assert(ids@.take(ids@.len() as int) =~= ids@);
    out
}

/// A prompt is rectangular: all its rows are as long as the prefix, the
/// reference and the suffix together.
pub proof fn law_prompt_rows_are_equally_long(
    prefix: Seq<i64>,
    suffix: Seq<i64>,
    codes: Seq<Seq<i64>>,
    width: nat,
    begin: i64,
)
    requires
        codes.len() > 0,
        rectangular(codes, width),
    ensures
        prompt_table(prefix, suffix, codes, begin).len() == codes.len() + 1,
        rectangular(
            prompt_table(prefix, suffix, codes, begin),
            prefix.len() + width + suffix.len(),
        ),
{
    let table = prompt_table(prefix, suffix, codes, begin);
    assert forall|r: int| 0 <= r < table.len() implies (#[trigger] table[r]).len() == prefix.len()
        + width + suffix.len() by {
        assert(codes[0].len() == width);
        if r > 0 {
            assert(codes[r - 1].len() == width);
        }
    }
}

/// The reference codes can be read back from a prompt: unchanged from the rows
/// of their codebooks, and from the first row as the distance to the first
/// semantic id. Outside the reference the codebook rows are zero.
pub proof fn law_prompt_keeps_reference(
    prefix: Seq<i64>,
    suffix: Seq<i64>,
    codes: Seq<Seq<i64>>,
    width: nat,
    begin: i64,
    cb: int,
    t: int,
)
    requires
        rectangular(codes, width),
        semantic_ids_fit(codes, begin),
        0 <= cb < codes.len(),
        0 <= t < prefix.len() + width + suffix.len(),
    ensures
        ({
            let table = prompt_table(prefix, suffix, codes, begin);
            let at = t - prefix.len();
            if 0 <= at < width {
                &&& table[cb + 1][t] == codes[cb][at]
                &&& table[0][t] - begin == codes[0][at]
            } else {
                &&& table[cb + 1][t] == 0
                &&& table[0][t] == if at < 0 {
                    prefix[t]
                } else {
                    suffix[at - width]
                }
            }
        }),
{
    assert(codes[0].len() == width);
    assert(codes[cb].len() == width);
    let at = t - prefix.len();
    if 0 <= at < width {
        assert(i64::MIN <= codes[0][at] + begin <= i64::MAX);
    }
}

/// Codes of a codebook with `size` entries have semantic ids within the `size`
/// ids from the first one on.
pub proof fn law_reference_ids_are_semantic(codes: Seq<i64>, begin: i64, size: i64, t: int)
    requires
        0 <= t < codes.len(),
        0 <= codes[t] < size,
        begin + size - 1 <= i64::MAX,
    ensures
        begin <= semantic_ids(codes, begin)[t] <= begin + size - 1,
{
}

/// The texts of a request hold the whole wording: put together, those before the
/// codes are the system's words around the reference text, and those behind them
/// are the user's tag, the whole cleaned target text and the assistant's tag.
pub proof fn law_prompt_texts_hold_the_whole_wording(
    target: &str,
    reference: &str,
    r: (Vec<String>, Vec<String>),
)
    requires
        call_ensures(prompt_texts, (target, reference), r),
    ensures
        r.0@.len() == 4,
        r.0@[0]@ == "<|im_start|>system\n"@,
        r.0@[0]@ + r.0@[1]@ + r.0@[2]@ + r.0@[3]@ == "<|im_start|>system\n"@
            + "convert the provided text to speech reference to the following:\n\nText:\n"@
            + reference_form(reference@) + "\n\nSpeech:\n"@,
        r.0@[2]@ == reference_form(reference@),
        r.0@[3]@ == "\n\nSpeech:\n"@,
        r.1@.len() == 5,
        r.1@[0]@ == "<|im_end|>\n"@,
        r.1@[1]@ == "<|im_start|>user\n"@,
        r.1@[2]@ == cleaned(target@),
        r.1@[0]@ + r.1@[1]@ + r.1@[2]@ + r.1@[3]@ + r.1@[4]@ == "<|im_end|>\n"@
            + "<|im_start|>user\n"@ + cleaned(target@) + "<|im_end|>\n"@
            + "<|im_start|>assistant\n<|voice|>"@,
        r.1@[4]@ == "<|im_start|>assistant\n<|voice|>"@,
{
    let a = text_views(r.0@);
    let b = text_views(r.1@);
    assert(a == prefix_texts(reference@) && b == suffix_texts(target@));
    assert(a[0] == r.0@[0]@ && a[1] == r.0@[1]@ && a[2] == r.0@[2]@ && a[3] == r.0@[3]@);
    assert(b[0] == r.1@[0]@ && b[1] == r.1@[1]@ && b[2] == r.1@[2]@ && b[3] == r.1@[3]@ && b[4]
        == r.1@[4]@);
}

/// Two requests whose cleaned target texts differ have different texts behind the
/// codes, and two whose reference texts differ have different ones before them;
/// the target text has no part in those before the codes, and the reference text
/// none in those behind.
pub proof fn law_different_wordings_differ(
    target1: Seq<char>,
    target2: Seq<char>,
    reference1: Seq<char>,
    reference2: Seq<char>,
)
    ensures
        suffix_texts(target1) == suffix_texts(target2) <==> cleaned(target1) == cleaned(target2),
        prefix_texts(reference1) == prefix_texts(reference2) <==> reference_form(reference1)
            == reference_form(reference2),
{
    assert(suffix_texts(target1)[2] == cleaned(target1));
    assert(suffix_texts(target2)[2] == cleaned(target2));
    assert(prefix_texts(reference1)[2] == reference_form(reference1));
    assert(prefix_texts(reference2)[2] == reference_form(reference2));
}

/// Texts are encoded one by one: the ids of two lists of texts are those of the
/// first followed by those of the second, the first fault counts, and the ids of
/// a single text are its tokens, unchanged.
pub proof fn law_texts_are_encoded_one_by_one(
    t: TextTokenizer,
    a: Seq<Seq<char>>,
    b: Seq<Seq<char>>,
    text: Seq<char>,
)
    ensures
        encoded_all(t, Seq::empty()) == Ok::<_, EncodeFault>(Seq::<i64>::empty()),
        encoded_all(t, a) is Err ==> encoded_all(t, a + b) == encoded_all(t, a),
        encoded_all(t, a) is Ok && encoded_all(t, b) is Err ==> encoded_all(t, a + b)
            == encoded_all(t, b),
        encoded_all(t, a) is Ok && encoded_all(t, b) is Ok ==> encoded_all(t, a + b) == Ok::<
            _,
            EncodeFault,
        >(encoded_all(t, a)->Ok_0 + encoded_all(t, b)->Ok_0),
        match (t.ids(text), encoded_all(t, seq![text])) {
            (Ok(raw), Ok(ids)) => ids.len() == raw.len() && forall|i: int|
                0 <= i < raw.len() ==> #[trigger] ids[i] == raw[i] as int,
            (Err(e), Err(f)) => e == f,
            _ => false,
        },
    decreases b.len(),
{
    assert(seq![text].drop_last() =~= Seq::<Seq<char>>::empty());
    assert(encoded_all(t, Seq::empty()) == Ok::<_, EncodeFault>(Seq::<i64>::empty()));
    match encoded(t, text) {
        Ok(ids) => {
            assert(Seq::<i64>::empty() + ids =~= ids);
        },
        Err(_) => {},
    }
    if b.len() == 0 {
        assert(a + b =~= a);
        if encoded_all(t, a) is Ok {
            assert(encoded_all(t, a)->Ok_0 + Seq::<i64>::empty() =~= encoded_all(t, a)->Ok_0);
        }
    } else {
        law_texts_are_encoded_one_by_one(t, a, b.drop_last(), text);
        assert((a + b).drop_last() =~= a + b.drop_last());
        assert((a + b).last() == b.last());
        match (encoded_all(t, a), encoded_all(t, b.drop_last()), encoded(t, b.last())) {
            (Ok(x), Ok(y), Ok(z)) => {
                assert(x + y + z =~= x + (y + z));
            },
            _ => {},
        }
    }
}

/// Parts that are joined follow one another, with nothing lost and nothing
/// between them.
pub proof fn law_joined_parts_follow_one_another(
    parts: &Vec<Vec<i64>>,
    r: Vec<i64>,
    front: &Vec<Vec<i64>>,
    a: Vec<i64>,
    last: Seq<i64>,
)
    requires
        call_ensures(join_ids, (parts,), r),
        call_ensures(join_ids, (front,), a),
        parts@.len() == front@.len() + 1,
        forall|i: int| 0 <= i < front@.len() ==> (#[trigger] parts@[i])@ == front@[i]@,
        parts@.last()@ == last,
    ensures
        r@ == a@ + last,
        front@.len() == 0 ==> a@.len() == 0,
{
    let views = row_views(parts@);
    assert(views.drop_last() =~= row_views(front@)) by {
        assert forall|i: int| 0 <= i < front@.len() implies views.drop_last()[i] == row_views(
            front@,
        )[i] by {
            assert(parts@[i]@ == front@[i]@);
        }
    }
    assert(views.last() == last);
}

/// A prompt, where nothing is drawn: its first row holds the ids of the texts
/// before the codes, the semantic ids of the reference and the ids of the texts
/// behind them; each row of a codebook holds its codes under the semantic ids,
/// and zeros elsewhere. It is refused where the codes do not have a row for each
/// codebook or no column, and only there.
pub proof fn law_prompt_is_texts_around_codes(
    b: &PromptBuilder,
    target: &str,
    reference: &str,
    codes: &CodeGrid,
    r: Result<BatchTensor, PromptError>,
    before: Seq<i64>,
    behind: Seq<i64>,
    cb: int,
)
    requires
        call_ensures(PromptBuilder::build, (b, target, reference, codes), r),
        !b.draws(),
        encoded_all(b.tokenizer(), prefix_texts(reference@)) == Ok::<_, EncodeFault>(before),
        encoded_all(b.tokenizer(), suffix_texts(target@)) == Ok::<_, EncodeFault>(behind),
        0 <= cb < codes.rows().len(),
        rectangular(codes.rows(), codes.width()),
        semantic_ids_fit(codes.rows(), b.begin_id()),
    ensures
        r is Ok <==> codes.rows().len() == b.codebooks() && codes.width() > 0,
        r matches Ok(p) ==> {
            &&& p.rows().len() == codes.rows().len() + 1
            &&& p.rows()[0].len() == before.len() + codes.width() + behind.len()
            &&& forall|t: int| 0 <= t < before.len() ==> #[trigger] p.rows()[0][t] == before[t]
            &&& forall|t: int|
                0 <= t < codes.width() ==> p.rows()[0][before.len() + t] - b.begin_id()
                    == #[trigger] codes.rows()[0][t]
            &&& forall|t: int|
                0 <= t < behind.len() ==> p.rows()[0][before.len() + codes.width() + t]
                    == #[trigger] behind[t]
            &&& p.rows()[cb + 1].len() == p.rows()[0].len()
            &&& forall|t: int|
                0 <= t < codes.width() ==> p.rows()[cb + 1][before.len() + t]
                    == #[trigger] codes.rows()[cb][t]
            &&& forall|t: int|
                0 <= t < before.len() || before.len() + codes.width() <= t < p.rows()[0].len()
                    ==> #[trigger] p.rows()[cb + 1][t] == 0
        },
{
    assert(codes.rows()[0].len() == codes.width());
    assert(codes.rows()[cb].len() == codes.width());
    if r is Ok {
        assert forall|t: int| 0 <= t < codes.width() implies r->Ok_0.rows()[0][before.len() + t]
            - b.begin_id() == #[trigger] codes.rows()[0][t] by {
            assert(i64::MIN <= codes.rows()[0][t] + b.begin_id() <= i64::MAX);
        }
    }
}

} // verus!
