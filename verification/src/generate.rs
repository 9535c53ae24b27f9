//! The autoregressive loop: which model step to run next, what to do with each
//! token that is drawn, and the codes that come out.
//!
//! A [`Generation`] names the next [`Action`]; the caller performs it on the
//! models and hands back what happened as an [`Event`].

use vstd::prelude::*;

use crate::chars::copy_range;
use crate::grid::{rectangular, row_views, CodeGrid};
use crate::manifest::RuntimeManifest;

verus! {

/// How many of the latest semantic tokens count as recent.
pub const RECENT: usize = 10;

/// The sizes and ids that a generation goes by.
#[derive(Clone, Copy)]
pub struct Plan {
    /// The number of columns of the prompt.
    pub prompt_len: usize,
    /// The largest number of frames.
    pub max_new: usize,
    pub semantic_begin_id: i64,
    /// The token that ends the speech.
    pub stop_id: i64,
    pub codebook_size: usize,
    pub num_codebooks: usize,
}

impl Plan {
    /// There are codebooks, and the positions can be numbered.
    pub open spec fn wf(self) -> bool {
        &&& 1 <= self.num_codebooks
        &&& self.prompt_len + self.max_new <= usize::MAX
    }

    /// The codebooks have entries, and these can be numbered.
    pub open spec fn has_codes(self) -> bool {
        1 <= self.codebook_size <= i64::MAX
    }
}

/// What the generation waits for.
#[derive(Clone, Copy, PartialEq, Eq, Structural)]
pub enum Stage {
    /// The prompt is to be run through the slow model.
    Prompt,
    /// A semantic token is to be drawn.
    Semantic,
    /// The hidden state of the slow model is to be run through the fast model.
    Open,
    /// The latest code is to be run through the fast model, and the next one to
    /// be drawn.
    Fast,
    /// The finished frame is to be run through the slow model.
    Slow,
    /// Nothing more is to be done.
    Done,
}

/// What happened.
#[derive(Clone, Copy)]
pub enum Event {
    /// A model step was run.
    Ran,
    /// A token was drawn.
    Drawn(i64),
}

/// What to do next.
#[derive(Debug)]
pub enum Action {
    /// Run the slow model on the prompt, at the positions from zero on.
    RunPrompt { len: usize },
    /// Draw a semantic token from the latest logits of the slow model, with
    /// regard to the recent ones.
    DrawSemantic,
    /// Run the fast model on the hidden state of the slow model, at position
    /// zero, with empty caches.
    OpenFrame,
    /// Run the fast model on a code at a position, and draw a code from the
    /// logits.
    DrawCode { code: i64, position: usize },
    /// Run the slow model on one column at a position.
    RunSlow { column: Vec<i64>, position: usize },
    /// Stop.
    Stop,
}

/// The form of an action in specifications.
pub enum SpecAction {
    RunPrompt { len: usize },
    DrawSemantic,
    OpenFrame,
    DrawCode { code: i64, position: usize },
    RunSlow { column: Seq<i64>, position: usize },
    Stop,
}

impl View for Action {
    type V = SpecAction;

    open spec fn view(&self) -> SpecAction {
        match *self {
            Action::RunPrompt { len } => SpecAction::RunPrompt { len },
            Action::DrawSemantic => SpecAction::DrawSemantic,
            Action::OpenFrame => SpecAction::OpenFrame,
            Action::DrawCode { code, position } => SpecAction::DrawCode { code, position },
            Action::RunSlow { column, position } => SpecAction::RunSlow {
                column: column@,
                position,
            },
            Action::Stop => SpecAction::Stop,
        }
    }
}

/// How far a generation has come.
pub ghost struct Progress {
    pub stage: Stage,
    /// The recent semantic tokens, the latest last.
    pub recent: Seq<i64>,
    /// The semantic token of the frame in work.
    pub semantic: i64,
    /// The codes of the frame in work.
    pub codes: Seq<i64>,
    /// The finished frames.
    pub frames: Seq<Seq<i64>>,
}

/// The start of a generation.
pub open spec fn initial() -> Progress {
    Progress {
        stage: Stage::Prompt,
        recent: Seq::empty(),
        semantic: 0,
        codes: Seq::empty(),
        frames: Seq::empty(),
    }
}

/// The first code of a frame: how far its semantic token lies behind the first
/// one, kept within the codebook.
pub open spec fn first_code(semantic: i64, begin: i64, codebook_size: usize) -> i64 {
    if semantic - begin < 0 {
        0
    } else if semantic - begin > codebook_size - 1 {
        (codebook_size - 1) as i64
    } else {
        (semantic - begin) as i64
    }
}

/// The recent tokens after one more.
pub open spec fn remembered(recent: Seq<i64>, semantic: i64) -> Seq<i64> {
    let all = recent.push(semantic);
    if all.len() > RECENT {
        all.drop_first()
    } else {
        all
    }
}

/// Goes on with the frame in work, or closes it where it has all its codes.
/// The last frame that is allowed is not run through the slow model any more.
pub open spec fn after_code(plan: Plan, p: Progress) -> Progress {
    if p.codes.len() < plan.num_codebooks {
        Progress { stage: Stage::Fast, ..p }
    } else {
        Progress {
            stage: if p.frames.len() + 1 >= plan.max_new {
                Stage::Done
            } else {
                Stage::Slow
            },
            frames: p.frames.push(p.codes),
            ..p
        }
    }
}

/// Whether `event` is what the generation waits for.
pub open spec fn awaited(stage: Stage, event: Event) -> bool {
    match stage {
        Stage::Prompt | Stage::Open | Stage::Slow => event is Ran,
        Stage::Semantic | Stage::Fast => event is Drawn,
        Stage::Done => false,
    }
}

/// The progress after an event.
pub open spec fn after(plan: Plan, p: Progress, event: Event) -> Progress {
    match (p.stage, event) {
        (Stage::Prompt, Event::Ran) => Progress {
            stage: if plan.max_new == 0 {
                Stage::Done
            } else {
                Stage::Semantic
            },
            ..p
        },
        (Stage::Semantic, Event::Drawn(token)) => if token == plan.stop_id {
            Progress { stage: Stage::Done, ..p }
        } else {
            Progress {
                stage: Stage::Open,
                recent: remembered(p.recent, token),
                semantic: token,
                codes: seq![first_code(token, plan.semantic_begin_id, plan.codebook_size)],
                ..p
            }
        },
        (Stage::Open, Event::Ran) => after_code(plan, p),
        (Stage::Fast, Event::Drawn(token)) => after_code(
            plan,
            Progress { codes: p.codes.push(token), ..p },
        ),
        (Stage::Slow, Event::Ran) => Progress { stage: Stage::Semantic, ..p },
        _ => p,
    }
}

/// What to do next.
pub open spec fn due(plan: Plan, p: Progress) -> SpecAction {
    match p.stage {
        Stage::Prompt => SpecAction::RunPrompt { len: plan.prompt_len },
        Stage::Semantic => SpecAction::DrawSemantic,
        Stage::Open => SpecAction::OpenFrame,
        Stage::Fast => SpecAction::DrawCode {
            code: p.codes.last(),
            position: p.codes.len() as usize,
        },
        Stage::Slow => SpecAction::RunSlow {
            column: seq![p.semantic] + p.codes,
            position: slow_position(plan, p) as usize,
        },
        Stage::Done => SpecAction::Stop,
    }
}

/// The position of the slow model's next step.
pub open spec fn slow_position(plan: Plan, p: Progress) -> int {
    plan.prompt_len + p.frames.len() - 1
}

/// What holds throughout a generation.
pub open spec fn consistent(plan: Plan, p: Progress) -> bool {
    &&& p.recent.len() <= RECENT
    &&& p.frames.len() <= plan.max_new
    &&& rectangular(p.frames, plan.num_codebooks as nat)
    &&& plan.has_codes() ==> forall|i: int|
        0 <= i < p.frames.len() ==> 0 <= (#[trigger] p.frames[i])[0] < plan.codebook_size
    &&& match p.stage {
        Stage::Prompt => p.frames.len() == 0,
        Stage::Semantic => p.frames.len() < plan.max_new,
        Stage::Open => {
            &&& p.frames.len() < plan.max_new
            &&& p.codes.len() == 1
            &&& plan.has_codes() ==> 0 <= p.codes[0] < plan.codebook_size
        },
        Stage::Fast => {
            &&& p.frames.len() < plan.max_new
            &&& 1 <= p.codes.len() < plan.num_codebooks
            &&& plan.has_codes() ==> 0 <= p.codes[0] < plan.codebook_size
        },
        Stage::Slow => {
            &&& 0 < p.frames.len() < plan.max_new
            &&& p.codes == p.frames.last()
        },
        Stage::Done => true,
    }
}

/// Why there are no codes.
#[derive(Debug)]
pub enum GenerationError {
    /// The prompt fills the model's memory.
    PromptTooLong { prompt_len: usize, max_seq_len: usize },
    /// The first semantic token ended the speech, or no frame was asked for.
    NoFrames,
}

/// The codes of `frames` with one row per codebook.
pub open spec fn codes_of(frames: Seq<Seq<i64>>, num_codebooks: nat) -> Seq<Seq<i64>> {
    Seq::new(num_codebooks, |row: int| Seq::new(frames.len(), |col: int| frames[col][row]))
}

/// A generation in work.
pub struct Generation {
    plan: Plan,
    stage: Stage,
    recent: Vec<i64>,
    semantic: i64,
    codes: Vec<i64>,
    frames: Vec<Vec<i64>>,
}

impl View for Generation {
    type V = Progress;

    closed spec fn view(&self) -> Progress {
        Progress {
            stage: self.stage,
            recent: self.recent@,
            semantic: self.semantic,
            codes: self.codes@,
            frames: row_views(self.frames@),
        }
    }
}

impl Generation {
    pub closed spec fn plan(self) -> Plan {
        self.plan
    }

    /// The plan is sound, and the progress is one that a generation can make.
    pub open spec fn valid(self) -> bool {
        self.plan().wf() && consistent(self.plan(), self@)
    }

    /// A generation behind a prompt of `prompt_len` columns, of at most
    /// `max_new_tokens` frames and no more than the model's memory holds.
    pub fn start(manifest: &RuntimeManifest, prompt_len: usize, max_new_tokens: usize) -> (r: Result<
        Generation,
        GenerationError,
    >)
        requires
            1 <= manifest.num_codebooks,
        ensures
            match r {
                Ok(g) => {
                    &&& prompt_len < manifest.max_seq_len
                    &&& g.valid()
                    &&& g@ == initial()
                    &&& g.plan() == planned(manifest, prompt_len, max_new_tokens)
                },
                Err(GenerationError::PromptTooLong { prompt_len: len, max_seq_len }) => {
                    &&& prompt_len >= manifest.max_seq_len
                    &&& len == prompt_len
                    &&& max_seq_len == manifest.max_seq_len
                },
                Err(GenerationError::NoFrames) => false,
            },
    {
        if prompt_len >= manifest.max_seq_len {
            return Err(
                GenerationError::PromptTooLong { prompt_len, max_seq_len: manifest.max_seq_len },
            );
        }
        let room: usize = manifest.max_seq_len - prompt_len;
        let plan = Plan {
            prompt_len,
            max_new: if max_new_tokens < room {
                max_new_tokens
            } else {
                room
            },
            semantic_begin_id: manifest.semantic_begin_id,
            stop_id: manifest.im_end_id,
            codebook_size: manifest.codebook_size,
            num_codebooks: manifest.num_codebooks,
        };
        let g = Generation {
            plan,
            stage: Stage::Prompt,
            recent: Vec::new(),
            semantic: 0,
            codes: Vec::new(),
            frames: Vec::new(),
        };
        assert(row_views(g.frames@) =~= Seq::<Seq<i64>>::empty());
        Ok(g)
    }

    /// What to do next.
    pub fn next_action(&self) -> (r: Action)
        requires
            self.valid(),
        ensures
            r@ == due(self.plan(), self@),
    {
        match self.stage {
            Stage::Prompt => Action::RunPrompt { len: self.plan.prompt_len },
            Stage::Semantic => Action::DrawSemantic,
            Stage::Open => Action::OpenFrame,
            Stage::Fast => Action::DrawCode {
                code: self.codes[self.codes.len() - 1],
                position: self.codes.len(),
            },
            Stage::Slow => {
                let mut column: Vec<i64> = Vec::new();
                column.push(self.semantic);
                for i in 0..self.codes.len()
                    invariant
                        column@ == seq![self.semantic] + self.codes@.take(i as int),
                {
                    column.push(self.codes[i]);
                    assert(column@ =~= seq![self.semantic] + self.codes@.take(i + 1));
                }
                assert(self.codes@.take(self.codes@.len() as int) =~= self.codes@);
                Action::RunSlow { column, position: self.plan.prompt_len + (self.frames.len() - 1) }
            },
            Stage::Done => Action::Stop,
        }
    }

    /// The recent semantic tokens, the latest last.
    pub fn recent(&self) -> (r: &Vec<i64>)
        ensures
            r@ == self@.recent,
    {
        &self.recent
    }

    /// Whether nothing more is to be done.
    pub fn is_done(&self) -> (r: bool)
        ensures
            r == (self@.stage == Stage::Done),
    {
        self.stage == Stage::Done
    }

    /// Takes in what happened. A token that does not end the speech needs
    /// codebooks with entries.
    pub fn advance(&mut self, event: Event)
        requires
            old(self).valid(),
            awaited(old(self)@.stage, event),
            old(self)@.stage == Stage::Semantic && event != Event::Drawn(old(self).plan().stop_id)
                ==> old(self).plan().has_codes(),
        ensures
            final(self).valid(),
            final(self).plan() == old(self).plan(),
            final(self)@ == after(old(self).plan(), old(self)@, event),
    {
        let ghost plan = self.plan;
        let ghost before = self@;
        match (self.stage, event) {
            (Stage::Prompt, Event::Ran) => {
                self.stage = if self.plan.max_new == 0 {
                    Stage::Done
                } else {
                    Stage::Semantic
                };
            },
            (Stage::Semantic, Event::Drawn(token)) => {
                if token == self.plan.stop_id {
                    self.stage = Stage::Done;
                } else {
                    self.recent.push(token);
                    if self.recent.len() > RECENT {
                        let all: Vec<i64> = copy_range(&self.recent, 1, self.recent.len());
                        self.recent = all;
                    }
                    self.semantic = token;
                    let mut codes: Vec<i64> = Vec::new();
                    codes.push(
                        code_of_semantic(
                            token,
                            self.plan.semantic_begin_id,
                            self.plan.codebook_size,
                        ),
                    );
                    self.codes = codes;
                    self.stage = Stage::Open;
                    proof {
                        assert(self.recent@ =~= remembered(before.recent, token));
                        assert(self.codes@ =~= seq![
                            first_code(token, plan.semantic_begin_id, plan.codebook_size),
                        ]);
                    }
                }
            },
            (Stage::Open, Event::Ran) => {
                self.close_frame();
            },
            (Stage::Fast, Event::Drawn(token)) => {
                self.codes.push(token);
                self.close_frame();
            },
            (Stage::Slow, Event::Ran) => {
                self.stage = Stage::Semantic;
            },
            _ => {},
        }
    }

    fn close_frame(&mut self)
        requires
            old(self).plan().wf(),
            old(self)@.recent.len() <= RECENT,
            rectangular(old(self)@.frames, old(self).plan().num_codebooks as nat),
            old(self).plan().has_codes() ==> forall|i: int|
                0 <= i < old(self)@.frames.len() ==> 0 <= (#[trigger] old(self)@.frames[i])[0]
                    < old(self).plan().codebook_size,
            old(self)@.frames.len() < old(self).plan().max_new,
            1 <= old(self)@.codes.len() <= old(self).plan().num_codebooks,
            old(self).plan().has_codes() ==> 0 <= old(self)@.codes[0] < old(
                self,
            ).plan().codebook_size,
        ensures
            final(self).valid(),
            final(self).plan() == old(self).plan(),
            final(self)@ == after_code(old(self).plan(), old(self)@),
    {
        if self.codes.len() < self.plan.num_codebooks {
            self.stage = Stage::Fast;
        } else {
            let frame: Vec<i64> = copy_range(&self.codes, 0, self.codes.len());
            assert(frame@ =~= self.codes@);
            self.frames.push(frame);
            self.stage = if self.frames.len() >= self.plan.max_new {
                Stage::Done
            } else {
                Stage::Slow
            };
            proof {
                assert(row_views(self.frames@) =~= row_views(old(self).frames@).push(self.codes@));
            }
        }
    }

    /// The codes of all frames, one row per codebook.
    pub fn finish(&self) -> (r: Result<CodeGrid, GenerationError>)
        requires
            self.valid(),
        ensures
            match r {
                Ok(codes) => {
                    &&& self@.frames.len() > 0
                    &&& codes.rows() == codes_of(self@.frames, self.plan().num_codebooks as nat)
                    &&& codes.width() == self@.frames.len()
                },
                Err(GenerationError::NoFrames) => self@.frames.len() == 0,
                Err(GenerationError::PromptTooLong { .. }) => false,
            },
    {
        let width: usize = self.frames.len();
        if width == 0 {
            return Err(GenerationError::NoFrames);
        }
        let height: usize = self.plan.num_codebooks;
        let ghost target = codes_of(self@.frames, height as nat);
        let mut rows: Vec<Vec<i64>> = Vec::new();
        for row in 0..height
            invariant
                height == self.plan.num_codebooks,
                width == self.frames@.len(),
                rectangular(row_views(self.frames@), height as nat),
                target == codes_of(row_views(self.frames@), height as nat),
                rows@.len() == row,
                forall|r: int| #![trigger rows@[r]] 0 <= r < row ==> rows@[r]@ == target[r],
        {
            let mut line: Vec<i64> = Vec::new();
            for col in 0..width
                invariant
                    row < height,
                    width == self.frames@.len(),
                    rectangular(row_views(self.frames@), height as nat),
                    target == codes_of(row_views(self.frames@), height as nat),
                    line@ == target[row as int].take(col as int),
            {
                assert(row_views(self.frames@)[col as int].len() == height);
                line.push(self.frames[col][row]);
                assert(line@ =~= target[row as int].take(col + 1));
            }
            assert(line@ =~= target[row as int]);
            rows.push(line);
        }
        assert(row_views(rows@) =~= target);
        assert(rows@.len() * width > 0) by (nonlinear_arith)
            requires
                rows@.len() > 0,
                width > 0,
        ;
        Ok(CodeGrid::from_rows(&rows, width))
    }
}

/// The plan of a generation that a manifest, a prompt and a wish give.
pub open spec fn planned(
    manifest: &RuntimeManifest,
    prompt_len: usize,
    max_new_tokens: usize,
) -> Plan {
    let room = manifest.max_seq_len - prompt_len;
    Plan {
        prompt_len,
        max_new: if max_new_tokens < room {
            max_new_tokens
        } else {
            room as usize
        },
        semantic_begin_id: manifest.semantic_begin_id,
        stop_id: manifest.im_end_id,
        codebook_size: manifest.codebook_size,
        num_codebooks: manifest.num_codebooks,
    }
}

/// The first code of a frame.
pub fn code_of_semantic(semantic: i64, begin: i64, codebook_size: usize) -> (r: i64)
    requires
        1 <= codebook_size <= i64::MAX,
    ensures
        r == first_code(semantic, begin, codebook_size),
{
    let distance: i128 = semantic as i128 - begin as i128;
    let top: i128 = codebook_size as i128 - 1;
    if distance < 0 {
        0
    } else if distance > top {
        top as i64
    } else {
        distance as i64
    }
}

/// The progress after `events`, one after the other.
pub open spec fn run(plan: Plan, events: Seq<Event>) -> Progress
    decreases events.len(),
{
    if events.len() == 0 {
        initial()
    } else {
        after(plan, run(plan, events.drop_last()), events.last())
    }
}

/// Each event came when it was awaited.
pub open spec fn in_order(plan: Plan, events: Seq<Event>) -> bool
    decreases events.len(),
{
    events.len() == 0 || (in_order(plan, events.drop_last()) && awaited(
        run(plan, events.drop_last()).stage,
        events.last(),
    ))
}

/// The semantic tokens that were drawn and did not end the speech.
pub open spec fn semantics_drawn(plan: Plan, events: Seq<Event>) -> Seq<i64>
    decreases events.len(),
{
    if events.len() == 0 {
        Seq::empty()
    } else {
        let earlier = semantics_drawn(plan, events.drop_last());
        match (run(plan, events.drop_last()).stage, events.last()) {
            (Stage::Semantic, Event::Drawn(token)) => if token == plan.stop_id {
                earlier
            } else {
                earlier.push(token)
            },
            _ => earlier,
        }
    }
}

/// The positions at which the slow model was run behind the prompt.
pub open spec fn positions_run(plan: Plan, events: Seq<Event>) -> Seq<int>
    decreases events.len(),
{
    if events.len() == 0 {
        Seq::empty()
    } else {
        let earlier = positions_run(plan, events.drop_last());
        let p = run(plan, events.drop_last());
        match (p.stage, events.last()) {
            (Stage::Slow, Event::Ran) => earlier.push(slow_position(plan, p)),
            _ => earlier,
        }
    }
}

/// Whatever is drawn, a generation stays consistent: it never has more frames
/// than planned, every frame has one code per codebook, and the first one lies
/// within the codebook, if that has entries.
pub proof fn law_generation_stays_consistent(plan: Plan, events: Seq<Event>)
    requires
        plan.wf(),
    ensures
        consistent(plan, run(plan, events)),
    decreases events.len(),
{
    if events.len() > 0 {
        law_generation_stays_consistent(plan, events.drop_last());
    }
}

/// The slow model is run at the positions that follow the prompt, one after the
/// other without a gap, and never beyond the planned room.
pub proof fn law_positions_follow_the_prompt(plan: Plan, events: Seq<Event>)
    requires
        plan.wf(),
    ensures
        forall|i: int|
            0 <= i < positions_run(plan, events).len() ==> #[trigger] positions_run(plan, events)[i]
                == plan.prompt_len + i,
        positions_run(plan, events).len() < plan.max_new || plan.max_new == 0,
        run(plan, events).stage == Stage::Slow ==> slow_position(plan, run(plan, events))
            == plan.prompt_len + positions_run(plan, events).len(),
        run(plan, events).stage == Stage::Slow ==> slow_position(plan, run(plan, events))
            < plan.prompt_len + plan.max_new,
{
    lemma_positions(plan, events);
}

proof fn lemma_positions(plan: Plan, events: Seq<Event>)
    requires
        plan.wf(),
    ensures
        forall|i: int|
            0 <= i < positions_run(plan, events).len() ==> #[trigger] positions_run(plan, events)[i]
                == plan.prompt_len + i,
        positions_run(plan, events).len() < plan.max_new || plan.max_new == 0,
        ({
            let p = run(plan, events);
            let count = positions_run(plan, events).len();
            match p.stage {
                Stage::Done => count <= p.frames.len() <= count + 1,
                Stage::Slow => p.frames.len() == count + 1,
                _ => p.frames.len() == count,
            }
        }),
        plan.max_new == 0 ==> positions_run(plan, events).len() == 0,
        plan.max_new == 0 ==> run(plan, events).stage == Stage::Prompt || run(plan, events).stage
            == Stage::Done,
    decreases events.len(),
{
    law_generation_stays_consistent(plan, events);
    if events.len() > 0 {
        lemma_positions(plan, events.drop_last());
        law_generation_stays_consistent(plan, events.drop_last());
    }
}

/// The recent tokens are the latest ten of the semantic tokens that were drawn.
pub proof fn law_recent_tokens_are_the_latest(plan: Plan, events: Seq<Event>)
    ensures
        RECENT == 10,
        ({
            let drawn = semantics_drawn(plan, events);
            let older = if drawn.len() > RECENT {
                drawn.len() - RECENT
            } else {
                0
            };
            run(plan, events).recent == drawn.skip(older)
        }),
    decreases events.len(),
{
    let drawn = semantics_drawn(plan, events);
    if events.len() == 0 {
        assert(drawn.skip(0) =~= Seq::<i64>::empty());
    } else {
        let earlier = semantics_drawn(plan, events.drop_last());
        law_recent_tokens_are_the_latest(plan, events.drop_last());
        let older = if drawn.len() > RECENT {
            drawn.len() - RECENT
        } else {
            0
        };
        assert(run(plan, events).recent =~= drawn.skip(older));
    }
}

/// Each frame starts with the code of its semantic token, in the order in which
/// those were drawn.
pub proof fn law_frames_follow_semantics(plan: Plan, events: Seq<Event>)
    requires
        plan.wf(),
    ensures
        run(plan, events).frames.len() <= semantics_drawn(plan, events).len(),
        semantics_drawn(plan, events).len() <= run(plan, events).frames.len() + 1,
        forall|i: int|
            0 <= i < run(plan, events).frames.len() ==> (#[trigger] run(plan, events).frames[i])[0]
                == first_code(
                semantics_drawn(plan, events)[i],
                plan.semantic_begin_id,
                plan.codebook_size,
            ),
    decreases events.len(),
{
    lemma_frames(plan, events);
}

proof fn lemma_frames(plan: Plan, events: Seq<Event>)
    requires
        plan.wf(),
    ensures
        ({
            let p = run(plan, events);
            let drawn = semantics_drawn(plan, events);
            &&& match p.stage {
                Stage::Open | Stage::Fast => {
                    &&& drawn.len() == p.frames.len() + 1
                    &&& p.codes.len() > 0
                    &&& p.codes[0] == first_code(
                        drawn.last(),
                        plan.semantic_begin_id,
                        plan.codebook_size,
                    )
                },
                _ => drawn.len() == p.frames.len(),
            }
            &&& forall|i: int|
                0 <= i < p.frames.len() ==> (#[trigger] p.frames[i])[0] == first_code(
                    drawn[i],
                    plan.semantic_begin_id,
                    plan.codebook_size,
                )
        }),
    decreases events.len(),
{
    if events.len() > 0 {
        lemma_frames(plan, events.drop_last());
        law_generation_stays_consistent(plan, events.drop_last());
    }
}

/// How many events at most lead to `p` where the speech has not ended: one for
/// the prompt, and for each frame one for the semantic token, one for the hidden
/// state, one for each further code and one for the finished frame.
spec fn events_spent(plan: Plan, p: Progress) -> int {
    let per_frame = plan.num_codebooks + 2;
    match p.stage {
        Stage::Prompt => 0,
        Stage::Semantic => 1 + p.frames.len() * per_frame,
        Stage::Open => 2 + p.frames.len() * per_frame,
        Stage::Fast => 2 + p.frames.len() * per_frame + p.codes.len(),
        Stage::Slow => p.frames.len() * per_frame,
        Stage::Done => p.frames.len() * per_frame,
    }
}

/// A generation ends: in order, there are no more events than one for the
/// prompt, two more than codebooks for each planned frame, and one for the
/// token that ends the speech.
pub proof fn law_generation_ends(plan: Plan, events: Seq<Event>)
    requires
        plan.wf(),
        in_order(plan, events),
    ensures
        events.len() <= 2 + plan.max_new * (plan.num_codebooks + 2),
{
    lemma_spent(plan, events);
    law_generation_stays_consistent(plan, events);
    let p = run(plan, events);
    let per_frame = plan.num_codebooks + 2;
    let f = p.frames.len() as int;
    let m = plan.max_new as int;
    assert(f * per_frame <= m * per_frame) by (nonlinear_arith)
        requires
            f <= m,
            per_frame >= 0,
    ;
    if f < m {
        assert((f + 1) * per_frame <= m * per_frame) by (nonlinear_arith)
            requires
                f + 1 <= m,
                per_frame >= 0,
        ;
        assert((f + 1) * per_frame == f * per_frame + per_frame) by (nonlinear_arith);
    }
}

proof fn lemma_spent(plan: Plan, events: Seq<Event>)
    requires
        plan.wf(),
        in_order(plan, events),
    ensures
        run(plan, events).stage != Stage::Done ==> events.len() <= events_spent(
            plan,
            run(plan, events),
        ),
        run(plan, events).stage == Stage::Done ==> events.len() <= 2 + events_spent(
            plan,
            run(plan, events),
        ),
    decreases events.len(),
{
    if events.len() > 0 {
        let p = run(plan, events.drop_last());
        let q = run(plan, events);
        lemma_spent(plan, events.drop_last());
        law_generation_stays_consistent(plan, events.drop_last());
        let per_frame = plan.num_codebooks + 2;
        let f = p.frames.len() as int;
        assert((f + 1) * per_frame == f * per_frame + per_frame) by (nonlinear_arith);
    }
}

/// The codes that come out hold the frames as columns.
pub proof fn law_codes_hold_frames_as_columns(frames: Seq<Seq<i64>>, num_codebooks: nat, col: int)
    requires
        rectangular(frames, num_codebooks),
        0 <= col < frames.len(),
    ensures
        rectangular(codes_of(frames, num_codebooks), frames.len()),
        Seq::new(num_codebooks, |row: int| codes_of(frames, num_codebooks)[row][col])
            == frames[col],
{
    assert(frames[col].len() == num_codebooks);
    assert(Seq::new(num_codebooks, |row: int| codes_of(frames, num_codebooks)[row][col])
        =~= frames[col]);
}

/// The codes that were drawn from the fast model.
pub open spec fn codes_drawn(plan: Plan, events: Seq<Event>) -> Seq<i64>
    decreases events.len(),
{
    if events.len() == 0 {
        Seq::empty()
    } else {
        let earlier = codes_drawn(plan, events.drop_last());
        match (run(plan, events.drop_last()).stage, events.last()) {
            (Stage::Fast, Event::Drawn(token)) => earlier.push(token),
            _ => earlier,
        }
    }
}

/// Where in the drawn codes the code of a frame and a codebook behind the first
/// stands.
pub open spec fn drawn_place(plan: Plan, frame: int, codebook: int) -> int {
    frame * (plan.num_codebooks - 1) + codebook - 1
}

/// All codes of a frame behind the first are those that were drawn for it, in
/// the order of drawing: frame after frame, and codebook after codebook.
pub proof fn law_frames_hold_the_drawn_codes(
    plan: Plan,
    events: Seq<Event>,
    frame: int,
    codebook: int,
)
    requires
        plan.wf(),
        0 <= frame < run(plan, events).frames.len(),
        1 <= codebook < plan.num_codebooks,
    ensures
        0 <= drawn_place(plan, frame, codebook) < codes_drawn(plan, events).len(),
        run(plan, events).frames[frame][codebook] == codes_drawn(
            plan,
            events,
        )[drawn_place(plan, frame, codebook)],
{
    lemma_drawn_codes(plan, events);
    law_generation_stays_consistent(plan, events);
    let p = run(plan, events);
    lemma_drawn_place(plan, frame, codebook, p.frames.len() as int);
    assert(frame_holds(plan, codes_drawn(plan, events), p.frames, frame, codebook));
}

spec fn frame_holds(
    plan: Plan,
    drawn: Seq<i64>,
    frames: Seq<Seq<i64>>,
    frame: int,
    codebook: int,
) -> bool {
    frames[frame][codebook] == drawn[drawn_place(plan, frame, codebook)]
}

proof fn lemma_drawn_place(plan: Plan, frame: int, codebook: int, frames: int)
    requires
        plan.wf(),
        0 <= frame < frames,
        1 <= codebook < plan.num_codebooks,
    ensures
        0 <= drawn_place(plan, frame, codebook) < frames * (plan.num_codebooks - 1),
{
    let m = plan.num_codebooks - 1;
    assert(0 <= frame * m) by (nonlinear_arith)
        requires
            0 <= frame,
            0 <= m,
    ;
    assert(frame * m + m <= frames * m) by (nonlinear_arith)
        requires
            frame + 1 <= frames,
            0 <= m,
    ;
}

proof fn lemma_drawn_codes(plan: Plan, events: Seq<Event>)
    requires
        plan.wf(),
    ensures
        ({
            let p = run(plan, events);
            let drawn = codes_drawn(plan, events);
            let closed = p.frames.len() * (plan.num_codebooks - 1);
            &&& drawn.len() == closed + if p.stage == Stage::Fast {
                p.codes.len() - 1
            } else {
                0
            }
            &&& p.stage == Stage::Fast ==> forall|k: int|
                1 <= k < p.codes.len() ==> #[trigger] p.codes[k] == drawn[closed + k - 1]
            &&& forall|f: int, k: int|
                0 <= f < p.frames.len() && 1 <= k < plan.num_codebooks ==> #[trigger] frame_holds(
                    plan,
                    drawn,
                    p.frames,
                    f,
                    k,
                )
        }),
    decreases events.len(),
{
    if events.len() == 0 {
        assert(0 * (plan.num_codebooks - 1) == 0) by (nonlinear_arith);
    } else {
        let before = events.drop_last();
        let p = run(plan, before);
        let q = run(plan, events);
        let old_drawn = codes_drawn(plan, before);
        let drawn = codes_drawn(plan, events);
        let m = plan.num_codebooks - 1;
        let n = p.frames.len() as int;
        lemma_drawn_codes(plan, before);
        law_generation_stays_consistent(plan, before);
        law_generation_stays_consistent(plan, events);
        assert((n + 1) * m == n * m + m) by (nonlinear_arith);
        assert forall|f: int, k: int|
            0 <= f < q.frames.len() && 1 <= k < plan.num_codebooks implies #[trigger] frame_holds(
            plan,
            drawn,
            q.frames,
            f,
            k,
        ) by {
            if f < n {
                lemma_drawn_place(plan, f, k, n);
                assert(frame_holds(plan, old_drawn, p.frames, f, k));
            } else {
                assert(f == n);
                assert(q.frames[n] == q.codes);
                assert(drawn_place(plan, n, k) == n * m + k - 1);
                if k < p.codes.len() {
                    assert(q.codes[k] == p.codes[k]);
                }
            }
        }
    }
}

/// The events of the first `k` actions of a generation, where every token that
/// is drawn is determined by what happened before: `draws` gives it.
pub open spec fn played(plan: Plan, draws: spec_fn(Seq<Event>) -> i64, k: nat) -> Seq<Event>
    decreases k,
{
    if k == 0 {
        Seq::empty()
    } else {
        let events = played(plan, draws, (k - 1) as nat);
        match run(plan, events).stage {
            Stage::Done => events,
            Stage::Prompt | Stage::Open | Stage::Slow => events.push(Event::Ran),
            Stage::Semantic | Stage::Fast => events.push(Event::Drawn(draws(events))),
        }
    }
}

/// A smaller budget only cuts the utterance short: with the same draws, a
/// generation of at most `m` frames makes the first `m` frames of one of at most
/// `n`, and its codes are the first columns of the codes of the other.
pub proof fn law_smaller_budget_cuts_short(
    plan: Plan,
    m: usize,
    n: usize,
    draws: spec_fn(Seq<Event>) -> i64,
    k: nat,
    row: int,
)
    requires
        m <= n,
        0 <= row < plan.num_codebooks,
    ensures
        ({
            let short = Plan { max_new: m, ..plan };
            let long = Plan { max_new: n, ..plan };
            let few = run(short, played(short, draws, k)).frames;
            let many = run(long, played(long, draws, k)).frames;
            let kept = if many.len() < m {
                many.len() as int
            } else {
                m as int
            };
            &&& few == many.take(kept)
            &&& codes_of(few, plan.num_codebooks as nat)[row] == codes_of(
                many,
                plan.num_codebooks as nat,
            )[row].take(kept)
        }),
{
    let short = Plan { max_new: m, ..plan };
    let long = Plan { max_new: n, ..plan };
    if m == 0 {
        lemma_frames_within(short, draws, k);
    } else {
        lemma_budget(plan, m, n, draws, k);
    }
    let few = run(short, played(short, draws, k)).frames;
    let many = run(long, played(long, draws, k)).frames;
    let kept = if many.len() < m {
        many.len() as int
    } else {
        m as int
    };
    assert(few =~= many.take(kept));
    assert(codes_of(few, plan.num_codebooks as nat)[row] =~= codes_of(
        many,
        plan.num_codebooks as nat,
    )[row].take(kept));
}

proof fn lemma_budget(
    plan: Plan,
    m: usize,
    n: usize,
    draws: spec_fn(Seq<Event>) -> i64,
    k: nat,
)
    requires
        1 <= m <= n,
    ensures
        ({
            let short = Plan { max_new: m, ..plan };
            let long = Plan { max_new: n, ..plan };
            let p = run(short, played(short, draws, k));
            let q = run(long, played(long, draws, k));
            if q.frames.len() < m {
                played(short, draws, k) == played(long, draws, k) && p == q
            } else {
                &&& p.frames == q.frames.take(m as int)
                &&& m < n ==> p.stage == Stage::Done
                &&& m == n ==> p == q && played(short, draws, k) == played(long, draws, k)
            }
        }),
    decreases k,
{
    let short = Plan { max_new: m, ..plan };
    let long = Plan { max_new: n, ..plan };
    if k > 0 {
        lemma_budget(plan, m, n, draws, (k - 1) as nat);
        let ea = played(short, draws, (k - 1) as nat);
        let eb = played(long, draws, (k - 1) as nat);
        let a = run(short, ea);
        let b = run(long, eb);
        let fa = played(short, draws, k);
        let fb = played(long, draws, k);
        if a.stage != Stage::Done {
            assert(fa.drop_last() =~= ea);
        }
        if b.stage != Stage::Done {
            assert(fb.drop_last() =~= eb);
        }
        if m == n {
            assert(short == long);
            let q = run(long, fb);
            if q.frames.len() >= m {
                lemma_frames_within(long, draws, k);
                assert(q.frames.take(m as int) =~= q.frames);
            }
        } else if b.frames.len() < m {
            let p = run(short, fa);
            let q = run(long, fb);
            if q.frames.len() >= m {
                assert(q.frames.len() == m);
                assert(q.frames.take(m as int) =~= q.frames);
            }
        } else {
            let q = run(long, fb);
            assert(q.frames.take(m as int) =~= b.frames.take(m as int));
        }
    }
}

/// No generation has more frames than its budget.
proof fn lemma_frames_within(plan: Plan, draws: spec_fn(Seq<Event>) -> i64, k: nat)
    ensures
        run(plan, played(plan, draws, k)).frames.len() <= plan.max_new,
        match run(plan, played(plan, draws, k)).stage {
            Stage::Semantic | Stage::Open | Stage::Fast | Stage::Slow => run(
                plan,
                played(plan, draws, k),
            ).frames.len() < plan.max_new,
            Stage::Prompt => run(plan, played(plan, draws, k)).frames.len() == 0,
            Stage::Done => true,
        },
    decreases k,
{
    if k > 0 {
        lemma_frames_within(plan, draws, (k - 1) as nat);
        let before = played(plan, draws, (k - 1) as nat);
        let events = played(plan, draws, k);
        if run(plan, before).stage != Stage::Done {
            assert(events.drop_last() =~= before);
        }
    }
}

/// The fast model is fed the code that was drawn last: the very token of the
/// latest event. Before any code of a frame is drawn, it is fed the distance of
/// the semantic token that opened the frame from the first one, kept within the
/// codebook. The position counts the codes of the frame so far.
pub proof fn law_latest_code_is_fed_back(plan: Plan, events: Seq<Event>, g: &Generation, r: Action)
    requires
        plan.wf(),
        run(plan, events).stage == Stage::Fast,
        g.plan() == plan,
        g@ == run(plan, events),
        call_ensures(Generation::next_action, (g,), r),
    ensures
        events.len() > 0,
        r@ is DrawCode,
        events.last() matches Event::Drawn(token) ==> r@->DrawCode_code == token,
        events.last() is Ran && in_order(plan, events) && plan.has_codes() ==> {
            let semantic = semantics_drawn(plan, events).last();
            let code = r@->DrawCode_code;
            &&& r@->DrawCode_position == 1
            &&& plan.semantic_begin_id <= semantic < plan.semantic_begin_id + plan.codebook_size
                ==> code == semantic - plan.semantic_begin_id
            &&& semantic < plan.semantic_begin_id ==> code == 0
            &&& semantic >= plan.semantic_begin_id + plan.codebook_size ==> code
                == plan.codebook_size - 1
        },
        r@->DrawCode_position == 1 + codes_drawn(plan, events).len() - run(
            plan,
            events,
        ).frames.len() * (plan.num_codebooks - 1),
{
    let before = events.drop_last();
    law_generation_stays_consistent(plan, before);
    law_generation_stays_consistent(plan, events);
    lemma_frames(plan, events);
    lemma_drawn_codes(plan, events);
}

/// One frame, from the semantic token on, whatever is drawn. The hidden state is
/// run first. Then each code is drawn at its own position from the code before
/// it, the first of them from the code of the semantic token. The frame that
/// comes out holds these codes in their order, and is run through the slow model
/// behind the semantic token, at the position behind the prompt and the frames
/// before it, unless it is the last one that is planned.
pub proof fn law_frame_is_drawn_code_by_code(
    plan: Plan,
    events: Seq<Event>,
    semantic: i64,
    code: i64,
    drawn: Seq<i64>,
    k: nat,
)
    requires
        plan.wf(),
        run(plan, events).stage == Stage::Semantic,
        semantic != plan.stop_id,
        plan.has_codes(),
        plan.semantic_begin_id <= semantic < plan.semantic_begin_id + plan.codebook_size ==> code
            == semantic - plan.semantic_begin_id,
        semantic < plan.semantic_begin_id ==> code == 0,
        semantic >= plan.semantic_begin_id + plan.codebook_size ==> code == plan.codebook_size - 1,
        drawn.len() == plan.num_codebooks - 1,
        k <= drawn.len(),
    ensures
        ({
            let before = run(plan, events);
            let opened = events.push(Event::Drawn(semantic));
            let now = opened.push(Event::Ran) + Seq::new(k, |i: int| Event::Drawn(drawn[i]));
            let p = run(plan, now);
            &&& due(plan, run(plan, opened)) == SpecAction::OpenFrame
            &&& p.recent == if before.recent.len() < 10 {
                before.recent.push(semantic)
            } else {
                before.recent.push(semantic).skip(1)
            }
            &&& k < drawn.len() ==> {
                &&& p.frames == before.frames
                &&& due(plan, p) == SpecAction::DrawCode {
                    code: if k == 0 {
                        code
                    } else {
                        drawn[k - 1]
                    },
                    position: (k + 1) as usize,
                }
            }
            &&& k == drawn.len() ==> {
                &&& p.frames == before.frames.push(seq![code] + drawn)
                &&& before.frames.len() + 1 >= plan.max_new ==> due(plan, p) == SpecAction::Stop
                &&& before.frames.len() + 1 < plan.max_new ==> {
                    &&& due(plan, p) == SpecAction::RunSlow {
                        column: seq![semantic, code] + drawn,
                        position: (plan.prompt_len + before.frames.len()) as usize,
                    }
                    &&& due(plan, run(plan, now.push(Event::Ran))) == SpecAction::DrawSemantic
                }
            }
        }),
    decreases k,
{
    let before = run(plan, events);
    law_generation_stays_consistent(plan, events);
    let opened = events.push(Event::Drawn(semantic));
    let started = opened.push(Event::Ran);
    let now = started + Seq::new(k, |i: int| Event::Drawn(drawn[i]));
    assert(opened.drop_last() =~= events);
    assert(started.drop_last() =~= opened);
    let p = run(plan, now);
    assert(now.push(Event::Ran).drop_last() =~= now);
    assert(before.recent.push(semantic).skip(1) =~= before.recent.push(semantic).drop_first());
    if k == 0 {
        assert(now =~= started);
        assert(p.codes =~= seq![code] + drawn.take(0));
    } else {
        law_frame_is_drawn_code_by_code(plan, events, semantic, code, drawn, (k - 1) as nat);
        let earlier = started + Seq::new((k - 1) as nat, |i: int| Event::Drawn(drawn[i]));
        assert(now.drop_last() =~= earlier);
        assert(now.last() == Event::Drawn(drawn[k - 1]));
        lemma_frame_in_work(plan, events, semantic, code, drawn, (k - 1) as nat);
    }
    lemma_frame_in_work(plan, events, semantic, code, drawn, k);
    if k == drawn.len() {
        assert(seq![code] + drawn.take(k as int) =~= seq![code] + drawn);
        assert(seq![semantic] + (seq![code] + drawn) =~= seq![semantic, code] + drawn);
    } else {
        assert((seq![code] + drawn.take(k as int)).last() == if k == 0 {
            code
        } else {
            drawn[k - 1]
        });
    }
}

proof fn lemma_frame_in_work(
    plan: Plan,
    events: Seq<Event>,
    semantic: i64,
    code: i64,
    drawn: Seq<i64>,
    k: nat,
)
    requires
        plan.wf(),
        run(plan, events).stage == Stage::Semantic,
        semantic != plan.stop_id,
        code == first_code(semantic, plan.semantic_begin_id, plan.codebook_size),
        drawn.len() == plan.num_codebooks - 1,
        k <= drawn.len(),
    ensures
        ({
            let before = run(plan, events);
            let now = events.push(Event::Drawn(semantic)).push(Event::Ran) + Seq::new(
                k,
                |i: int| Event::Drawn(drawn[i]),
            );
            let p = run(plan, now);
            &&& p.codes == seq![code] + drawn.take(k as int)
            &&& p.semantic == semantic
            &&& p.recent == remembered(before.recent, semantic)
            &&& k < drawn.len() ==> p.stage == Stage::Fast && p.frames == before.frames
            &&& k == drawn.len() ==> p.frames == before.frames.push(p.codes) && p.stage == if
                before.frames.len() + 1 >= plan.max_new {
                Stage::Done
            } else {
                Stage::Slow
            }
        }),
    decreases k,
{
    let opened = events.push(Event::Drawn(semantic));
    let started = opened.push(Event::Ran);
    let now = started + Seq::new(k, |i: int| Event::Drawn(drawn[i]));
    let p = run(plan, now);
    assert(opened.drop_last() =~= events);
    assert(started.drop_last() =~= opened);
    if k == 0 {
        assert(now =~= started);
        assert(run(plan, opened) == after(plan, run(plan, events), Event::Drawn(semantic)));
        assert(run(plan, started) == after(plan, run(plan, opened), Event::Ran));
        assert(p.codes =~= seq![code] + drawn.take(0));
    } else {
        lemma_frame_in_work(plan, events, semantic, code, drawn, (k - 1) as nat);
        let earlier = started + Seq::new((k - 1) as nat, |i: int| Event::Drawn(drawn[i]));
        assert(now.drop_last() =~= earlier);
        assert(now.last() == Event::Drawn(drawn[k - 1]));
        assert(p.codes =~= seq![code] + drawn.take(k as int));
    }
}

/// A generation starts with the prompt, and goes on with a semantic token where
/// a frame is asked for. The token that ends the speech, and nothing else before
/// the planned frames are there, stops it, with the frames and the recent tokens
/// as they were; then nothing changes any more. What comes out of order changes
/// nothing at any time.
pub proof fn law_generation_starts_and_stops(plan: Plan, events: Seq<Event>, e: Event)
    requires
        plan.wf(),
    ensures
        due(plan, run(plan, Seq::empty())) == (SpecAction::RunPrompt { len: plan.prompt_len }),
        run(plan, Seq::empty()).frames.len() == 0,
        run(plan, Seq::empty()).recent.len() == 0,
        due(plan, run(plan, seq![Event::Ran])) == if plan.max_new == 0 {
            SpecAction::Stop
        } else {
            SpecAction::DrawSemantic
        },
        due(plan, run(plan, events)) is DrawSemantic ==> {
            let q = run(plan, events.push(Event::Drawn(plan.stop_id)));
            &&& due(plan, q) is Stop
            &&& q.frames == run(plan, events).frames
            &&& q.recent == run(plan, events).recent
        },
        due(plan, run(plan, events)) is Stop ==> run(plan, events.push(e)) == run(plan, events),
        !(due(plan, run(plan, events)) is DrawSemantic) && !(due(plan, run(plan, events)) is DrawCode)
            && e is Drawn ==> run(plan, events.push(e)) == run(plan, events),
        (due(plan, run(plan, events)) is DrawSemantic || due(plan, run(plan, events)) is DrawCode)
            && e is Ran ==> run(plan, events.push(e)) == run(plan, events),
        due(plan, run(plan, events)) is Stop && !(due(plan, run(plan, events.drop_last())) is Stop)
            && events.len() > 0 ==> run(plan, events).frames.len() == plan.max_new || events.last()
            == Event::Drawn(plan.stop_id),
{
    assert(seq![Event::Ran].drop_last() =~= Seq::<Event>::empty());
    assert(events.push(Event::Drawn(plan.stop_id)).drop_last() =~= events);
    assert(events.push(e).drop_last() =~= events);
    law_generation_stays_consistent(plan, events);
    if events.len() > 0 {
        law_generation_stays_consistent(plan, events.drop_last());
    }
}

/// The first code of a frame and its semantic token name each other within the
/// codebook; a token outside it gets the nearest code. Later tokens never get
/// earlier codes.
pub proof fn law_first_codes_name_semantics(
    semantic: i64,
    other: i64,
    begin: i64,
    codebook_size: usize,
)
    requires
        1 <= codebook_size <= i64::MAX,
    ensures
        0 <= first_code(semantic, begin, codebook_size) < codebook_size,
        begin <= semantic < begin + codebook_size ==> begin + first_code(
            semantic,
            begin,
            codebook_size,
        ) == semantic,
        semantic <= begin ==> first_code(semantic, begin, codebook_size) == 0,
        semantic >= begin + codebook_size - 1 ==> first_code(semantic, begin, codebook_size)
            == codebook_size - 1,
        semantic <= other ==> first_code(semantic, begin, codebook_size) <= first_code(
            other,
            begin,
            codebook_size,
        ),
{
}

/// A plan asks for as many frames as are wished for and fit behind the prompt,
/// and goes by the ids and sizes of the manifest.
pub proof fn law_plan_fills_the_room(manifest: &RuntimeManifest, prompt_len: usize, wish: usize)
    requires
        prompt_len <= manifest.max_seq_len,
    ensures
        ({
            let plan = planned(manifest, prompt_len, wish);
            &&& plan.max_new <= wish
            &&& prompt_len + plan.max_new <= manifest.max_seq_len
            &&& plan.max_new < wish ==> prompt_len + plan.max_new == manifest.max_seq_len
            &&& plan.prompt_len == prompt_len
            &&& plan.semantic_begin_id == manifest.semantic_begin_id
            &&& plan.stop_id == manifest.im_end_id
            &&& plan.codebook_size == manifest.codebook_size
            &&& plan.num_codebooks == manifest.num_codebooks
        }),
{
}

/// The codes that come out: one row for each codebook, one column for each
/// frame, and in each place the code of that frame for that codebook.
pub proof fn law_finished_codes_are_the_frames(
    g: &Generation,
    r: Result<CodeGrid, GenerationError>,
    frame: int,
    codebook: int,
)
    requires
        call_ensures(Generation::finish, (g,), r),
        0 <= codebook < g.plan().num_codebooks,
    ensures
        r is Ok <==> g@.frames.len() > 0,
        r matches Ok(codes) ==> {
            &&& codes.rows().len() == g.plan().num_codebooks
            &&& codes.width() == g@.frames.len()
            &&& 0 <= frame < g@.frames.len() ==> codes.rows()[codebook][frame]
                == g@.frames[frame][codebook]
        },
{
}

/// What a generation shows of itself: its recent tokens, and whether it is done,
/// which it is exactly where it asks to stop.
pub proof fn law_generation_shows_where_it_is(
    g: &Generation,
    recent: &Vec<i64>,
    done: bool,
    action: Action,
)
    requires
        call_ensures(Generation::recent, (g,), recent),
        call_ensures(Generation::is_done, (g,), done),
        call_ensures(Generation::next_action, (g,), action),
    ensures
        recent@ == g@.recent,
        done <==> action@ is Stop,
{
}

} // verus!
