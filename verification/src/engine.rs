//! The consolidation engine: a two-phase run that validates every input's
//! schema against the canonical schema (the first input's) before any output
//! is created, then streams every input's batches, in input order, into one
//! output and accounts the rows written.
//!
//! The engine holds the decisions only. An unverified driver performs each
//! filesystem action the engine asks for ([`Action`]) and reports the outcome
//! back ([`Event`]); the engine's contracts pin down the whole run: which
//! action follows which outcome, which error ends the run, and what the row
//! accounting and write order are.

use crate::order::views_of;
use crate::schema::{schema_compatible_spec, FieldDefV, SchemaDef};
use vstd::prelude::*;

verus! {

/// Why a consolidation run failed.
#[derive(Debug)]
pub enum ConsolidateError {
    /// No input files were given.
    EmptyInputSet,
    /// This file's schema could not be read during validation.
    SchemaReadError { file: String },
    /// This file's schema is incompatible with the canonical schema.
    SchemaMismatch { file: String, index: usize, expected: SchemaDef, found: SchemaDef },
    /// The output destination could not be created.
    OutputCreateError,
    /// A batch could not be read while streaming. Batch index 0 also covers a
    /// failure to reopen the file itself.
    BatchReadError { file: String, batch_index: usize },
    /// A batch could not be written to the output.
    BatchWriteError { file: String, batch_index: usize },
    /// The output writer could not be flushed and closed.
    FinalizeError,
}

/// The mathematical value of a `ConsolidateError`.
pub enum ConsolidateErrorV {
    EmptyInputSet,
    SchemaReadError { file: Seq<char> },
    SchemaMismatch {
        file: Seq<char>,
        index: int,
        expected: Seq<FieldDefV>,
        found: Seq<FieldDefV>,
    },
    OutputCreateError,
    BatchReadError { file: Seq<char>, batch_index: int },
    BatchWriteError { file: Seq<char>, batch_index: int },
    FinalizeError,
}

impl View for ConsolidateError {
    type V = ConsolidateErrorV;

    open spec fn view(&self) -> ConsolidateErrorV {
        match self {
            ConsolidateError::EmptyInputSet => ConsolidateErrorV::EmptyInputSet,
            ConsolidateError::SchemaReadError { file } => ConsolidateErrorV::SchemaReadError {
                file: file@,
            },
            ConsolidateError::SchemaMismatch { file, index, expected, found } => {
                ConsolidateErrorV::SchemaMismatch {
                    file: file@,
                    index: *index as int,
                    expected: expected@,
                    found: found@,
                }
            },
            ConsolidateError::OutputCreateError => ConsolidateErrorV::OutputCreateError,
            ConsolidateError::BatchReadError { file, batch_index } => {
                ConsolidateErrorV::BatchReadError { file: file@, batch_index: *batch_index as int }
            },
            ConsolidateError::BatchWriteError { file, batch_index } => {
                ConsolidateErrorV::BatchWriteError { file: file@, batch_index: *batch_index as int }
            },
            ConsolidateError::FinalizeError => ConsolidateErrorV::FinalizeError,
        }
    }
}

/// Where a consolidation run stands.
#[derive(Clone, Copy, Debug)]
pub enum Phase {
    /// Validation: awaiting the schema of the input with this index.
    ReadingSchema { index: usize },
    /// Every schema was validated: awaiting creation of the output writer.
    CreatingOutput,
    /// Streaming: awaiting the reopening of this input.
    OpeningInput { index: usize },
    /// Streaming: awaiting this input's next batch, which has this number.
    ReadingBatch { index: usize, batch: usize },
    /// Streaming: awaiting the write of the batch just read, with `rows` rows.
    WritingBatch { index: usize, batch: usize, rows: u64 },
    /// Every input was streamed: awaiting finalization of the output.
    Finalizing,
    /// The run succeeded.
    Done,
    /// The run failed; the engine holds the error.
    Failed,
}

/// The next action the driver must perform for the engine.
#[derive(Debug)]
pub enum Action {
    /// Read the schema of the input with this index.
    ReadSchema { index: usize },
    /// Create the output writer, bound to the canonical schema.
    CreateOutput,
    /// Open the input with this index for streaming.
    OpenInput { index: usize },
    /// Read the next batch from the input with this index.
    ReadBatch { index: usize },
    /// Write the batch just read to the output.
    WriteBatch { index: usize },
    /// Flush and close the output.
    Finalize,
    /// The run succeeded; this many rows were written in all.
    Done { rows: u64 },
    /// The run failed; take the error from the engine.
    Failed,
}

/// What the driver observed while performing the requested action.
#[derive(Debug)]
pub enum Event {
    /// The requested schema was read.
    SchemaRead { schema: SchemaDef },
    /// The requested schema could not be read.
    SchemaUnreadable,
    /// The output writer was created.
    OutputCreated,
    /// The output writer could not be created.
    OutputCreateFailed,
    /// The requested input was opened for streaming.
    InputOpened,
    /// The requested input could not be opened for streaming.
    InputOpenFailed,
    /// A batch with this many rows was read.
    BatchRead { rows: u64 },
    /// The open input has no further batches.
    EndOfInput,
    /// The next batch could not be read.
    BatchUnreadable,
    /// The batch was written to the output.
    BatchWritten,
    /// The batch could not be written to the output.
    WriteFailed,
    /// The output writer was flushed and closed.
    Finalized,
    /// The output writer could not be flushed and closed.
    FinalizeFailed,
}

/// One written batch, as the model records it: the input it came from, its
/// number within that input, and its row count.
pub struct BatchStamp {
    pub file: int,
    pub batch: int,
    pub rows: int,
}

/// The rows of a history, summed.
pub open spec fn sum_rows(h: Seq<BatchStamp>) -> int
    decreases h.len(),
{
    if h.len() == 0 {
        0
    } else {
        sum_rows(h.drop_last()) + h.last().rows
    }
}

/// How one written batch may follow another: the next batch of the same
/// input, or the first batch of a later input.
pub open spec fn follows(p: BatchStamp, q: BatchStamp) -> bool {
    (q.file == p.file && q.batch == p.batch + 1) || (q.file > p.file && q.batch == 0)
}

/// A history is chronological when the batches appear grouped by input in
/// input order and, within each input, numbered consecutively from zero: the
/// output is the concatenation of the inputs' batch sequences, with nothing
/// reordered, interleaved or dropped in the middle.
pub open spec fn chronological(h: Seq<BatchStamp>) -> bool {
    &&& (h.len() > 0 ==> h[0].file >= 0 && h[0].batch == 0)
    &&& (forall|k: int| 0 <= k < h.len() ==> #[trigger] h[k].rows >= 0)
    &&& (forall|k: int| 0 <= k < h.len() - 1 ==> follows(h[k], #[trigger] h[k + 1]))
}

/// Where the streaming of input `index` stands when its next batch would be
/// number `batch`: earlier inputs' batches are all in the history, none of a
/// later input is, and the last stamp (when this input has already yielded
/// batches) is this input's previous batch.
pub open spec fn stream_pos(h: Seq<BatchStamp>, index: int, batch: int) -> bool {
    &&& (forall|k: int| 0 <= k < h.len() ==> #[trigger] h[k].file <= index)
    &&& (batch == 0 ==> (forall|k: int| 0 <= k < h.len() ==> #[trigger] h[k].file < index))
    &&& (batch > 0 ==> h.len() > 0 && h.last().file == index && h.last().batch == batch - 1)
}

/// The mathematical value of an `Engine`.
#[verifier::ext_equal]
pub struct EngineV {
    pub inputs: Seq<Seq<char>>,
    pub canonical: Option<Seq<FieldDefV>>,
    pub phase: Phase,
    pub rows_written: u64,
    pub error: Option<ConsolidateErrorV>,
    pub history: Seq<BatchStamp>,
    pub validated: Seq<Seq<FieldDefV>>,
    pub output_requested: bool,
}

/// A consolidation run over a fixed, non-empty, ordered list of input paths.
pub struct Engine {
    inputs: Vec<String>,
    canonical: Option<SchemaDef>,
    phase: Phase,
    rows_written: u64,
    error: Option<ConsolidateError>,
    history: Ghost<Seq<BatchStamp>>,
    validated: Ghost<Seq<Seq<FieldDefV>>>,
    output_requested: Ghost<bool>,
}

impl View for Engine {
    type V = EngineV;

    closed spec fn view(&self) -> EngineV {
        EngineV {
            inputs: views_of(self.inputs@),
            canonical: match self.canonical {
                Some(s) => Some(s@),
                None => None,
            },
            phase: self.phase,
            rows_written: self.rows_written,
            error: match self.error {
                Some(e) => Some(e@),
                None => None,
            },
            history: self.history@,
            validated: self.validated@,
            output_requested: self.output_requested@,
        }
    }
}

/// The engine's invariant.
pub open spec fn wf(m: EngineV) -> bool {
    &&& m.inputs.len() >= 1
    &&& m.validated.len() <= m.inputs.len()
    &&& (m.canonical matches Some(c) ==> m.validated.len() >= 1 && m.validated[0] == c)
    &&& (forall|j: int|
        0 <= j < m.validated.len() ==> schema_compatible_spec(
            m.validated[0],
            #[trigger] m.validated[j],
        ))
    &&& (m.output_requested ==> m.validated.len() == m.inputs.len())
    &&& chronological(m.history)
    &&& sum_rows(m.history) == m.rows_written as int
    &&& (forall|k: int| 0 <= k < m.history.len() ==> 0 <= #[trigger] m.history[k].file < m.inputs.len())
    &&& match m.phase {
        Phase::ReadingSchema { index } => {
            &&& index < m.inputs.len()
            &&& m.validated.len() == index
            &&& (index > 0 <==> m.canonical is Some)
            &&& m.error is None
            &&& !m.output_requested
            &&& m.history.len() == 0
            &&& m.rows_written == 0
        },
        Phase::CreatingOutput => {
            &&& m.canonical is Some
            &&& m.error is None
            &&& m.output_requested
            &&& m.history.len() == 0
            &&& m.rows_written == 0
        },
        Phase::OpeningInput { index } => {
            &&& index < m.inputs.len()
            &&& m.canonical is Some
            &&& m.error is None
            &&& m.output_requested
            &&& stream_pos(m.history, index as int, 0)
        },
        Phase::ReadingBatch { index, batch } => {
            &&& index < m.inputs.len()
            &&& m.canonical is Some
            &&& m.error is None
            &&& m.output_requested
            &&& stream_pos(m.history, index as int, batch as int)
        },
        Phase::WritingBatch { index, batch, rows } => {
            &&& index < m.inputs.len()
            &&& batch < usize::MAX
            &&& m.canonical is Some
            &&& m.error is None
            &&& m.output_requested
            &&& stream_pos(m.history, index as int, batch as int)
            &&& m.rows_written + rows <= u64::MAX
        },
        Phase::Finalizing => {
            &&& m.canonical is Some
            &&& m.error is None
            &&& m.output_requested
        },
        Phase::Done => {
            &&& m.canonical is Some
            &&& m.error is None
            &&& m.output_requested
        },
        Phase::Failed => {
            &&& m.error is Some
            &&& ((m.error matches Some(e) && !(e is OutputCreateError || e is BatchReadError
                || e is BatchWriteError || e is FinalizeError)) ==> !m.output_requested)
        },
    }
}

/// The model of a freshly started run.
pub open spec fn initial_model(inputs: Seq<Seq<char>>) -> EngineV {
    EngineV {
        inputs: inputs,
        canonical: None,
        phase: Phase::ReadingSchema { index: 0 },
        rows_written: 0,
        error: None,
        history: Seq::empty(),
        validated: Seq::empty(),
        output_requested: false,
    }
}

/// The action the driver must perform next, as a function of the model.
pub open spec fn action_of(m: EngineV) -> Action {
    match m.phase {
        Phase::ReadingSchema { index } => Action::ReadSchema { index },
        Phase::CreatingOutput => Action::CreateOutput,
        Phase::OpeningInput { index } => Action::OpenInput { index },
        Phase::ReadingBatch { index, batch } => Action::ReadBatch { index },
        Phase::WritingBatch { index, batch, rows } => Action::WriteBatch { index },
        Phase::Finalizing => Action::Finalize,
        Phase::Done => Action::Done { rows: m.rows_written },
        Phase::Failed => Action::Failed,
    }
}

/// Which events answer the pending action, together with the machine limits
/// the driver must check before reporting a batch: the running row total must
/// fit in a `u64`, and the per-input batch counter in a `usize`.
pub open spec fn event_fits(m: EngineV, ev: Event) -> bool {
    match m.phase {
        Phase::ReadingSchema { index } => ev is SchemaRead || ev is SchemaUnreadable,
        Phase::CreatingOutput => ev is OutputCreated || ev is OutputCreateFailed,
        Phase::OpeningInput { index } => ev is InputOpened || ev is InputOpenFailed,
        Phase::ReadingBatch { index, batch } => {
            &&& (ev is BatchRead || ev is EndOfInput || ev is BatchUnreadable)
            &&& (ev matches Event::BatchRead { rows } ==> m.rows_written + rows <= u64::MAX
                && batch < usize::MAX)
        },
        Phase::WritingBatch { index, batch, rows } => ev is BatchWritten || ev is WriteFailed,
        Phase::Finalizing => ev is Finalized || ev is FinalizeFailed,
        Phase::Done => false,
        Phase::Failed => false,
    }
}

/// The transition function of a run: the model after reporting `ev` to an
/// engine in state `pre`. For an event that does not answer the pending
/// action the model is unchanged (`step` refuses such events).
pub open spec fn step_spec(pre: EngineV, ev: Event) -> EngineV {
    match pre.phase {
        Phase::ReadingSchema { index } => match ev {
            Event::SchemaRead { schema } => {
                if index == 0 || schema_compatible_spec(pre.canonical.unwrap(), schema@) {
                    EngineV {
                        canonical: if index == 0 {
                            Some(schema@)
                        } else {
                            pre.canonical
                        },
                        validated: pre.validated.push(schema@),
                        phase: if index + 1 == pre.inputs.len() {
                            Phase::CreatingOutput
                        } else {
                            Phase::ReadingSchema { index: (index + 1) as usize }
                        },
                        output_requested: index + 1 == pre.inputs.len(),
                        ..pre
                    }
                } else {
                    EngineV {
                        phase: Phase::Failed,
                        canonical: None,
                        error: Some(
                            ConsolidateErrorV::SchemaMismatch {
                                file: pre.inputs[index as int],
                                index: index as int,
                                expected: pre.canonical.unwrap(),
                                found: schema@,
                            },
                        ),
                        ..pre
                    }
                }
            },
            Event::SchemaUnreadable => EngineV {
                phase: Phase::Failed,
                error: Some(
                    ConsolidateErrorV::SchemaReadError { file: pre.inputs[index as int] },
                ),
                ..pre
            },
            _ => pre,
        },
        Phase::CreatingOutput => match ev {
            Event::OutputCreated => EngineV { phase: Phase::OpeningInput { index: 0 }, ..pre },
            Event::OutputCreateFailed => EngineV {
                phase: Phase::Failed,
                error: Some(ConsolidateErrorV::OutputCreateError),
                ..pre
            },
            _ => pre,
        },
        Phase::OpeningInput { index } => match ev {
            Event::InputOpened => EngineV { phase: Phase::ReadingBatch { index, batch: 0 }, ..pre },
            Event::InputOpenFailed => EngineV {
                phase: Phase::Failed,
                error: Some(
                    ConsolidateErrorV::BatchReadError {
                        file: pre.inputs[index as int],
                        batch_index: 0,
                    },
                ),
                ..pre
            },
            _ => pre,
        },
        Phase::ReadingBatch { index, batch } => match ev {
            Event::BatchRead { rows } => EngineV {
                phase: Phase::WritingBatch { index, batch, rows },
                ..pre
            },
            Event::EndOfInput => EngineV {
                phase: if index + 1 == pre.inputs.len() {
                    Phase::Finalizing
                } else {
                    Phase::OpeningInput { index: (index + 1) as usize }
                },
                ..pre
            },
            Event::BatchUnreadable => EngineV {
                phase: Phase::Failed,
                error: Some(
                    ConsolidateErrorV::BatchReadError {
                        file: pre.inputs[index as int],
                        batch_index: batch as int,
                    },
                ),
                ..pre
            },
            _ => pre,
        },
        Phase::WritingBatch { index, batch, rows } => match ev {
            Event::BatchWritten => EngineV {
                phase: Phase::ReadingBatch { index, batch: (batch + 1) as usize },
                rows_written: (pre.rows_written + rows) as u64,
                history: pre.history.push(
                    BatchStamp { file: index as int, batch: batch as int, rows: rows as int },
                ),
                ..pre
            },
            Event::WriteFailed => EngineV {
                phase: Phase::Failed,
                error: Some(
                    ConsolidateErrorV::BatchWriteError {
                        file: pre.inputs[index as int],
                        batch_index: batch as int,
                    },
                ),
                ..pre
            },
            _ => pre,
        },
        Phase::Finalizing => match ev {
            Event::Finalized => EngineV { phase: Phase::Done, ..pre },
            Event::FinalizeFailed => EngineV {
                phase: Phase::Failed,
                error: Some(ConsolidateErrorV::FinalizeError),
                ..pre
            },
            _ => pre,
        },
        Phase::Done => pre,
        Phase::Failed => pre,
    }
}

impl Engine {
    /// Start a run over an ordered list of input paths. An empty list is
    /// rejected with `EmptyInputSet` before anything is touched.
    pub fn new(inputs: Vec<String>) -> (r: Result<Engine, ConsolidateError>)
        ensures
            match r {
                Ok(e) => inputs@.len() > 0 && e@ == initial_model(views_of(inputs@)) && wf(e@),
                Err(err) => inputs@.len() == 0 && err@ == ConsolidateErrorV::EmptyInputSet,
            },
    {
        if inputs.len() == 0 {
            return Err(ConsolidateError::EmptyInputSet);
        }
        let e = Engine {
            inputs,
            canonical: None,
            phase: Phase::ReadingSchema { index: 0 },
            rows_written: 0,
            error: None,
            history: Ghost(Seq::empty()),
            validated: Ghost(Seq::empty()),
            output_requested: Ghost(false),
        };
        assert(e@ =~= initial_model(e@.inputs));
        Ok(e)
    }

    /// The action the driver must perform next.
    pub fn next_action(&self) -> (a: Action)
        ensures
            a == action_of(self@),
    {
        match self.phase {
            Phase::ReadingSchema { index } => Action::ReadSchema { index },
            Phase::CreatingOutput => Action::CreateOutput,
            Phase::OpeningInput { index } => Action::OpenInput { index },
            Phase::ReadingBatch { index, batch } => Action::ReadBatch { index },
            Phase::WritingBatch { index, batch, rows } => Action::WriteBatch { index },
            Phase::Finalizing => Action::Finalize,
            Phase::Done => Action::Done { rows: self.rows_written },
            Phase::Failed => Action::Failed,
        }
    }

    /// The rows written so far.
    pub fn rows_written(&self) -> (n: u64)
        ensures
            n == self@.rows_written,
    {
        self.rows_written
    }

    /// Whether one more batch of `rows` rows can be accounted without the
    /// running total leaving `u64`. The driver checks this before reporting
    /// `BatchRead`.
    pub fn can_account_batch(&self, rows: u64) -> (r: bool)
        ensures
            r == (self@.rows_written + rows <= u64::MAX),
    {
        rows <= u64::MAX - self.rows_written
    }

    /// Whether the per-input batch counter can still grow. The driver checks
    /// this before reporting `BatchRead`.
    pub fn can_count_batch(&self) -> (r: bool)
        ensures
            r == (self@.phase matches Phase::ReadingBatch { index, batch } ==> batch
                < usize::MAX),
    {
        match self.phase {
            Phase::ReadingBatch { index, batch } => batch < usize::MAX,
            _ => true,
        }
    }

    /// Take the error out of a failed run.
    pub fn take_error(&mut self) -> (e: Option<ConsolidateError>)
        ensures
            final(self)@ == (EngineV { error: None, ..old(self)@ }),
            (match e {
                Some(err) => old(self)@.error == Some(err@),
                None => old(self)@.error is None,
            }),
    {
        self.error.take()
    }

    /// Report the outcome of the pending action; the engine moves to its next
    /// state, exactly as `step_spec` says.
    pub fn step(&mut self, ev: Event)
        requires
            wf(old(self)@),
            event_fits(old(self)@, ev),
        ensures
            final(self)@ == step_spec(old(self)@, ev),
            wf(final(self)@),
    {
        let ghost pre = self@;
        let n = self.inputs.len();
        match self.phase {
            Phase::ReadingSchema { index } => match ev {
                Event::SchemaRead { schema } => {
                    let compatible = if index == 0 {
                        true
                    } else {
                        self.canonical.as_ref().unwrap().compatible_with(&schema)
                    };
                    if compatible {
                        self.validated = Ghost(self.validated@.push(schema@));
                        if index == 0 {
                            self.canonical = Some(schema);
                        }
                        if index + 1 == n {
                            self.phase = Phase::CreatingOutput;
                            self.output_requested = Ghost(true);
                        } else {
                            self.phase = Phase::ReadingSchema { index: index + 1 };
                        }
                    } else {
                        let expected = self.canonical.take().unwrap();
                        let file = self.inputs[index].clone();
                        self.error = Some(
                            ConsolidateError::SchemaMismatch { file, index, expected, found: schema },
                        );
                        self.phase = Phase::Failed;
                    }
                },
                Event::SchemaUnreadable => {
                    let file = self.inputs[index].clone();
                    self.error = Some(ConsolidateError::SchemaReadError { file });
                    self.phase = Phase::Failed;
                },
                _ => {
                    assert(false);
                },
            },
            Phase::CreatingOutput => match ev {
                Event::OutputCreated => {
                    self.phase = Phase::OpeningInput { index: 0 };
                },
                Event::OutputCreateFailed => {
                    self.error = Some(ConsolidateError::OutputCreateError);
                    self.phase = Phase::Failed;
                },
                _ => {
                    assert(false);
                },
            },
            Phase::OpeningInput { index } => match ev {
                Event::InputOpened => {
                    self.phase = Phase::ReadingBatch { index, batch: 0 };
                },
                Event::InputOpenFailed => {
                    let file = self.inputs[index].clone();
                    self.error = Some(ConsolidateError::BatchReadError { file, batch_index: 0 });
                    self.phase = Phase::Failed;
                },
                _ => {
                    assert(false);
                },
            },
            Phase::ReadingBatch { index, batch } => match ev {
                Event::BatchRead { rows } => {
                    self.phase = Phase::WritingBatch { index, batch, rows };
                },
                Event::EndOfInput => {
                    if index + 1 == n {
                        self.phase = Phase::Finalizing;
                    } else {
                        self.phase = Phase::OpeningInput { index: index + 1 };
                    }
                },
                Event::BatchUnreadable => {
                    let file = self.inputs[index].clone();
                    self.error = Some(
                        ConsolidateError::BatchReadError { file, batch_index: batch },
                    );
                    self.phase = Phase::Failed;
                },
                _ => {
                    assert(false);
                },
            },
            Phase::WritingBatch { index, batch, rows } => match ev {
                Event::BatchWritten => {
                    let ghost stamp = BatchStamp {
                        file: index as int,
                        batch: batch as int,
                        rows: rows as int,
                    };
                    proof {
                        assert(pre.history.push(stamp).drop_last() =~= pre.history);
                    }
                    self.history = Ghost(self.history@.push(stamp));
                    self.rows_written = self.rows_written + rows;
                    self.phase = Phase::ReadingBatch { index, batch: batch + 1 };
                    proof {
                        lemma_written_batch_keeps_order(pre.history, stamp, index as int, batch as int);
                    }
                },
                Event::WriteFailed => {
                    let file = self.inputs[index].clone();
                    self.error = Some(
                        ConsolidateError::BatchWriteError { file, batch_index: batch },
                    );
                    self.phase = Phase::Failed;
                },
                _ => {
                    assert(false);
                },
            },
            Phase::Finalizing => match ev {
                Event::Finalized => {
                    self.phase = Phase::Done;
                },
                Event::FinalizeFailed => {
                    self.error = Some(ConsolidateError::FinalizeError);
                    self.phase = Phase::Failed;
                },
                _ => {
                    assert(false);
                },
            },
            Phase::Done => {
                assert(false);
            },
            Phase::Failed => {
                assert(false);
            },
        }
        assert(self@ =~= step_spec(pre, ev));
    }
}

proof fn lemma_written_batch_keeps_order(h: Seq<BatchStamp>, s: BatchStamp, index: int, batch: int)
    requires
        chronological(h),
        stream_pos(h, index, batch),
        s == (BatchStamp { file: index, batch: batch, rows: s.rows }),
        s.rows >= 0,
        index >= 0,
        batch >= 0,
    ensures
        chronological(h.push(s)),
        stream_pos(h.push(s), index, batch + 1),
{
    let h2 = h.push(s);
    if h.len() == 0 {
        assert(batch == 0);
    } else {
        assert(follows(h.last(), s));
        assert forall|k: int| 0 <= k < h2.len() - 1 implies follows(h2[k], #[trigger] h2[k + 1]) by {
            if k < h.len() - 1 {
                assert(follows(h[k], h[k + 1]));
            }
        }
    }
}

/// Fail-fast: a run that failed during validation (an unreadable schema or a
/// schema mismatch) never asked the driver to create the output.
pub proof fn lemma_fail_fast_no_output(m: EngineV)
    requires
        wf(m),
        m.phase is Failed,
        m.error matches Some(e) && (e is SchemaMismatch || e is SchemaReadError
            || e is EmptyInputSet),
    ensures
        !m.output_requested,
{
}

/// The output is asked for only once every input's schema has been validated
/// as compatible with the canonical schema.
pub proof fn lemma_output_only_after_validation(m: EngineV)
    requires
        wf(m),
        m.output_requested,
    ensures
        m.validated.len() == m.inputs.len(),
        forall|j: int|
            0 <= j < m.validated.len() ==> schema_compatible_spec(
                m.validated[0],
                #[trigger] m.validated[j],
            ),
{
}

/// At success the accounting is exact: the reported row total is the sum of
/// the written batches' rows, and the write history is the concatenation of
/// the inputs' batch sequences in input order.
pub proof fn lemma_done_accounts_batches(m: EngineV)
    requires
        wf(m),
        m.phase is Done,
    ensures
        sum_rows(m.history) == m.rows_written as int,
        chronological(m.history),
{
}

/// The rows a history wrote from the input with index `i`.
pub open spec fn file_rows(h: Seq<BatchStamp>, i: int) -> int
    decreases h.len(),
{
    if h.len() == 0 {
        0
    } else {
        file_rows(h.drop_last(), i) + if h.last().file == i {
            h.last().rows
        } else {
            0
        }
    }
}

/// The per-input row counts of a history, summed over inputs `0..n`.
pub open spec fn total_file_rows(h: Seq<BatchStamp>, n: int) -> int
    decreases n,
{
    if n <= 0 {
        0
    } else {
        total_file_rows(h, n - 1) + file_rows(h, n - 1)
    }
}

proof fn lemma_total_file_rows_empty(n: int)
    ensures
        total_file_rows(Seq::empty(), n) == 0,
    decreases n,
{
    if n > 0 {
        lemma_total_file_rows_empty(n - 1);
    }
}

proof fn lemma_file_rows_push(h: Seq<BatchStamp>, s: BatchStamp, i: int)
    ensures
        file_rows(h.push(s), i) == file_rows(h, i) + if s.file == i {
            s.rows
        } else {
            0
        },
{
    assert(h.push(s).drop_last() =~= h);
    assert(h.push(s).last() == s);
}

proof fn lemma_total_file_rows_push(h: Seq<BatchStamp>, s: BatchStamp, n: int)
    ensures
        total_file_rows(h.push(s), n) == total_file_rows(h, n) + if 0 <= s.file < n {
            s.rows
        } else {
            0
        },
    decreases n,
{
    if n > 0 {
        lemma_file_rows_push(h, s, n - 1);
        lemma_total_file_rows_push(h, s, n - 1);
    }
}

proof fn lemma_sum_rows_decomposes(h: Seq<BatchStamp>, n: int)
    requires
        forall|k: int| 0 <= k < h.len() ==> 0 <= #[trigger] h[k].file < n,
    ensures
        sum_rows(h) == total_file_rows(h, n),
    decreases h.len(),
{
    if h.len() == 0 {
        assert(h =~= Seq::empty());
        lemma_total_file_rows_empty(n);
    } else {
        let h1 = h.drop_last();
        let s = h.last();
        assert(h =~= h1.push(s));
        assert forall|k: int| 0 <= k < h1.len() implies 0 <= #[trigger] h1[k].file < n by {
            assert(h1[k] == h[k]);
        }
        assert(0 <= s.file < n);
        lemma_sum_rows_decomposes(h1, n);
        lemma_total_file_rows_push(h1, s, n);
    }
}

/// Row-count conservation: at success the reported row total is the sum,
/// input by input, of the rows written from each input.
pub proof fn lemma_rows_are_sum_over_inputs(m: EngineV)
    requires
        wf(m),
        m.phase is Done,
    ensures
        m.rows_written as int == total_file_rows(m.history, m.inputs.len() as int),
{
    lemma_sum_rows_decomposes(m.history, m.inputs.len() as int);
}

} // verus!
