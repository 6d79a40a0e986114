//! The scheduler: a set of cyclic sequences, two logical clocks, and the
//! tick that plays one step of every sequence.
//!
//! The scheduler sends nothing and sleeps nowhere. A tick returns the events
//! to hand on and the wait before the next tick; whoever drives the scheduler
//! delivers the events, waits, and calls the tick again with the time at
//! which it then is.

use crate::sequence::{lemma_cyclic, rest, EventSequence, SequenceView};
use crate::text::{lemma_trimmed_lines_hold_tokens, split_lines, tokens_of, trimmed_lines};
use crate::timing::{
    anomaly_of, correct_drift, media_span, next_delay, Anomaly, DEFAULT_LOOKAHEAD, DEFAULT_TEMPO,
    MEDIA_PER_WALL,
};
use vstd::prelude::*;
use vstd::string::StringExecFns;

verus! {

/// The token that is played by the synthesiser.
pub open spec fn sine() -> Seq<char> {
    seq!['s', 'i', 'n', 'e']
}

/// The kind of source that plays an event.
#[derive(Clone, Copy, PartialEq, Eq, Structural, Debug)]
pub enum SourceType {
    /// A sine oscillator.
    SinOsc,
    /// A sample player.
    Sampler,
}

/// The source that plays `token`: the oscillator for `sine`, the sampler
/// for every other token.
pub open spec fn source_of(token: Seq<char>) -> SourceType {
    if token == sine() {
        SourceType::SinOsc
    } else {
        SourceType::Sampler
    }
}

/// An event to hand on: which kind of source plays it, when on the media
/// clock, and the token that names the sound.
#[derive(PartialEq, Eq, Debug)]
pub struct Event {
    pub source_type: SourceType,
    pub timestamp: u64,
    pub sample_id: String,
}

/// What an event is.
pub struct EventView {
    pub source_type: SourceType,
    pub timestamp: nat,
    pub sample_id: Seq<char>,
}

impl View for Event {
    type V = EventView;

    open spec fn view(&self) -> EventView {
        EventView {
            source_type: self.source_type,
            timestamp: self.timestamp as nat,
            sample_id: self.sample_id@,
        }
    }
}

impl DeepView for Event {
    type V = EventView;

    open spec fn deep_view(&self) -> EventView {
        self@
    }
}

/// What one tick produced.
#[derive(PartialEq, Eq, Debug)]
pub struct Tick {
    /// The events to hand on, in the order of their sequences.
    pub events: Vec<Event>,
    /// The wait before the next tick, in wall-clock units. `None` means that
    /// the scheduler is stopped and no further tick is to be called.
    pub next_delay: Option<u64>,
    /// What was out of order about the time of this tick, if anything.
    pub anomaly: Option<Anomaly>,
}

/// What a tick produced, as plain values.
pub struct TickView {
    pub events: Seq<EventView>,
    pub next_delay: Option<nat>,
    pub anomaly: Option<Anomaly>,
}

impl View for Tick {
    type V = TickView;

    open spec fn view(&self) -> TickView {
        TickView {
            events: self.events.deep_view(),
            next_delay: match self.next_delay {
                Some(delay) => Some(delay as nat),
                None => None,
            },
            anomaly: self.anomaly,
        }
    }
}

/// The event that a sequence contributes to a tick stamped `timestamp`:
/// none where its next token is the rest.
pub open spec fn event_of(sequence: SequenceView, timestamp: nat) -> Option<EventView> {
    let token = sequence.current();
    if token == rest() {
        None
    } else {
        Some(EventView { source_type: source_of(token), timestamp, sample_id: token })
    }
}

/// The events of one tick stamped `timestamp` over `sequences`: one for each
/// sequence whose next token is no rest, in the order of the sequences.
pub open spec fn dispatched(sequences: Seq<SequenceView>, timestamp: nat) -> Seq<EventView>
    decreases sequences.len(),
{
    if sequences.len() == 0 {
        Seq::empty()
    } else {
        let before = dispatched(sequences.drop_last(), timestamp);
        match event_of(sequences.last(), timestamp) {
            Some(event) => before.push(event),
            None => before,
        }
    }
}

/// Every sequence moved on by one token.
pub open spec fn advanced(sequences: Seq<SequenceView>) -> Seq<SequenceView> {
    Seq::new(sequences.len(), |i: int| sequences[i].advance())
}

/// The sequences that a text of the given lines makes of `sequences`: line
/// `i` replaces the tokens of sequence `i`, or makes a new sequence where
/// there was none, and sequences beyond the last line are dropped.
pub open spec fn evaluated(sequences: Seq<SequenceView>, lines: Seq<Seq<char>>) -> Seq<
    SequenceView,
> {
    Seq::new(
        lines.len(),
        |i: int|
            if i < sequences.len() {
                sequences[i].replaced(tokens_of(lines[i]))
            } else {
                SequenceView::fresh(tokens_of(lines[i]))
            },
    )
}

/// What a scheduler is. Times on the media clock are `audio` times, times
/// on the wall clock `browser` times.
pub struct SchedulerView {
    /// The media time at which the scheduler was started.
    pub audio_start_time: nat,
    /// The wall time at which the scheduler was started.
    pub browser_start_time: nat,
    /// The media time of the next tick.
    pub audio_logical_time: nat,
    /// The wall time for which the next tick is scheduled.
    pub browser_logical_time: nat,
    /// The wait that the last tick asked for.
    pub next_schedule_time: nat,
    /// How far ahead of the media time events are stamped.
    pub lookahead: nat,
    /// Whether ticks do anything.
    pub running: bool,
    /// The duration of a tick on the wall clock.
    pub tempo: nat,
    /// The sequences, one for each line of the text last evaluated.
    pub event_sequences: Seq<SequenceView>,
}

impl SchedulerView {
    /// Every sequence is well formed.
    pub open spec fn wf(self) -> bool {
        forall|i: int| 0 <= i < self.event_sequences.len() ==> (#[trigger] self.event_sequences[i]).wf()
    }

    /// A new scheduler: stopped, without sequences, all clocks at 0.
    pub open spec fn initial() -> SchedulerView {
        SchedulerView {
            audio_start_time: 0,
            browser_start_time: 0,
            audio_logical_time: 0,
            browser_logical_time: 0,
            next_schedule_time: 0,
            lookahead: DEFAULT_LOOKAHEAD as nat,
            running: false,
            tempo: DEFAULT_TEMPO as nat,
            event_sequences: Seq::empty(),
        }
    }

    /// The scheduler after the text of the given lines was evaluated.
    pub open spec fn evaluate(self, lines: Seq<Seq<char>>) -> SchedulerView {
        SchedulerView { event_sequences: evaluated(self.event_sequences, lines), ..self }
    }

    /// The scheduler set running, with both clocks at the given origins.
    pub open spec fn begin(self, audio_timestamp: nat, browser_timestamp: nat) -> SchedulerView {
        SchedulerView {
            audio_start_time: audio_timestamp,
            browser_start_time: browser_timestamp,
            audio_logical_time: audio_timestamp,
            browser_logical_time: browser_timestamp,
            running: true,
            ..self
        }
    }

    /// The scheduler stopped.
    pub open spec fn stop(self) -> SchedulerView {
        SchedulerView { running: false, ..self }
    }

    /// The media time with which the events of the next tick are stamped.
    pub open spec fn trigger_time(self) -> nat {
        self.audio_logical_time + self.lookahead
    }

    /// The events of the next tick.
    pub open spec fn dispatch(self) -> Seq<EventView> {
        dispatched(self.event_sequences, self.trigger_time())
    }

    /// What a tick fired at wall time `browser_timestamp` produces. A stopped
    /// scheduler produces no event and asks for no further tick.
    pub open spec fn tick(self, browser_timestamp: nat) -> TickView {
        if self.running {
            TickView {
                events: self.dispatch(),
                next_delay: Some(
                    next_delay(self.tempo, self.browser_logical_time, browser_timestamp),
                ),
                anomaly: anomaly_of(self.tempo, self.browser_logical_time, browser_timestamp),
            }
        } else {
            TickView { events: Seq::empty(), next_delay: None, anomaly: None }
        }
    }

    /// The scheduler after a tick fired at wall time `browser_timestamp`:
    /// every sequence has moved on by one token and both clocks by one tick.
    /// A stopped scheduler does not change.
    pub open spec fn ticked(self, browser_timestamp: nat) -> SchedulerView {
        if self.running {
            SchedulerView {
                event_sequences: advanced(self.event_sequences),
                next_schedule_time: next_delay(
                    self.tempo,
                    self.browser_logical_time,
                    browser_timestamp,
                ),
                audio_logical_time: self.audio_logical_time + media_span(self.tempo),
                browser_logical_time: self.browser_logical_time + self.tempo,
                ..self
            }
        } else {
            self
        }
    }

    /// The scheduler after one tick for each of `times`, fired at those wall
    /// times in turn.
    pub open spec fn run(self, times: Seq<nat>) -> SchedulerView
        decreases times.len(),
    {
        if times.len() == 0 {
            self
        } else {
            self.run(times.drop_last()).ticked(times.last())
        }
    }

    /// The times that the next tick computes fit the clocks.
    pub open spec fn fits(self) -> bool {
        &&& self.browser_logical_time + self.tempo <= u64::MAX
        &&& self.audio_logical_time + media_span(self.tempo) <= u64::MAX
        &&& self.event_sequences.len() > 0 ==> self.trigger_time() <= u64::MAX
    }
}

/// Why a text could not be evaluated.
#[derive(Clone, Copy, PartialEq, Eq, Structural, Debug)]
pub enum EvaluateError {
    /// There was no text.
    NoInput,
}

/// A time-recursive event scheduler that runs at a fixed interval.
pub struct Scheduler {
    audio_start_time: u64,
    browser_start_time: u64,
    audio_logical_time: u64,
    browser_logical_time: u64,
    next_schedule_time: u64,
    lookahead: u64,
    running: bool,
    tempo: u64,
    event_sequences: Vec<EventSequence>,
}

impl View for Scheduler {
    type V = SchedulerView;

    closed spec fn view(&self) -> SchedulerView {
        SchedulerView {
            audio_start_time: self.audio_start_time as nat,
            browser_start_time: self.browser_start_time as nat,
            audio_logical_time: self.audio_logical_time as nat,
            browser_logical_time: self.browser_logical_time as nat,
            next_schedule_time: self.next_schedule_time as nat,
            lookahead: self.lookahead as nat,
            running: self.running,
            tempo: self.tempo as nat,
            event_sequences: self.event_sequences.deep_view(),
        }
    }
}

impl Scheduler {
    #[verifier::type_invariant]
    spec fn inv(self) -> bool {
        forall|i: int|
            0 <= i < self.event_sequences@.len() ==> (#[trigger] self.event_sequences@[i])@.wf()
    }

    /// Creates a stopped scheduler without sequences, with the default
    /// tempo and lookahead.
    pub fn new() -> (scheduler: Scheduler)
        ensures
            scheduler@ == SchedulerView::initial(),
            scheduler@.wf(),
    {
        let scheduler = Scheduler {
            audio_start_time: 0,
            browser_start_time: 0,
            audio_logical_time: 0,
            browser_logical_time: 0,
            next_schedule_time: 0,
            lookahead: DEFAULT_LOOKAHEAD,
            running: false,
            tempo: DEFAULT_TEMPO,
            event_sequences: Vec::new(),
        };
        assert(scheduler@.event_sequences =~= Seq::empty());
        scheduler
    }

    /// Stops the scheduler: from now on a tick does nothing.
    pub fn stop(&mut self)
        ensures
            final(self)@ == old(self)@.stop(),
            final(self)@.wf(),
    {
        proof {
            use_type_invariant(&*self);
        }
        self.running = false;
    }

    /// Sets the duration of a tick, in wall-clock units. The next tick is
    /// the first to use it.
    pub fn set_tempo(&mut self, tempo: u64)
        ensures
            final(self)@ == (SchedulerView { tempo: tempo as nat, ..old(self)@ }),
            final(self)@.wf(),
    {
        proof {
            use_type_invariant(&*self);
        }
        self.tempo = tempo;
    }

    /// Sets how far ahead of the media time events are stamped, in
    /// media-clock units.
    pub fn set_lookahead(&mut self, lookahead: u64)
        ensures
            final(self)@ == (SchedulerView { lookahead: lookahead as nat, ..old(self)@ }),
            final(self)@.wf(),
    {
        proof {
            use_type_invariant(&*self);
        }
        self.lookahead = lookahead;
    }

    /// Evaluates an input text: each line that is not blank gives the tokens
    /// of one sequence. Line `i` of those replaces the tokens of sequence `i`
    /// and leaves its cursor where it can; lines beyond the present
    /// sequences add new ones; sequences beyond the last line are dropped.
    /// Returns the number of sequences. Without a text nothing changes.
    pub fn evaluate(&mut self, input: Option<String>) -> (result: Result<usize, EvaluateError>)
        ensures
            match input {
                Some(text) => {
                    &&& result == Ok::<usize, EvaluateError>(trimmed_lines(text@).len() as usize)
                    &&& final(self)@ == old(self)@.evaluate(trimmed_lines(text@))
                },
                None => {
                    &&& result == Err::<usize, EvaluateError>(EvaluateError::NoInput)
                    &&& final(self)@ == old(self)@
                },
            },
            final(self)@.wf(),
    {
        proof {
            use_type_invariant(&*self);
        }
        let text = match input {
            Some(text) => text,
            None => {
                return Err(EvaluateError::NoInput);
            },
        };
        let lines = split_lines(text.as_str());
        let n = lines.len();
        let ghost before = self.event_sequences.deep_view();
        let ghost target = evaluated(before, lines.deep_view());
        let mut sequences: Vec<EventSequence> = Vec::new();
        core::mem::swap(&mut self.event_sequences, &mut sequences);
        let mut i: usize = 0;
        while i < n
            invariant
                n == lines.len(),
                i <= n,
                target == evaluated(before, lines.deep_view()),
                sequences.len() == if i <= before.len() {
                    before.len()
                } else {
                    i as nat
                },
                forall|j: int| 0 <= j < i ==> (#[trigger] sequences@[j])@ == target[j],
                forall|j: int|
                    i <= j < sequences.len() ==> (#[trigger] sequences@[j])@ == before[j],
                forall|j: int| 0 <= j < sequences.len() ==> (#[trigger] sequences@[j])@.wf(),
            decreases n - i,
        {
            let line = lines[i].clone();
            if i < sequences.len() {
                sequences[i].update_sequence(line);
            } else {
                let sequence = EventSequence::from_string(line);
                sequences.push(sequence);
            }
            i += 1;
        }
        if n < sequences.len() {
            sequences.truncate(n);
        }
        assert(sequences.deep_view() =~= target);
        self.event_sequences = sequences;
        Ok(n)
    }

    /// Fetches the next token of every sequence and makes an event of each
    /// that is no rest, stamped with the media time plus the lookahead.
    fn generate_events(&mut self) -> (events: Vec<Event>)
        requires
            old(self)@.event_sequences.len() > 0 ==> old(self)@.trigger_time() <= u64::MAX,
        ensures
            events.deep_view() == old(self)@.dispatch(),
            final(self)@ == (SchedulerView {
                event_sequences: advanced(old(self)@.event_sequences),
                ..old(self)@
            }),
            final(self)@.wf(),
    {
        proof {
            use_type_invariant(&*self);
        }
        let mut events: Vec<Event> = Vec::new();
        let ghost before = self.event_sequences.deep_view();
        let ghost stamp = self@.trigger_time();
        assert(events.deep_view() =~= Seq::<EventView>::empty());
        if self.event_sequences.len() == 0 {
            assert(self@.event_sequences =~= advanced(before));
            return events;
        }
        proof {
            reveal_strlit("~");
            reveal_strlit("sine");
        }
        let rest_token = String::from_str("~");
        let sine_token = String::from_str("sine");
        assert(rest_token@ =~= rest());
        assert(sine_token@ =~= sine());
        let trigger_time: u64 = self.audio_logical_time + self.lookahead;
        let mut sequences: Vec<EventSequence> = Vec::new();
        core::mem::swap(&mut self.event_sequences, &mut sequences);
        let n = sequences.len();
        let mut i: usize = 0;
        assert(before.take(0) =~= Seq::<SequenceView>::empty());
        while i < n
            invariant
                n == sequences.len(),
                n == before.len(),
                i <= n,
                rest_token@ == rest(),
                sine_token@ == sine(),
                trigger_time == stamp,
                forall|j: int| 0 <= j < i ==> (#[trigger] sequences@[j])@ == before[j].advance(),
                forall|j: int| i <= j < n ==> (#[trigger] sequences@[j])@ == before[j],
                forall|j: int| 0 <= j < n ==> (#[trigger] sequences@[j])@.wf(),
                events.deep_view() == dispatched(before.take(i as int), stamp),
            decreases n - i,
        {
            let ghost so_far = events.deep_view();
            let token = sequences[i].get_next_event();
            proof {
                let taken = before.take(i + 1);
                assert(taken.drop_last() =~= before.take(i as int));
                assert(taken.last() == before[i as int]);
            }
            if !(token == rest_token) {
                let source_type = if token == sine_token {
                    SourceType::SinOsc
                } else {
                    SourceType::Sampler
                };
                let event = Event { source_type, timestamp: trigger_time, sample_id: token };
                events.push(event);
                assert(events.deep_view() =~= so_far.push(event@));
            }
            i += 1;
        }
        assert(before.take(n as int) =~= before);
        assert(sequences.deep_view() =~= advanced(before));
        self.event_sequences = sequences;
        events
    }

    /// One tick, fired by the host at wall time `browser_timestamp`.
    ///
    /// A running scheduler plays the next token of every sequence, corrects
    /// the wait before the next tick by the time this one fired late, and
    /// moves both clocks on by one tick. A stopped scheduler does nothing
    /// and asks for no further tick.
    pub fn scheduler_routine(&mut self, browser_timestamp: u64) -> (tick: Tick)
        requires
            old(self)@.running ==> old(self)@.fits(),
        ensures
            tick@ == old(self)@.tick(browser_timestamp as nat),
            final(self)@ == old(self)@.ticked(browser_timestamp as nat),
            final(self)@.wf(),
    {
        proof {
            use_type_invariant(&*self);
        }
        if !self.running {
            let events: Vec<Event> = Vec::new();
            assert(events.deep_view() =~= Seq::<EventView>::empty());
            return Tick { events, next_delay: None, anomaly: None };
        }
        let events = self.generate_events();
        proof {
            use_type_invariant(&*self);
        }
        let correction = correct_drift(self.tempo, self.browser_logical_time, browser_timestamp);
        self.next_schedule_time = correction.delay;
        self.audio_logical_time = self.audio_logical_time + self.tempo * MEDIA_PER_WALL;
        self.browser_logical_time = self.browser_logical_time + self.tempo;
        Tick { events, next_delay: Some(correction.delay), anomaly: correction.anomaly }
    }

    /// Starts the scheduler: both clocks begin at the given times, and the
    /// first tick is made at once.
    pub fn start(&mut self, audio_timestamp: u64, browser_timestamp: u64) -> (tick: Tick)
        requires
            old(self)@.begin(audio_timestamp as nat, browser_timestamp as nat).fits(),
        ensures
            tick@ == old(self)@.begin(audio_timestamp as nat, browser_timestamp as nat).tick(
                browser_timestamp as nat,
            ),
            final(self)@ == old(self)@.begin(
                audio_timestamp as nat,
                browser_timestamp as nat,
            ).ticked(browser_timestamp as nat),
            final(self)@.wf(),
    {
        proof {
            use_type_invariant(&*self);
        }
        self.audio_start_time = audio_timestamp;
        self.browser_start_time = browser_timestamp;
        self.audio_logical_time = self.audio_start_time;
        self.browser_logical_time = self.browser_start_time;
        self.running = true;
        self.scheduler_routine(browser_timestamp)
    }

    /// Whether the scheduler is running.
    pub fn is_running(&self) -> (running: bool)
        ensures
            running == self@.running,
    {
        self.running
    }

    /// The duration of a tick, in wall-clock units.
    pub fn tempo(&self) -> (tempo: u64)
        ensures
            tempo == self@.tempo,
    {
        self.tempo
    }

    /// How far ahead of the media time events are stamped, in media-clock
    /// units.
    pub fn lookahead(&self) -> (lookahead: u64)
        ensures
            lookahead == self@.lookahead,
    {
        self.lookahead
    }

    /// The media time at which the scheduler was started.
    pub fn audio_start_time(&self) -> (time: u64)
        ensures
            time == self@.audio_start_time,
    {
        self.audio_start_time
    }

    /// The wall time at which the scheduler was started.
    pub fn browser_start_time(&self) -> (time: u64)
        ensures
            time == self@.browser_start_time,
    {
        self.browser_start_time
    }

    /// The media time of the next tick.
    pub fn audio_logical_time(&self) -> (time: u64)
        ensures
            time == self@.audio_logical_time,
    {
        self.audio_logical_time
    }

    /// The wall time for which the next tick is scheduled.
    pub fn browser_logical_time(&self) -> (time: u64)
        ensures
            time == self@.browser_logical_time,
    {
        self.browser_logical_time
    }

    /// The wait that the last tick asked for, in wall-clock units.
    pub fn next_schedule_time(&self) -> (delay: u64)
        ensures
            delay == self@.next_schedule_time,
    {
        self.next_schedule_time
    }

    /// The number of sequences.
    pub fn sequence_count(&self) -> (count: usize)
        ensures
            count == self@.event_sequences.len(),
            self@.wf(),
    {
        proof {
            use_type_invariant(self);
        }
        self.event_sequences.len()
    }

    /// The sequence of line `index`, if there is one.
    pub fn sequence(&self, index: usize) -> (sequence: Option<&EventSequence>)
        ensures
            match sequence {
                Some(sequence) => index < self@.event_sequences.len() && sequence@
                    == self@.event_sequences[index as int],
                None => index >= self@.event_sequences.len(),
            },
    {
        if index < self.event_sequences.len() {
            Some(&self.event_sequences[index])
        } else {
            None
        }
    }

    /// Whether a tick may be called now: whether the scheduler is stopped,
    /// or the times that the tick computes fit the clocks.
    pub fn can_tick(&self) -> (fits: bool)
        ensures
            fits == (self@.running ==> self@.fits()),
    {
        !self.running || clocks_fit(
            self.audio_logical_time,
            self.browser_logical_time,
            self.tempo,
            self.lookahead,
            self.event_sequences.len(),
        )
    }

    /// Whether the scheduler may be started at the given times: whether the
    /// times that the first tick computes fit the clocks.
    pub fn can_start(&self, audio_timestamp: u64, browser_timestamp: u64) -> (fits: bool)
        ensures
            fits == self@.begin(audio_timestamp as nat, browser_timestamp as nat).fits(),
    {
        clocks_fit(
            audio_timestamp,
            browser_timestamp,
            self.tempo,
            self.lookahead,
            self.event_sequences.len(),
        )
    }
}

/// Whether a tick at the given clock values computes times that fit the
/// clocks.
fn clocks_fit(audio: u64, browser: u64, tempo: u64, lookahead: u64, sequences: usize) -> (fits:
    bool)
    ensures
        fits == {
            &&& browser + tempo <= u64::MAX
            &&& audio + media_span(tempo as nat) <= u64::MAX
            &&& sequences > 0 ==> audio + lookahead <= u64::MAX
        },
{
    tempo <= u64::MAX - browser && tempo <= (u64::MAX - audio) / MEDIA_PER_WALL && (sequences
        == 0 || lookahead <= u64::MAX - audio)
}

/// A tick makes at most one event for each sequence, and stamps every event
/// with the same time.
pub proof fn lemma_dispatched_bounds(sequences: Seq<SequenceView>, timestamp: nat)
    ensures
        dispatched(sequences, timestamp).len() <= sequences.len(),
        forall|i: int|
            0 <= i < dispatched(sequences, timestamp).len() ==> (#[trigger] dispatched(
                sequences,
                timestamp,
            )[i]).timestamp == timestamp,
    decreases sequences.len(),
{
    if sequences.len() > 0 {
        lemma_dispatched_bounds(sequences.drop_last(), timestamp);
    }
}

/// Where no sequence is at a rest, a tick makes one event for each
/// sequence, in the order of the sequences: event `i` carries the next token
/// of sequence `i`.
pub proof fn lemma_dispatched_in_order(sequences: Seq<SequenceView>, timestamp: nat)
    requires
        forall|i: int| 0 <= i < sequences.len() ==> (#[trigger] sequences[i]).current() != rest(),
    ensures
        dispatched(sequences, timestamp).len() == sequences.len(),
        forall|i: int|
            0 <= i < sequences.len() ==> Some(#[trigger] dispatched(sequences, timestamp)[i])
                == event_of(sequences[i], timestamp),
    decreases sequences.len(),
{
    if sequences.len() > 0 {
        let front = sequences.drop_last();
        assert forall|i: int| 0 <= i < front.len() implies (#[trigger] front[i]).current()
            != rest() by {
            assert(front[i] == sequences[i]);
        }
        lemma_dispatched_in_order(front, timestamp);
        assert(sequences.last() == sequences[sequences.len() - 1]);
    }
}

/// After an evaluation there is one sequence for each line that is not
/// blank, whatever sequences there were, and each holds the tokens of its
/// line, of which there is at least one.
pub proof fn lemma_evaluate_count(s: SchedulerView, text: Seq<char>)
    ensures
        s.evaluate(trimmed_lines(text)).event_sequences.len() == trimmed_lines(text).len(),
        forall|i: int|
            0 <= i < trimmed_lines(text).len() ==> (#[trigger] s.evaluate(
                trimmed_lines(text),
            ).event_sequences[i]).events == tokens_of(trimmed_lines(text)[i]),
        forall|i: int|
            0 <= i < trimmed_lines(text).len() ==> (#[trigger] s.evaluate(
                trimmed_lines(text),
            ).event_sequences[i]).events.len() > 0,
        s.evaluate(trimmed_lines(text)).wf(),
{
    lemma_trimmed_lines_hold_tokens(text);
}

/// An evaluation leaves the cursor of a sequence untouched where the new
/// line has a token at that place.
pub proof fn lemma_evaluate_keeps_cursor(s: SchedulerView, lines: Seq<Seq<char>>, i: int)
    requires
        0 <= i < lines.len(),
        i < s.event_sequences.len(),
        s.event_sequences[i].cursor < tokens_of(lines[i]).len(),
    ensures
        s.evaluate(lines).event_sequences[i].cursor == s.event_sequences[i].cursor,
{
}

/// A tick of a stopped scheduler makes no event, asks for no further tick
/// and changes nothing. So the tick that the host fires after a stop ends
/// the chain.
pub proof fn lemma_tick_after_stop(s: SchedulerView, browser_timestamp: nat)
    ensures
        s.stop().tick(browser_timestamp).events.len() == 0,
        s.stop().tick(browser_timestamp).next_delay is None,
        s.stop().ticked(browser_timestamp) == s.stop(),
{
}

/// A tick of a running scheduler always asks for the next one, moves the
/// wall clock on by one tick duration and the media clock by the same span
/// in its own units, and changes nothing else but the sequences and the
/// wait. No clock ever goes back.
pub proof fn lemma_tick_advances_clocks(s: SchedulerView, browser_timestamp: nat)
    requires
        s.running,
    ensures
        s.tick(browser_timestamp).next_delay is Some,
        s.ticked(browser_timestamp).browser_logical_time == s.browser_logical_time + s.tempo,
        s.ticked(browser_timestamp).audio_logical_time == s.audio_logical_time + s.tempo
            * MEDIA_PER_WALL,
        s.ticked(browser_timestamp).browser_logical_time >= s.browser_logical_time,
        s.ticked(browser_timestamp).audio_logical_time >= s.audio_logical_time,
        s.ticked(browser_timestamp).running,
        s.ticked(browser_timestamp).tempo == s.tempo,
        s.ticked(browser_timestamp).lookahead == s.lookahead,
        s.ticked(browser_timestamp).audio_start_time == s.audio_start_time,
        s.ticked(browser_timestamp).browser_start_time == s.browser_start_time,
{
}

/// A tick keeps every sequence well formed and changes none of their
/// tokens.
pub proof fn lemma_tick_keeps_sequences(s: SchedulerView, browser_timestamp: nat)
    requires
        s.wf(),
    ensures
        s.ticked(browser_timestamp).wf(),
        s.ticked(browser_timestamp).event_sequences.len() == s.event_sequences.len(),
        forall|i: int|
            0 <= i < s.event_sequences.len() ==> (#[trigger] s.ticked(
                browser_timestamp,
            ).event_sequences[i]).events == s.event_sequences[i].events,
{
}

/// Only `begin` sets a scheduler running and only `stop` stops it: a tick
/// and an evaluation leave it running or stopped, as it was.
pub proof fn lemma_running_is_kept(s: SchedulerView, browser_timestamp: nat, lines: Seq<Seq<char>>)
    ensures
        s.ticked(browser_timestamp).running == s.running,
        s.evaluate(lines).running == s.running,
{
}

/// The ticks keep their pace, however late the host fires them: after any
/// number of ticks of a running scheduler the wall clock has moved on by
/// that many tick durations and the media clock by as many spans, whatever
/// the times at which the ticks fired, and every sequence has played that
/// many tokens.
pub proof fn lemma_run_keeps_pace(s: SchedulerView, times: Seq<nat>)
    requires
        s.running,
    ensures
        s.run(times).running,
        s.run(times).tempo == s.tempo,
        s.run(times).lookahead == s.lookahead,
        s.run(times).browser_logical_time == s.browser_logical_time + times.len() * s.tempo,
        s.run(times).audio_logical_time == s.audio_logical_time + times.len() * media_span(
            s.tempo,
        ),
        s.run(times).event_sequences.len() == s.event_sequences.len(),
        forall|i: int|
            0 <= i < s.event_sequences.len() ==> #[trigger] s.run(times).event_sequences[i]
                == s.event_sequences[i].after(times.len()),
    decreases times.len(),
{
    if times.len() > 0 {
        let front = times.drop_last();
        let n = front.len();
        lemma_run_keeps_pace(s, front);
        assert((n + 1) * s.tempo == n * s.tempo + s.tempo) by (nonlinear_arith);
        assert((n + 1) * media_span(s.tempo) == n * media_span(s.tempo) + media_span(s.tempo))
            by (nonlinear_arith);
    }
}

/// What a running scheduler plays: the tick that follows `times.len()` ticks
/// takes from each sequence the token that many places after its cursor,
/// counted round the sequence.
pub proof fn lemma_run_plays_in_cycles(s: SchedulerView, times: Seq<nat>, i: int)
    requires
        s.running,
        s.wf(),
        0 <= i < s.event_sequences.len(),
        s.event_sequences[i].events.len() > 0,
    ensures
        s.run(times).event_sequences[i].current() == ({
            let sequence = s.event_sequences[i];
            sequence.events[((sequence.cursor + times.len()) % sequence.events.len()) as int]
        }),
{
    lemma_run_keeps_pace(s, times);
    lemma_cyclic(s.event_sequences[i], times.len());
}

} // verus!
