//! The polyphonic voice pool: note allocation and sample-accurate
//! event-driven rendering.
//!
//! `allocate_note` never retriggers a note that is already held and
//! silently drops a note when no voice is free (no voice stealing);
//! `deallocate_note` releases every voice holding the note.

use vstd::prelude::*;

use crate::fixed::SCALE;
use crate::voice::{
    model_block_out, model_rendered, Note, Voice, VoiceModel,
};

verus! {

/// A sample-accurate note event inside one block.
#[derive(Clone, Copy, Debug, PartialEq, Eq, Structural)]
pub struct Event {
    pub offset: usize,
    pub data: EventData,
}

#[derive(Clone, Copy, Debug, PartialEq, Eq, Structural)]
pub enum EventData {
    NoteOn { note_number: u8, velocity: u8 },
    NoteOff { note_number: u8 },
}

/// The models of a whole voice pool.
pub open spec fn models_of(voices: Seq<Voice>) -> Seq<VoiceModel> {
    Seq::new(voices.len(), |i: int| voices[i].model())
}

/// Whether a voice model holds the given note number.
pub open spec fn model_matches(m: VoiceModel, note_number: u8) -> bool {
    m.note matches Some(n) && n.note_number == note_number
}

/// The first voice at or after `k` holding the note, if any.
pub open spec fn first_match(ms: Seq<VoiceModel>, note_number: u8, k: nat) -> Option<int>
    decreases ms.len() - k,
{
    if k >= ms.len() {
        None
    } else if model_matches(ms[k as int], note_number) {
        Some(k as int)
    } else {
        first_match(ms, note_number, k + 1)
    }
}

/// The first free voice at or after `k`, if any.
pub open spec fn first_free(ms: Seq<VoiceModel>, k: nat) -> Option<int>
    decreases ms.len() - k,
{
    if k >= ms.len() {
        None
    } else if ms[k as int].note is None {
        Some(k as int)
    } else {
        first_free(ms, k + 1)
    }
}

/// The pool after a note-on: unchanged when some voice already holds
/// the note or none is free; otherwise the first free voice takes it.
pub open spec fn allocate_models(ms: Seq<VoiceModel>, note_number: u8) -> Seq<VoiceModel> {
    if first_match(ms, note_number, 0) is Some {
        ms
    } else {
        match first_free(ms, 0) {
            None => ms,
            Some(i) => ms.update(
                i,
                VoiceModel { note: Some(Note { note_number }), ..ms[i] },
            ),
        }
    }
}

/// The pool after a note-off: every voice holding the note is freed.
pub open spec fn deallocate_models(ms: Seq<VoiceModel>, note_number: u8) -> Seq<VoiceModel> {
    Seq::new(
        ms.len(),
        |i: int|
            if model_matches(ms[i], note_number) {
                VoiceModel { note: None, ..ms[i] }
            } else {
                ms[i]
            },
    )
}

/// A missing first match means no voice holds the note; a present one
/// is the lowest holder.
pub proof fn lemma_first_match_props(ms: Seq<VoiceModel>, note_number: u8, k: nat)
    requires
        k <= ms.len(),
    ensures
        first_match(ms, note_number, k) is None ==> forall|j: int|
            k <= j < ms.len() ==> !model_matches(#[trigger] ms[j], note_number),
        first_match(ms, note_number, k) matches Some(i) ==> k <= i < ms.len() && model_matches(
            ms[i],
            note_number,
        ) && forall|j: int| k <= j < i ==> !model_matches(#[trigger] ms[j], note_number),
    decreases ms.len() - k,
{
    if k < ms.len() {
        lemma_first_match_props(ms, note_number, k + 1);
    }
}

/// A missing first free slot means no voice is free; a present one is
/// the lowest free voice.
pub proof fn lemma_first_free_props(ms: Seq<VoiceModel>, k: nat)
    requires
        k <= ms.len(),
    ensures
        first_free(ms, k) is None ==> forall|j: int|
            k <= j < ms.len() ==> !((#[trigger] ms[j]).note is None),
        first_free(ms, k) matches Some(i) ==> k <= i < ms.len() && ms[i].note is None && forall|
            j: int,
        | k <= j < i ==> !((#[trigger] ms[j]).note is None),
    decreases ms.len() - k,
{
    if k < ms.len() {
        lemma_first_free_props(ms, k + 1);
    }
}

/// Allocating the same note twice never takes a second voice: the
/// second call finds the note held and leaves the pool unchanged.
pub proof fn lemma_allocate_idempotent(ms: Seq<VoiceModel>, note_number: u8)
    ensures
        allocate_models(allocate_models(ms, note_number), note_number) == allocate_models(
            ms,
            note_number,
        ),
{
    let ms1 = allocate_models(ms, note_number);
    if first_match(ms, note_number, 0) is Some {
        assert(ms1 == ms);
    } else {
        match first_free(ms, 0) {
            None => {
                assert(ms1 == ms);
            },
            Some(i) => {
                lemma_first_free_props(ms, 0);
                assert(model_matches(ms1[i], note_number));
                lemma_first_match_props(ms1, note_number, 0);
                assert(first_match(ms1, note_number, 0) is Some) by {
                    if first_match(ms1, note_number, 0) is None {
                        assert(!model_matches(ms1[i], note_number));
                    }
                };
            },
        }
    }
}

/// Releasing a note that no voice holds changes nothing.
pub proof fn lemma_deallocate_no_match(ms: Seq<VoiceModel>, note_number: u8)
    requires
        forall|j: int| 0 <= j < ms.len() ==> !model_matches(#[trigger] ms[j], note_number),
    ensures
        deallocate_models(ms, note_number) == ms,
{
    assert(deallocate_models(ms, note_number) =~= ms);
}

/// With every voice busy on other notes, a new note is dropped.
pub proof fn lemma_allocate_full_pool_drops(ms: Seq<VoiceModel>, note_number: u8)
    requires
        forall|j: int| 0 <= j < ms.len() ==> !model_matches(#[trigger] ms[j], note_number),
        forall|j: int| 0 <= j < ms.len() ==> !((#[trigger] ms[j]).note is None),
    ensures
        allocate_models(ms, note_number) == ms,
{
    lemma_first_match_props(ms, note_number, 0);
    if first_match(ms, note_number, 0) is Some {
        let i: int = first_match(ms, note_number, 0).unwrap();
        assert(model_matches(ms[i], note_number));
        assert(false);
    }
    lemma_first_free_props(ms, 0);
    if first_free(ms, 0) is Some {
        let i: int = first_free(ms, 0).unwrap();
        assert(ms[i].note is None);
        assert(false);
    }
}

/// The pool after one event.
pub open spec fn event_applied(ms: Seq<VoiceModel>, e: Event) -> Seq<VoiceModel> {
    match e.data {
        EventData::NoteOn { note_number, velocity } => allocate_models(ms, note_number),
        EventData::NoteOff { note_number } => deallocate_models(ms, note_number),
    }
}

/// The block after every voice of the pool rendered `[start, end)` in
/// turn, each adding onto the previous voice's output.
pub open spec fn pool_block_out(
    ms: Seq<VoiceModel>,
    n: int,
    block: Seq<i64>,
    start: int,
    end: int,
) -> Seq<i64>
    decreases n,
{
    if n <= 0 {
        block
    } else {
        model_block_out(ms[n - 1], pool_block_out(ms, n - 1, block, start, end), start, end)
    }
}

/// The pool after every voice rendered `steps` samples.
pub open spec fn pool_rendered(ms: Seq<VoiceModel>, steps: nat) -> Seq<VoiceModel> {
    Seq::new(ms.len(), |i: int| model_rendered(ms[i], steps))
}

/// The whole event-driven block render: for each event in order, apply
/// its note effect, then render all voices up to its offset; after the
/// last event, render the rest of the block.
pub open spec fn synth_run(
    ms: Seq<VoiceModel>,
    block: Seq<i64>,
    events: Seq<Event>,
    cursor: int,
) -> (Seq<VoiceModel>, Seq<i64>)
    decreases events.len(),
{
    if events.len() == 0 {
        (
            pool_rendered(ms, (block.len() - cursor) as nat),
            pool_block_out(ms, ms.len() as int, block, cursor, block.len() as int),
        )
    } else {
        let e = events.first();
        let ms1 = event_applied(ms, e);
        let ms2 = pool_rendered(ms1, (e.offset - cursor) as nat);
        let b2 = pool_block_out(ms1, ms1.len() as int, block, cursor, e.offset as int);
        synth_run(ms2, b2, events.drop_first(), e.offset as int)
    }
}

/// The fixed pool of resynthesis voices.
pub struct Synth {
    pub voices: Vec<Voice>,
}

impl Synth {
    pub open spec fn wf(self) -> bool {
        &&& 1 <= self.voices.len() <= 64
        &&& forall|i: int| 0 <= i < self.voices.len() ==> (#[trigger] self.voices@[i]).wf()
    }

    pub fn get_voices(&self) -> (r: &Vec<Voice>)
        ensures
            r@ == self.voices@,
    {
        &self.voices
    }

    pub fn get_voices_mut(&mut self) -> (r: &mut Vec<Voice>)
        ensures
            *r == old(self).voices,
            final(self).voices == *final(r),
    {
        &mut self.voices
    }

    /// Assign the note to the first free voice, unless some voice
    /// already holds it or none is free, as described by
    /// [`allocate_models`].
    pub fn allocate_note(&mut self, note_number: u8, velocity: u8)
        requires
            old(self).wf(),
        ensures
            models_of(final(self).voices@) == allocate_models(
                models_of(old(self).voices@),
                note_number,
            ),
            final(self).wf(),
            final(self).voices.len() == old(self).voices.len(),
    {
        let ghost ms: Seq<VoiceModel> = models_of(old(self).voices@);
        let n: usize = self.voices.len();
        let mut i: usize = 0;
        while i < n
            invariant
                i <= n,
                n == self.voices.len(),
                ms == models_of(self.voices@),
                old(self).voices@ == self.voices@,
                old(self).wf(),
                first_match(ms, note_number, 0) == first_match(ms, note_number, i as nat),
            decreases n - i,
        {
            if self.voices[i].matches_note(note_number) {
                proof {
                    assert(first_match(ms, note_number, i as nat) == Some(i as int));
                }
                return ;
            }
            i = i + 1;
        }
        proof {
            assert(first_match(ms, note_number, n as nat) is None);
        }
        let mut j: usize = 0;
        while j < n
            invariant
                j <= n,
                n == self.voices.len(),
                ms == models_of(self.voices@),
                old(self).voices@ == self.voices@,
                old(self).wf(),
                first_match(ms, note_number, 0) is None,
                first_free(ms, 0) == first_free(ms, j as nat),
            decreases n - j,
        {
            if self.voices[j].is_free() {
                proof {
                    assert(first_free(ms, j as nat) == Some(j as int));
                }
                let ghost before: Seq<Voice> = self.voices@;
                let mut v: Voice = self.voices.remove(j);
                v.note_on(note_number, velocity);
                self.voices.insert(j, v);
                proof {
                    assert(self.voices@ =~= before.update(j as int, v));
                    assert(models_of(self.voices@) =~= allocate_models(ms, note_number));
                    assert forall|u: int| 0 <= u < self.voices@.len() implies (
                    #[trigger] self.voices@[u]).wf() by {
                        if u != j {
                            assert(self.voices@[u] == before[u]);
                        }
                    };
                }
                return ;
            }
            j = j + 1;
        }
        proof {
            assert(first_free(ms, n as nat) is None);
        }
    }

    /// Release every voice holding the note, as described by
    /// [`deallocate_models`].
    pub fn deallocate_note(&mut self, note_number: u8)
        requires
            old(self).wf(),
        ensures
            models_of(final(self).voices@) == deallocate_models(
                models_of(old(self).voices@),
                note_number,
            ),
            final(self).wf(),
            final(self).voices.len() == old(self).voices.len(),
    {
        let ghost ms: Seq<VoiceModel> = models_of(old(self).voices@);
        let n: usize = self.voices.len();
        let mut i: usize = 0;
        while i < n
            invariant
                i <= n,
                n == self.voices.len(),
                n == old(self).voices@.len(),
                ms == models_of(old(self).voices@),
                forall|u: int|
                    0 <= u < i ==> (#[trigger] self.voices@[u]).model() == deallocate_models(
                        ms,
                        note_number,
                    )[u],
                forall|u: int| i <= u < n ==> #[trigger] self.voices@[u] == old(self).voices@[u],
                forall|u: int| 0 <= u < n ==> (#[trigger] self.voices@[u]).wf(),
            decreases n - i,
        {
            if self.voices[i].matches_note(note_number) {
                let ghost before: Seq<Voice> = self.voices@;
                let mut v: Voice = self.voices.remove(i);
                v.note_off();
                self.voices.insert(i, v);
                proof {
                    assert(self.voices@ =~= before.update(i as int, v));
                }
            }
            i = i + 1;
        }
        proof {
            assert(models_of(self.voices@) =~= deallocate_models(ms, note_number));
        }
    }

    /// Render one block with sample-accurate note events, as described
    /// by [`synth_run`]. Events must come in ascending offset order,
    /// each offset inside the block.
    pub fn render_block(&mut self, output: &mut Vec<i64>, events: &[Event])
        requires
            old(self).wf(),
            old(output).len() <= 1000000000,
            forall|t: int|
                0 <= t < old(output).len() ==> -SCALE <= #[trigger] old(output)@[t] <= SCALE,
            forall|i: int, j: int|
                0 <= i < j < events.len() ==> (#[trigger] events@[i]).offset <= (
                #[trigger] events@[j]).offset,
            forall|i: int| 0 <= i < events.len() ==> (#[trigger] events@[i]).offset <= old(output).len(),
        ensures
            (models_of(final(self).voices@), final(output)@) == synth_run(
                models_of(old(self).voices@),
                old(output)@,
                events@,
                0,
            ),
            final(self).wf(),
            final(self).voices.len() == old(self).voices.len(),
            final(output).len() == old(output).len(),
            forall|t: int|
                0 <= t < final(output).len() ==> -SCALE <= #[trigger] final(output)@[t] <= SCALE,
    {
        let ghost target: (Seq<VoiceModel>, Seq<i64>) = synth_run(
            models_of(old(self).voices@),
            old(output)@,
            events@,
            0,
        );
        proof {
            assert(events@.subrange(0, events@.len() as int) =~= events@);
        }
        let mut block_start: usize = 0;
        let mut e: usize = 0;
        while e < events.len()
            invariant
                e <= events.len(),
                self.wf(),
                self.voices.len() == old(self).voices.len(),
                output.len() == old(output).len() <= 1000000000,
                forall|t: int| 0 <= t < output.len() ==> -SCALE <= #[trigger] output@[t] <= SCALE,
                forall|i: int, j: int|
                    0 <= i < j < events.len() ==> (#[trigger] events@[i]).offset <= (
                    #[trigger] events@[j]).offset,
                forall|i: int|
                    0 <= i < events.len() ==> (#[trigger] events@[i]).offset <= output.len(),
                e < events.len() ==> block_start <= events@[e as int].offset,
                block_start <= output.len(),
                synth_run(
                    models_of(self.voices@),
                    output@,
                    events@.subrange(e as int, events@.len() as int),
                    block_start as int,
                ) == target,
            decreases events.len() - e,
        {
            let event: Event = events[e];
            let ghost rest: Seq<Event> = events@.subrange(e as int, events@.len() as int);
            proof {
                assert(rest.first() == event);
                assert(rest.drop_first() =~= events@.subrange(e as int + 1, events@.len() as int));
            }
            match event.data {
                EventData::NoteOn { note_number, velocity } => {
                    self.allocate_note(note_number, velocity);
                },
                EventData::NoteOff { note_number } => {
                    self.deallocate_note(note_number);
                },
            }
            let block_end: usize = event.offset;
            self.render_segment(output, block_start, block_end);
            block_start = block_end;
            e = e + 1;
        }
        proof {
            assert(events@.subrange(events@.len() as int, events@.len() as int)
                =~= Seq::<Event>::empty());
        }
        let len: usize = output.len();
        self.render_segment(output, block_start, len);
    }

    /// Render every voice of the pool into `output[start..end)`.
    fn render_segment(&mut self, output: &mut Vec<i64>, start: usize, end: usize)
        requires
            old(self).wf(),
            start <= end <= old(output).len(),
            old(output).len() <= 1000000000,
            forall|t: int|
                0 <= t < old(output).len() ==> -SCALE <= #[trigger] old(output)@[t] <= SCALE,
        ensures
            models_of(final(self).voices@) == pool_rendered(
                models_of(old(self).voices@),
                (end - start) as nat,
            ),
            final(output)@ == pool_block_out(
                models_of(old(self).voices@),
                old(self).voices@.len() as int,
                old(output)@,
                start as int,
                end as int,
            ),
            final(self).wf(),
            final(self).voices.len() == old(self).voices.len(),
            final(output).len() == old(output).len(),
            forall|t: int|
                0 <= t < final(output).len() ==> -SCALE <= #[trigger] final(output)@[t] <= SCALE,
    {
        let ghost ms: Seq<VoiceModel> = models_of(old(self).voices@);
        let n: usize = self.voices.len();
        let mut i: usize = 0;
        while i < n
            invariant
                i <= n,
                n == self.voices.len() == old(self).voices.len(),
                ms == models_of(old(self).voices@),
                1 <= n <= 64,
                start <= end <= output.len(),
                output.len() == old(output).len() <= 1000000000,
                forall|t: int| 0 <= t < output.len() ==> -SCALE <= #[trigger] output@[t] <= SCALE,
                forall|u: int| 0 <= u < n ==> (#[trigger] self.voices@[u]).wf(),
                forall|u: int|
                    0 <= u < i ==> (#[trigger] self.voices@[u]).model() == model_rendered(
                        ms[u],
                        (end - start) as nat,
                    ),
                forall|u: int| i <= u < n ==> #[trigger] self.voices@[u] == old(self).voices@[u],
                output@ == pool_block_out(ms, i as int, old(output)@, start as int, end as int),
            decreases n - i,
        {
            let mut v: Voice = self.voices.remove(i);
            v.render_range(output, start, end);
            self.voices.insert(i, v);
            i = i + 1;
        }
        proof {
            assert(models_of(self.voices@) =~= pool_rendered(ms, (end - start) as nat));
        }
    }
}

} // verus!
