//! What a run hands to its output channel.
//!
//! A batch run prints one line per claim. A streaming run writes one data
//! frame per claim as soon as the claim is known, and closes the stream with
//! a single terminal frame once every probe has reached its outcome.

use crate::batch::{Batch, Completion, Phase, Target};
use crate::probe::Outcome;
use crate::scheduler::{reaction_matches, ProbeResult, Reaction};
use vstd::prelude::*;

verus! {

/// One frame of the event stream.
#[derive(Debug)]
pub enum Frame {
    /// A claim: the URL at which the username was found.
    Data(String),
    /// The end of the stream.
    Done,
}

/// A frame as a mathematical value.
pub enum FrameView {
    Data(Seq<char>),
    Done,
}

impl View for Frame {
    type V = FrameView;

    open spec fn view(&self) -> FrameView {
        match self {
            Frame::Data(url) => FrameView::Data(url@),
            Frame::Done => FrameView::Done,
        }
    }
}

/// The frames that a list of frames stands for.
pub open spec fn frames_view(frames: Seq<Frame>) -> Seq<FrameView> {
    Seq::new(frames.len(), |k: int| frames[k]@)
}

/// The text of a frame on the wire.
pub open spec fn frame_text(frame: FrameView) -> Seq<char> {
    match frame {
        FrameView::Data(url) => "data: "@ + url + "\n\n"@,
        FrameView::Done => "data: done\n\n"@,
    }
}

/// The line that a batch run prints for a claim.
pub open spec fn claim_line(name: Seq<char>, url: Seq<char>) -> Seq<char> {
    name + ": "@ + url
}

/// The header block that opens an event stream.
pub open spec fn preamble_text() -> Seq<char> {
    "Content-Type: text/event-stream\nCache-Control: no-cache\nConnection: keep-alive\n\n"@
}

/// The frames that a reaction adds to the stream: the claim, if the
/// resolved probe was found claimed, and then the terminal frame, if the
/// batch is finished.
pub open spec fn reaction_frames(reaction: Reaction) -> Seq<FrameView> {
    let claim = match reaction.result {
        Some(result) => if result.outcome == Outcome::Claimed {
            seq![FrameView::Data(result.resolved_url@)]
        } else {
            Seq::empty()
        },
        None => Seq::empty(),
    };
    if reaction.finished {
        claim.push(FrameView::Done)
    } else {
        claim
    }
}

/// The stream that a batch has given rise to: a data frame for each claim,
/// in the order in which the claims were found, and the terminal frame once
/// the batch is finished.
pub open spec fn stream(batch: Batch) -> Seq<FrameView> {
    let claims = Seq::new(
        batch.claimed.len(),
        |k: int| FrameView::Data(batch.probes[batch.claimed[k]].target.url),
    );
    if batch.finished() {
        claims.push(FrameView::Done)
    } else {
        claims
    }
}

/// The shape of the stream. Every data frame carries the URL of a probe
/// that has resolved as claimed. While the batch is unfinished the stream
/// holds data frames only; once it is finished the stream ends with the
/// terminal frame, and that is the only one.
pub proof fn lemma_stream_shape(batch: Batch)
    requires
        batch.inv(),
    ensures
        forall|k: int|
            0 <= k < batch.claimed.len() ==> {
                &&& 0 <= batch.claimed[k] < batch.probes.len()
                &&& batch.probes[batch.claimed[k]].phase == Phase::Resolved(Outcome::Claimed)
                &&& #[trigger] stream(batch)[k] == FrameView::Data(
                    batch.probes[batch.claimed[k]].target.url,
                )
            },
        !batch.finished() ==> stream(batch).len() == batch.claimed.len(),
        batch.finished() ==> {
            &&& stream(batch).len() == batch.claimed.len() + 1
            &&& stream(batch).last() == FrameView::Done
            &&& forall|k: int|
                0 <= k < stream(batch).len() - 1 ==> #[trigger] stream(batch)[k] is Data
        },
{
}

/// The stream of a batch at its start holds the frames of the first
/// reaction: nothing, unless the batch has no probe at all; then it is the
/// terminal frame alone.
pub proof fn lemma_stream_at_start(targets: Seq<Target>, reaction: Reaction)
    requires
        reaction_matches(reaction, 0, Batch::start(targets), None),
    ensures
        stream(Batch::start(targets)) == reaction_frames(reaction),
        stream(Batch::start(targets)) == if targets.len() == 0 {
            seq![FrameView::Done]
        } else {
            Seq::empty()
        },
{
    let batch = Batch::start(targets);
    if targets.len() > 0 {
        assert(batch.probes[0].phase == Phase::InFlight);
        assert(!batch.finished());
    }
    assert(stream(batch) =~= reaction_frames(reaction));
    assert(stream(batch) =~= if targets.len() == 0 {
        seq![FrameView::Done]
    } else {
        Seq::empty()
    });
}

/// A step extends the stream by the frames of its reaction, and by nothing
/// else: what has been written stays as it is.
pub proof fn lemma_stream_step(batch: Batch, id: int, outcome: Outcome, reaction: Reaction)
    requires
        batch.inv(),
        batch.can_complete(id),
        reaction_matches(
            reaction,
            batch.launched.len() as int,
            batch.complete(id, outcome),
            Some(id),
        ),
    ensures
        stream(batch.complete(id, outcome)) == stream(batch) + reaction_frames(reaction),
{
    let after = batch.complete(id, outcome);
    batch.lemma_complete_inv(id, outcome);
    assert(!batch.finished()) by {
        assert(batch.probes[id].phase == Phase::InFlight);
    }
    assert(after.probes[id].phase == Phase::Resolved(outcome));
    assert(reaction.result->0.outcome == outcome);
    assert forall|k: int| 0 <= k < batch.claimed.len() implies after.probes[batch.claimed[k]].target
        == batch.probes[batch.claimed[k]].target by {
        assert(0 <= batch.claimed[k] < batch.probes.len());
    }
    assert(stream(after) =~= stream(batch) + reaction_frames(reaction));
}

/// Of every run: each data frame of the stream carries the URL of a probe
/// that has resolved as claimed; the terminal frame stands nowhere but at
/// the end of the stream; and it stands there exactly if the run is
/// finished.
pub proof fn lemma_stream_of_run(targets: Seq<Target>, events: Seq<Completion>)
    ensures
        ({
            let batch = Batch::after(targets, events);
            let frames = stream(batch);
            &&& forall|k: int|
                0 <= k < batch.claimed.len() ==> {
                    &&& 0 <= batch.claimed[k] < targets.len()
                    &&& batch.probes[batch.claimed[k]].phase == Phase::Resolved(Outcome::Claimed)
                    &&& #[trigger] frames[k] == FrameView::Data(targets[batch.claimed[k]].url)
                }
            &&& forall|k: int|
                0 <= k < frames.len() && #[trigger] frames[k] == FrameView::Done ==> k
                    == frames.len() - 1
            &&& batch.finished() <==> frames.len() > 0 && frames.last() == FrameView::Done
        }),
{
    Batch::lemma_after_inv(targets, events);
    Batch::lemma_after_targets(targets, events);
    lemma_stream_shape(Batch::after(targets, events));
    let batch = Batch::after(targets, events);
    let frames = stream(batch);
    assert forall|k: int| 0 <= k < frames.len() && #[trigger] frames[k]
        == FrameView::Done implies k == frames.len() - 1 by {
        if k < batch.claimed.len() {
            assert(frames[k] == FrameView::Data(batch.probes[batch.claimed[k]].target.url));
        }
    }
    if !batch.finished() && frames.len() > 0 {
        let last = frames.len() - 1;
        assert(frames[last] == FrameView::Data(batch.probes[batch.claimed[last]].target.url));
    }
}

/// The terminal frame reads like the data frame of the URL `done`, and like
/// no other data frame.
pub proof fn lemma_done_text(url: Seq<char>)
    ensures
        frame_text(FrameView::Data(url)) == frame_text(FrameView::Done) <==> url == "done"@,
{
    reveal_strlit("data: ");
    reveal_strlit("\n\n");
    reveal_strlit("data: done\n\n");
    reveal_strlit("done");
    let data = frame_text(FrameView::Data(url));
    let done = frame_text(FrameView::Done);
    if url == "done"@ {
        assert(data =~= done);
    }
    if data == done {
        assert(data.len() == 6 + url.len() + 2);
        assert(url.len() == 4);
        assert(url =~= "done"@) by {
            assert forall|k: int| 0 <= k < 4 implies url[k] == "done"@[k] by {
                assert(data[6 + k] == url[k]);
            }
        }
    }
}

/// Data frames of different URLs read differently.
pub proof fn lemma_data_text_injective(first: Seq<char>, second: Seq<char>)
    requires
        frame_text(FrameView::Data(first)) == frame_text(FrameView::Data(second)),
    ensures
        first == second,
{
    reveal_strlit("data: ");
    reveal_strlit("\n\n");
    let a = frame_text(FrameView::Data(first));
    let b = frame_text(FrameView::Data(second));
    assert(a.len() == 6 + first.len() + 2);
    assert(b.len() == 6 + second.len() + 2);
    assert(first =~= second) by {
        assert forall|k: int| 0 <= k < first.len() implies first[k] == second[k] by {
            assert(a[6 + k] == first[k]);
            assert(b[6 + k] == second[k]);
        }
    }
}

impl Frame {
    /// The text of the frame on the wire.
    pub fn render(&self) -> (text: String)
        ensures
            text@ == frame_text(self@),
    {
        match self {
            Frame::Data(url) => {
                let mut text = "data: ".to_owned();
                text.append(url.as_str());
                text.append("\n\n");
                text
            },
            Frame::Done => "data: done\n\n".to_owned(),
        }
    }
}

/// The frames to write for a reaction, in order.
pub fn stream_frames(reaction: &Reaction) -> (frames: Vec<Frame>)
    ensures
        frames_view(frames@) == reaction_frames(*reaction),
{
    let mut frames: Vec<Frame> = Vec::new();
    match &reaction.result {
        Some(result) => {
            if result.outcome == Outcome::Claimed {
                frames.push(Frame::Data(result.resolved_url.clone()));
            }
        },
        None => {},
    }
    if reaction.finished {
        frames.push(Frame::Done);
    }
    assert(frames_view(frames@) =~= reaction_frames(*reaction));
    frames
}

/// The line to print for a result: `name: url` for a claim, and nothing for
/// any other outcome.
pub fn cli_line(result: &ProbeResult) -> (line: Option<String>)
    ensures
        line is Some <==> result.outcome == Outcome::Claimed,
        line matches Some(text) ==> text@ == claim_line(result.name@, result.resolved_url@),
{
    if result.outcome == Outcome::Claimed {
        let mut text = result.name.clone();
        text.append(": ");
        text.append(result.resolved_url.as_str());
        Some(text)
    } else {
        None
    }
}

/// The header block that opens an event stream.
pub fn stream_preamble() -> (text: String)
    ensures
        text@ == preamble_text(),
{
    "Content-Type: text/event-stream\nCache-Control: no-cache\nConnection: keep-alive\n\n".to_owned()
}

} // verus!
