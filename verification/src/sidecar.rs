use vstd::prelude::*;
use vstd::string::*;

use crate::events::{EventModel, OutputEvent, OutputEventModel, PublishedEvent};
use crate::events::{models_of, views_of};
use crate::numbers::{parse_i32, parse_i32_spec};
use crate::text::{decode_lossy, find_char, find_char_in, has_prefix, lossy_decode, trim,
    trim_spec};

verus! {

/// What a stdout line must open with to count as a progress line.
pub open spec fn progress_prefix() -> Seq<char> {
    "PROGRESS: "@
}

/// The progress pair carried by a trimmed stdout line, if it is one: after
/// the marker, the text up to the first slash and the text after it must both
/// parse as integers.
pub open spec fn progress_of(s: Seq<char>) -> Option<(i32, i32)> {
    if s.len() >= 10 && s.take(10) == progress_prefix() {
        let rest = s.skip(10);
        match find_char(rest, '/') {
            None => None,
            Some(k) => match (parse_i32_spec(rest.take(k)), parse_i32_spec(
                rest.skip(k + 1),
            )) {
                (Some(a), Some(b)) => Some((a, b)),
                _ => None,
            },
        }
    } else {
        None
    }
}

/// Reads the progress pair out of a trimmed stdout line, if it carries one.
pub fn parse_progress(s: &str) -> (r: Option<(i32, i32)>)
    ensures
        r == progress_of(s@),
{
    proof {
        reveal_strlit("PROGRESS: ");
    }
    let marker: &str = "PROGRESS: ";
    if !has_prefix(s, marker) {
        return None;
    }
    let len = s.unicode_len();
    let rest = s.substring_char(10, len);
    proof {
        assert(rest@ =~= s@.skip(10));
    }
    let k = match find_char_in(rest, '/') {
        None => {
            return None;
        },
        Some(k) => k,
    };
    let rlen = len - 10;
    let left = rest.substring_char(0, k);
    let right = rest.substring_char(k + 1, rlen);
    proof {
        assert(left@ =~= rest@.take(k as int));
        assert(right@ =~= rest@.skip(k + 1));
    }
    let a = match parse_i32(left) {
        None => {
            return None;
        },
        Some(a) => a,
    };
    let b = match parse_i32(right) {
        None => {
            return None;
        },
        Some(b) => b,
    };
    Some((a, b))
}

/// The events owed to one stdout line: the progress event where the trimmed
/// line parses as a progress line, then in every case the raw-output event.
pub open spec fn stdout_events(script: Seq<char>, label: Seq<char>, line: Seq<u8>) -> Seq<
    EventModel,
> {
    let out = trim_spec(lossy_decode(line));
    match progress_of(out) {
        Some(cm) => seq![
            EventModel::Progress { script, label, current: cm.0, max: cm.1 },
            EventModel::Output { script, output: out },
        ],
        None => seq![EventModel::Output { script, output: out }],
    }
}

/// The one event owed to a stderr line.
pub open spec fn stderr_events(script: Seq<char>, line: Seq<u8>) -> Seq<EventModel> {
    seq![EventModel::ErrorLine { script, error: trim_spec(lossy_decode(line)) }]
}

/// The completion event owed to a termination notice: success exactly on exit
/// code zero, with the exit-code field present exactly on failure.
pub open spec fn complete_event(script: Seq<char>, code: Option<i32>) -> EventModel {
    EventModel::Complete {
        script,
        success: code == Some(0i32),
        exit_code: if code == Some(0i32) {
            None
        } else {
            Some(code)
        },
    }
}

/// All events owed to one stream event.
pub open spec fn step_events(script: Seq<char>, label: Seq<char>, ev: OutputEventModel) -> Seq<
    EventModel,
> {
    match ev {
        OutputEventModel::StdoutLine(b) => stdout_events(script, label, b),
        OutputEventModel::StderrLine(b) => stderr_events(script, b),
        OutputEventModel::Terminated(c) => seq![complete_event(script, c)],
    }
}

/// Translates one stream event into the events to publish, in order, and
/// reports whether the invocation is over.
pub fn step(script: &str, label: &str, event: &OutputEvent) -> (r: (Vec<PublishedEvent>, bool))
    ensures
        views_of(r.0@) == step_events(script@, label@, event@),
        r.1 == (event@ is Terminated),
{
    let mut out: Vec<PublishedEvent> = Vec::new();
    match event {
        OutputEvent::StdoutLine(bytes) => {
            let line = decode_lossy(bytes.as_slice());
            let output = trim(line.as_str());
            match parse_progress(output.as_str()) {
                Some((current, maxv)) => {
                    out.push(
                        PublishedEvent::Progress {
                            script: script.to_owned(),
                            label: label.to_owned(),
                            current,
                            max: maxv,
                        },
                    );
                    out.push(PublishedEvent::Output { script: script.to_owned(), output });
                },
                None => {
                    out.push(PublishedEvent::Output { script: script.to_owned(), output });
                },
            }
            proof {
                assert(views_of(out@) =~= step_events(script@, label@, event@));
            }
            (out, false)
        },
        OutputEvent::StderrLine(bytes) => {
            let line = decode_lossy(bytes.as_slice());
            let error = trim(line.as_str());
            out.push(PublishedEvent::ErrorLine { script: script.to_owned(), error });
            proof {
                assert(views_of(out@) =~= step_events(script@, label@, event@));
            }
            (out, false)
        },
        OutputEvent::Terminated(code) => {
            let success = *code == Some(0i32);
            let exit_code: Option<Option<i32>> = if success {
                None
            } else {
                Some(*code)
            };
            out.push(
                PublishedEvent::Complete { script: script.to_owned(), success, exit_code },
            );
            proof {
                assert(views_of(out@) =~= step_events(script@, label@, event@));
            }
            (out, true)
        },
    }
}

/// All events one invocation publishes for a stream: events are handed on in
/// arrival order, and reading stops right after the first termination notice.
pub open spec fn trace(script: Seq<char>, label: Seq<char>, evs: Seq<OutputEventModel>) -> Seq<
    EventModel,
>
    decreases evs.len(),
{
    if evs.len() == 0 {
        Seq::empty()
    } else {
        step_events(script, label, evs[0]) + (if evs[0] is Terminated {
            Seq::<EventModel>::empty()
        } else {
            trace(script, label, evs.skip(1))
        })
    }
}

/// A stream that ends without a termination notice is read as if it closed
/// with one carrying no exit code.
pub open spec fn with_termination(evs: Seq<OutputEventModel>) -> Seq<OutputEventModel> {
    if exists|i: int| 0 <= i < evs.len() && evs[i] is Terminated {
        evs
    } else {
        evs.push(OutputEventModel::Terminated(None))
    }
}

/// Drives one whole invocation over an already-collected stream: publishes in
/// arrival order, stops at the first termination notice, and treats an
/// exhausted stream as termination with an unknown exit code.
pub fn run_events(script: &str, label: &str, events: &Vec<OutputEvent>) -> (r: Vec<PublishedEvent>)
    ensures
        views_of(r@) == trace(script@, label@, with_termination(models_of(events@))),
{
    let ghost full = with_termination(models_of(events@));
    let mut out: Vec<PublishedEvent> = Vec::new();
    let mut done = false;
    let mut i: usize = 0;
    let n = events.len();
    proof {
        assert(full.skip(0) =~= full);
        assert(views_of(out@) =~= Seq::<EventModel>::empty());
        assert(views_of(out@) + trace(script@, label@, full) =~= trace(script@, label@, full));
    }
    while i < n && !done
        invariant
            i <= n,
            n == events@.len(),
            full == with_termination(models_of(events@)),
            !done ==> forall|k: int| 0 <= k < i ==> !(models_of(events@)[k] is Terminated),
            !done ==> views_of(out@) + trace(script@, label@, full.skip(i as int)) == trace(
                script@,
                label@,
                full,
            ),
            done ==> views_of(out@) == trace(script@, label@, full),
        decreases n - i,
    {
        let ghost models = models_of(events@);
        proof {
            assert(models[i as int] == events@[i as int]@);
            if exists|j: int| 0 <= j < models.len() && models[j] is Terminated {
                assert(full == models);
            } else {
                assert(full == models.push(OutputEventModel::Terminated(None)));
            }
            assert(full[i as int] == models[i as int]);
            assert(full.skip(i as int)[0] == full[i as int]);
        }
        let (mut evs, d) = step(script, label, &events[i]);
        proof {
            assert(views_of(out@ + evs@) =~= views_of(out@) + views_of(evs@));
            assert(full.skip(i as int).skip(1) =~= full.skip(i + 1));
        }
        out.append(&mut evs);
        done = d;
        i = i + 1;
    }
    if !done {
        proof {
            assert(forall|k: int|
                0 <= k < models_of(events@).len() ==> !(models_of(events@)[k] is Terminated));
            assert(full == models_of(events@).push(OutputEventModel::Terminated(None)));
            assert(full.skip(i as int) =~= seq![OutputEventModel::Terminated(None)]);
        }
        let terminal = OutputEvent::Terminated(None);
        let (mut evs, _d) = step(script, label, &terminal);
        proof {
            assert(views_of(out@ + evs@) =~= views_of(out@) + views_of(evs@));
            assert(full.skip(i as int).skip(1) =~= Seq::<OutputEventModel>::empty());
        }
        out.append(&mut evs);
    }
    out
}

/// A stdout line whose trimmed text parses as a progress line yields exactly
/// two events, the progress event then the raw-output event, in that order.
pub proof fn lemma_stdout_progress_events(
    script: Seq<char>,
    label: Seq<char>,
    line: Seq<u8>,
    cur: i32,
    maxv: i32,
)
    requires
        progress_of(trim_spec(lossy_decode(line))) == Some((cur, maxv)),
    ensures
        step_events(script, label, OutputEventModel::StdoutLine(line)) == seq![
            (EventModel::Progress { script, label, current: cur, max: maxv }),
            (EventModel::Output { script, output: trim_spec(lossy_decode(line)) }),
        ],
{
}

/// A stdout line whose trimmed text is no progress line yields exactly one
/// event, the raw-output event, and no progress event.
pub proof fn lemma_stdout_plain_events(script: Seq<char>, label: Seq<char>, line: Seq<u8>)
    requires
        progress_of(trim_spec(lossy_decode(line))) is None,
    ensures
        step_events(script, label, OutputEventModel::StdoutLine(line)) == seq![
            (EventModel::Output { script, output: trim_spec(lossy_decode(line)) }),
        ],
{
}

/// A stderr line yields exactly one event, the error event: never a progress
/// or a raw-output event.
pub proof fn lemma_stderr_events(script: Seq<char>, label: Seq<char>, line: Seq<u8>)
    ensures
        step_events(script, label, OutputEventModel::StderrLine(line)) == seq![
            (EventModel::ErrorLine { script, error: trim_spec(lossy_decode(line)) }),
        ],
{
}

/// The completion event reports success exactly on exit code zero, and
/// carries the exit-code field exactly on failure.
pub proof fn lemma_complete_fields(script: Seq<char>, code: Option<i32>)
    ensures
        complete_event(script, code) matches EventModel::Complete {
            script: s2,
            success,
            exit_code,
        } && s2 == script && (success <==> code == Some(0i32)) && (exit_code is Some <==> !success)
            && (!success ==> exit_code == Some(code)),
{
}

proof fn lemma_step_events_no_complete(
    script: Seq<char>,
    label: Seq<char>,
    ev: OutputEventModel,
)
    requires
        !(ev is Terminated),
    ensures
        forall|j: int|
            0 <= j < step_events(script, label, ev).len() ==> !(#[trigger] step_events(
                script,
                label,
                ev,
            )[j] is Complete),
{
}

/// A stream that reports termination somewhere publishes exactly one
/// completion event, and it is the last event published.
pub proof fn lemma_complete_exactly_once(
    script: Seq<char>,
    label: Seq<char>,
    evs: Seq<OutputEventModel>,
)
    requires
        exists|i: int| 0 <= i < evs.len() && evs[i] is Terminated,
    ensures
        trace(script, label, evs).len() > 0,
        trace(script, label, evs).last() is Complete,
        forall|j: int|
            0 <= j < trace(script, label, evs).len() - 1 ==> !(#[trigger] trace(
                script,
                label,
                evs,
            )[j] is Complete),
    decreases evs.len(),
{
    let t = trace(script, label, evs);
    let h = step_events(script, label, evs[0]);
    if evs[0] is Terminated {
        assert(t =~= h);
    } else {
        lemma_step_events_no_complete(script, label, evs[0]);
        let i = choose|i: int| 0 <= i < evs.len() && evs[i] is Terminated;
        assert(evs.skip(1)[i - 1] is Terminated);
        lemma_complete_exactly_once(script, label, evs.skip(1));
        let tail = trace(script, label, evs.skip(1));
        assert(t == h + tail);
        assert(t.last() == tail.last());
        assert forall|j: int| 0 <= j < t.len() - 1 implies !(t[j] is Complete) by {
            if j < h.len() {
                assert(t[j] == h[j]);
            } else {
                assert(t[j] == tail[j - h.len()]);
            }
        }
    }
}

/// A stream with no termination notice publishes no completion event at all.
pub proof fn lemma_no_complete_without_termination(
    script: Seq<char>,
    label: Seq<char>,
    evs: Seq<OutputEventModel>,
)
    requires
        forall|i: int| 0 <= i < evs.len() ==> !(#[trigger] evs[i] is Terminated),
    ensures
        forall|j: int|
            0 <= j < trace(script, label, evs).len() ==> !(#[trigger] trace(
                script,
                label,
                evs,
            )[j] is Complete),
    decreases evs.len(),
{
    if evs.len() > 0 {
        let t = trace(script, label, evs);
        let h = step_events(script, label, evs[0]);
        lemma_step_events_no_complete(script, label, evs[0]);
        assert(forall|i: int| 0 <= i < evs.skip(1).len() ==> !(#[trigger] evs.skip(
            1,
        )[i] is Terminated));
        lemma_no_complete_without_termination(script, label, evs.skip(1));
        let tail = trace(script, label, evs.skip(1));
        assert forall|j: int| 0 <= j < t.len() implies !(t[j] is Complete) by {
            if j < h.len() {
                assert(t[j] == h[j]);
            } else {
                assert(t[j] == tail[j - h.len()]);
            }
        }
    }
}

/// However a stream ends, the supervisor publishes exactly one completion
/// event, and it is the last event published.
pub proof fn lemma_run_complete_last(
    script: Seq<char>,
    label: Seq<char>,
    evs: Seq<OutputEventModel>,
)
    ensures
        trace(script, label, with_termination(evs)).len() > 0,
        trace(script, label, with_termination(evs)).last() is Complete,
        forall|j: int|
            0 <= j < trace(script, label, with_termination(evs)).len() - 1 ==> !(#[trigger] trace(
                script,
                label,
                with_termination(evs),
            )[j] is Complete),
{
    let full = with_termination(evs);
    if exists|i: int| 0 <= i < evs.len() && evs[i] is Terminated {
        lemma_complete_exactly_once(script, label, full);
    } else {
        assert(full[evs.len() as int] is Terminated);
        lemma_complete_exactly_once(script, label, full);
    }
}

/// Where a script name carries the conventional bundled-binaries directory
/// prefix, resolution uses the name with that prefix removed.
pub open spec fn strip_prefix_spec(s: Seq<char>) -> Seq<char> {
    if s.len() >= 9 && s.take(9) == "binaries/"@ {
        s.skip(9)
    } else {
        s
    }
}

/// Removes the bundled-binaries directory prefix, if present, before the
/// worker binary is resolved.
pub fn strip_binaries_prefix(script: &str) -> (r: String)
    ensures
        r@ == strip_prefix_spec(script@),
{
    proof {
        reveal_strlit("binaries/");
    }
    let marker: &str = "binaries/";
    if has_prefix(script, marker) {
        let len = script.unicode_len();
        let rest = script.substring_char(9, len);
        proof {
            assert(rest@ =~= script@.skip(9));
        }
        rest.to_owned()
    } else {
        script.to_owned()
    }
}

} // verus!
