//! One section's runner: the decisions of a single execute/compare/publish
//! cycle. The surrounding process executes the shell command and sleeps;
//! the runner decides whether the output is new, what block it publishes,
//! whether a failure ends the process, and how long to sleep.

use vstd::prelude::*;

use crate::config::{Interval, Section};
use crate::protocol::{plain_block, view_opt_string, Block};

verus! {

/// ASCII whitespace, as trimmed from the end of command output.
pub open spec fn is_ascii_ws(c: char) -> bool {
    c == ' ' || c == '\t' || c == '\n' || c == '\u{c}' || c == '\r'
}

/// The output with every trailing ASCII whitespace character removed.
pub open spec fn trim_end_spec(s: Seq<char>) -> Seq<char>
    decreases s.len(),
{
    if s.len() == 0 {
        s
    } else if is_ascii_ws(s.last()) {
        trim_end_spec(s.drop_last())
    } else {
        s
    }
}

/// Remove trailing ASCII whitespace from a command's output.
pub fn trim_ascii_end(s: &str) -> (r: String)
    ensures
        r@ == trim_end_spec(s@),
{
    let n = s.unicode_len();
    let mut end = n;
    proof {
        assert(s@.take(n as int) =~= s@);
    }
    loop
        invariant
            end <= n,
            n == s@.len(),
            trim_end_spec(s@) == trim_end_spec(s@.take(end as int)),
        ensures
            end <= n,
            n == s@.len(),
            trim_end_spec(s@) == trim_end_spec(s@.take(end as int)),
            end == 0 || !is_ascii_ws(s@[end as int - 1]),
        decreases end,
    {
        if end == 0 {
            break;
        }
        let c = s.get_char(end - 1);
        if !(c == ' ' || c == '\t' || c == '\n' || c == '\u{c}' || c == '\r') {
            break;
        }
        proof {
            assert(s@.take(end as int).last() == s@[end - 1]);
            assert(s@.take(end as int).drop_last() =~= s@.take(end as int - 1));
        }
        end -= 1;
    }
    proof {
        if end > 0 {
            assert(s@.take(end as int).last() == s@[end - 1]);
            assert(!is_ascii_ws(s@.take(end as int).last()));
        }
        assert(trim_end_spec(s@.take(end as int)) == s@.take(end as int));
    }
    let piece = s.substring_char(0, end);
    proof {
        assert(piece@ =~= s@.take(end as int));
    }
    piece.to_owned()
}

/// The fatal condition raised when a section's command exits non-zero:
/// by design it must end the whole process, never one section alone.
#[derive(Debug, Clone)]
pub struct CommandFailed {
    pub command: String,
    pub stderr: String,
}

/// The runner's abstract state: the last published output, and whether
/// the runner has terminated.
#[verifier::ext_equal]
pub struct RunnerState {
    pub cache: Option<Seq<char>>,
    pub done: bool,
}

/// One runner cycle over the command's observed outcome: the next state,
/// the text published this cycle if any, and whether the cycle failed.
///
/// A failed command terminates the runner and publishes nothing. Output
/// equal to the cached text is suppressed. New output replaces the cache
/// and is published. A oneshot section terminates after its first cycle.
pub open spec fn runner_step(s: RunnerState, oneshot: bool, success: bool, out: Seq<char>) -> (
    RunnerState,
    Option<Seq<char>>,
    bool,
) {
    if !success {
        (RunnerState { cache: s.cache, done: true }, Option::None, true)
    } else {
        let t = trim_end_spec(out);
        if s.cache == Option::Some(t) {
            (RunnerState { cache: s.cache, done: oneshot }, Option::None, false)
        } else {
            (RunnerState { cache: Option::Some(t), done: oneshot }, Option::Some(t), false)
        }
    }
}

/// The runner for one configured section.
pub struct SectionRunner {
    pub section: Section,
    pub cache: Option<String>,
    pub done: bool,
}

impl SectionRunner {
    /// The runner's abstract state.
    pub open spec fn model(self) -> RunnerState {
        RunnerState { cache: view_opt_string(self.cache), done: self.done }
    }

    /// Whether this runner's section executes only once.
    pub open spec fn oneshot(self) -> bool {
        self.section.interval is Oneshot
    }

    /// A fresh runner: nothing cached, not terminated.
    pub fn new(section: Section) -> (r: Self)
        ensures
            r.section == section,
            r.cache is None,
            !r.done,
    {
        SectionRunner { section, cache: None, done: false }
    }

    /// Apply the outcome of one command execution: `success` is whether
    /// the command exited zero, `output` its captured standard output,
    /// `stderr` its captured standard error.
    ///
    /// A non-zero exit is fatal: the runner terminates and the failure
    /// carries the command and its standard error. Unchanged output
    /// publishes nothing. Otherwise the trimmed output is cached and the
    /// section's block is returned for publication.
    pub fn observe(&mut self, success: bool, output: &str, stderr: &str) -> (r: Result<
        Option<Block>,
        CommandFailed,
    >)
        requires
            !old(self).done,
        ensures
            final(self).section == old(self).section,
            final(self).model() == runner_step(
                old(self).model(),
                old(self).oneshot(),
                success,
                output@,
            ).0,
            r is Err <==> !success,
            r matches Err(e) ==> e.command@ == old(self).section.command@ && e.stderr@ == stderr@,
            r matches Ok(Some(b)) ==> runner_step(
                old(self).model(),
                old(self).oneshot(),
                success,
                output@,
            ).1 == Option::Some(b.full_text@) && b@ == plain_block(
                trim_end_spec(output@),
                "command"@,
                old(self).section.name@,
            ),
            r matches Ok(None) ==> runner_step(
                old(self).model(),
                old(self).oneshot(),
                success,
                output@,
            ).1 is None,
            success && view_opt_string(old(self).cache) == Option::Some(trim_end_spec(output@))
                ==> r == Result::<Option<Block>, CommandFailed>::Ok(Option::None),
    {
        if !success {
            self.done = true;
            return Err(
                CommandFailed { command: self.section.command.clone(), stderr: stderr.to_owned() },
            );
        }
        let t = trim_ascii_end(output);
        let unchanged = match &self.cache {
            Some(c) => *c == t,
            None => false,
        };
        let oneshot = match self.section.interval {
            Interval::Oneshot => true,
            Interval::Seconds(_) => false,
        };
        if unchanged {
            self.done = oneshot;
            Ok(None)
        } else {
            let b = Block::new(t.as_str(), "command", self.section.name.as_str());
            self.cache = Some(t);
            self.done = oneshot;
            Ok(Some(b))
        }
    }

    /// How long to sleep before the next cycle, in milliseconds: the
    /// configured period minus the time this cycle already took, floored
    /// at zero; nothing when the runner has terminated.
    pub fn next_delay_ms(&self, elapsed_ms: u64) -> (r: Option<u64>)
        ensures
            r is Some <==> !self.done && self.section.interval is Seconds,
            r matches Some(d) ==> match self.section.interval {
                Interval::Seconds(secs) => {
                    let period = if secs <= u64::MAX as int / 1000 {
                        secs * 1000
                    } else {
                        u64::MAX as int
                    };
                    d == if elapsed_ms as int >= period {
                        0
                    } else {
                        period - elapsed_ms as int
                    }
                },
                Interval::Oneshot => false,
            },
    {
        if self.done {
            return None;
        }
        match self.section.interval {
            Interval::Oneshot => None,
            Interval::Seconds(secs) => {
                let period = if secs <= u64::MAX / 1000 {
                    secs * 1000
                } else {
                    u64::MAX
                };
                if elapsed_ms >= period {
                    Some(0)
                } else {
                    Some(period - elapsed_ms)
                }
            },
        }
    }
}

/// How many publications a sequence of cycles produces: each event is a
/// command outcome (exit success and raw output); cycles after the
/// runner has terminated do not occur and count nothing.
pub open spec fn publish_count(
    s: RunnerState,
    oneshot: bool,
    evs: Seq<(bool, Seq<char>)>,
) -> int
    decreases evs.len(),
{
    if evs.len() == 0 || s.done {
        0
    } else {
        let st = runner_step(s, oneshot, evs[0].0, evs[0].1);
        (if st.1 is Some {
            1int
        } else {
            0int
        }) + publish_count(st.0, oneshot, evs.skip(1))
    }
}

/// A terminated runner never publishes again: its slot is frozen.
pub proof fn lemma_done_never_publishes(s: RunnerState, oneshot: bool, evs: Seq<(bool, Seq<char>)>)
    requires
        s.done,
    ensures
        publish_count(s, oneshot, evs) == 0,
{
}

/// A oneshot section publishes exactly one block over the process
/// lifetime: whatever outputs its command produces, a fresh oneshot
/// runner whose first command execution succeeds publishes on that first
/// cycle and never again.
pub proof fn lemma_oneshot_publishes_once(evs: Seq<(bool, Seq<char>)>)
    requires
        evs.len() > 0,
        evs[0].0,
    ensures
        publish_count(RunnerState { cache: Option::None, done: false }, true, evs) == 1,
{
    let s0 = RunnerState { cache: Option::None, done: false };
    let st = runner_step(s0, true, evs[0].0, evs[0].1);
    assert(st.1 == Option::Some(trim_end_spec(evs[0].1)));
    assert(st.0.done);
    lemma_done_never_publishes(st.0, true, evs.skip(1));
}

} // verus!
