//! The aggregation engine: one ordered snapshot fed by every section,
//! gated behind a startup barrier and a minimum emission interval.
//!
//! The controller is a state machine over plain values. The surrounding
//! process delivers each arriving block together with a monotonic
//! timestamp; the controller decides whether a line must be emitted and
//! what it holds.

use vstd::prelude::*;

use crate::config::{Config, ConfigError};
use crate::json::{header_json, status_json, status_to_json};
use crate::protocol::{Block, BlockV, Header, Status};

verus! {

/// The key that routes an arriving block to its snapshot slot.
#[derive(Debug, Clone)]
pub struct SectionId {
    pub module: String,
    pub name: String,
}

/// The mathematical model of a [`SectionId`].
#[verifier::ext_equal]
pub struct SectionIdV {
    pub module: Seq<char>,
    pub name: Seq<char>,
}

impl View for SectionId {
    type V = SectionIdV;

    open spec fn view(&self) -> SectionIdV {
        SectionIdV { module: self.module@, name: self.name@ }
    }
}

impl SectionId {
    /// Build an identity key from its two parts.
    pub fn new(module: &str, name: &str) -> (r: Self)
        ensures
            r@ == (SectionIdV { module: module@, name: name@ }),
    {
        SectionId { module: module.to_owned(), name: name.to_owned() }
    }

    /// Whether two identity keys address the same section.
    pub fn matches(&self, other: &SectionId) -> (r: bool)
        ensures
            r == (self@ == other@),
    {
        let r = self.module == other.module && self.name == other.name;
        proof {
            if self@.module == other@.module && self@.name == other@.name {
                assert(self@ == other@);
            }
        }
        r
    }
}

/// The identity under which a block is routed: the block's `name` field
/// is the module, its `instance` field the section name.
pub open spec fn block_id(b: BlockV) -> SectionIdV {
    SectionIdV { module: b.name, name: b.instance }
}

/// The identity a configured section is indexed under.
pub open spec fn section_id_of(name: Seq<char>) -> SectionIdV {
    SectionIdV { module: "command"@, name: name }
}

/// Whether some slot carries the given identity.
pub open spec fn has_id(ids: Seq<SectionIdV>, id: SectionIdV) -> bool {
    exists|i: int| 0 <= i < ids.len() && ids[i] == id
}

/// The slot carrying the given identity; meaningful only under `has_id`
/// and distinctness.
pub open spec fn id_slot(ids: Seq<SectionIdV>, id: SectionIdV) -> int {
    choose|i: int| 0 <= i < ids.len() && ids[i] == id
}

/// All identity slots pairwise distinct.
pub open spec fn distinct_ids(ids: Seq<SectionIdV>) -> bool {
    forall|i: int, j: int| 0 <= i < j < ids.len() ==> ids[i] != ids[j]
}

/// The controller's abstract state: the identity of every slot, the
/// barrier buffer, the snapshot, and the emission gate.
#[verifier::ext_equal]
pub struct CtrlState {
    pub ids: Seq<SectionIdV>,
    pub pending: Seq<Option<BlockV>>,
    pub blocks: Seq<BlockV>,
    pub started: bool,
    pub last_sent: int,
    pub min_interval: int,
}

/// One controller step: route the block, run the barrier or the rate limiter.
/// Returns the next state and whether a snapshot line is emitted.
pub open spec fn ctrl_step(s: CtrlState, b: BlockV, now: int) -> (CtrlState, bool) {
    if !has_id(s.ids, block_id(b)) {
        (s, false)
    } else {
        let i = id_slot(s.ids, block_id(b));
        if !s.started {
            let pending2 = s.pending.update(i, Option::Some(b));
            if forall|j: int| 0 <= j < pending2.len() ==> pending2[j] is Some {
                (
                    CtrlState {
                        pending: Seq::empty(),
                        blocks: Seq::new(pending2.len() as nat, |j: int| pending2[j]->0),
                        started: true,
                        last_sent: now,
                        ..s
                    },
                    true,
                )
            } else {
                (CtrlState { pending: pending2, ..s }, false)
            }
        } else {
            let blocks2 = s.blocks.update(i, b);
            if now - s.last_sent > s.min_interval {
                (CtrlState { blocks: blocks2, last_sent: now, ..s }, true)
            } else {
                (CtrlState { blocks: blocks2, ..s }, false)
            }
        }
    }
}

/// Well-formedness of the abstract state: slots match the identity list,
/// the barrier buffer exists exactly until the first emission, buffered
/// and snapshot blocks sit in the slot their identity selects.
pub open spec fn model_wf(s: CtrlState) -> bool {
    &&& s.ids.len() > 0
    &&& distinct_ids(s.ids)
    &&& !s.started ==> s.pending.len() == s.ids.len() && s.blocks.len() == 0
    &&& s.started ==> s.pending.len() == 0 && s.blocks.len() == s.ids.len()
    &&& forall|j: int|
        0 <= j < s.pending.len() && s.pending[j] is Some ==> block_id(#[trigger] s.pending[j]->0)
            == s.ids[j]
    &&& s.started ==> forall|j: int|
        0 <= j < s.blocks.len() ==> block_id(#[trigger] s.blocks[j]) == s.ids[j]
}

/// A section's name occurs twice in the configuration.
pub open spec fn has_duplicate_names(sections: Seq<crate::config::Section>) -> bool {
    exists|i: int, j: int|
        0 <= i < j < sections.len() && sections[i].name@ == sections[j].name@
}

/// Why a received block could not be applied.
#[derive(Debug, Clone)]
pub enum StatusError {
    /// The block's identity is not in the startup index; by design this
    /// is an invariant violation that must abort the process.
    IdentityNotFound(SectionId),
}

/// A step keeps the abstract state well-formed, never loses a slot's
/// identity, keeps the limiter configuration, and once started the
/// controller stays started.
pub proof fn lemma_step_preserves_wf(s: CtrlState, b: BlockV, now: int)
    requires
        model_wf(s),
    ensures
        model_wf(ctrl_step(s, b, now).0),
        ctrl_step(s, b, now).0.ids == s.ids,
        ctrl_step(s, b, now).0.min_interval == s.min_interval,
        s.started ==> ctrl_step(s, b, now).0.started,
{
    if has_id(s.ids, block_id(b)) {
        let i = id_slot(s.ids, block_id(b));
        assert(0 <= i < s.ids.len() && s.ids[i] == block_id(b));
        let s2 = ctrl_step(s, b, now).0;
        if !s.started {
            let pending2 = s.pending.update(i, Option::Some(b));
            if forall|j: int| 0 <= j < pending2.len() ==> pending2[j] is Some {
                assert forall|j: int| 0 <= j < s2.blocks.len() implies block_id(
                    #[trigger] s2.blocks[j],
                ) == s2.ids[j] by {
                    assert(s2.blocks[j] == pending2[j]->0);
                    if j != i {
                        assert(pending2[j] == s.pending[j]);
                    }
                }
            } else {
                assert forall|j: int|
                    0 <= j < s2.pending.len() && s2.pending[j] is Some implies block_id(
                    #[trigger] s2.pending[j]->0,
                ) == s2.ids[j] by {
                    if j != i {
                        assert(s2.pending[j] == s.pending[j]);
                    }
                }
            }
        } else {
            assert forall|j: int| 0 <= j < s2.blocks.len() implies block_id(
                #[trigger] s2.blocks[j],
            ) == s2.ids[j] by {
                if j != i {
                    assert(s2.blocks[j] == s.blocks[j]);
                }
            }
        }
    }
}

/// Completing the startup barrier emits a snapshot holding exactly one
/// block per configured section, each in the slot of its section's
/// configuration index — whatever order the sections reported in.
pub proof fn lemma_first_snapshot(s: CtrlState, b: BlockV, now: int)
    requires
        model_wf(s),
        !s.started,
        ctrl_step(s, b, now).1,
    ensures
        ctrl_step(s, b, now).0.blocks.len() == s.ids.len(),
        forall|j: int|
            0 <= j < s.ids.len() ==> block_id(#[trigger] ctrl_step(s, b, now).0.blocks[j])
                == s.ids[j],
        ctrl_step(s, b, now).0.last_sent == now,
{
    lemma_step_preserves_wf(s, b, now);
    let s2 = ctrl_step(s, b, now).0;
    assert(has_id(s.ids, block_id(b)));
    assert(s2.started);
    assert(s2.blocks.len() == s.ids.len());
}

/// The snapshot of the first emission a sequence of events causes, if
/// any event causes one.
pub open spec fn first_emitted_blocks(s: CtrlState, evs: Seq<(BlockV, int)>) -> Option<Seq<BlockV>>
    decreases evs.len(),
{
    if evs.len() == 0 {
        Option::None
    } else {
        let st = ctrl_step(s, evs[0].0, evs[0].1);
        if st.1 {
            Option::Some(st.0.blocks)
        } else {
            first_emitted_blocks(st.0, evs.skip(1))
        }
    }
}

/// Whatever order the sections first report in, the first emitted
/// snapshot holds exactly one block per configured slot, each in the
/// slot its identity selects.
pub proof fn lemma_first_snapshot_any_order(s: CtrlState, evs: Seq<(BlockV, int)>)
    requires
        model_wf(s),
        !s.started,
    ensures
        first_emitted_blocks(s, evs) matches Some(bs) ==> bs.len() == s.ids.len() && forall|j: int|
            0 <= j < s.ids.len() ==> block_id(#[trigger] bs[j]) == s.ids[j],
    decreases evs.len(),
{
    if evs.len() > 0 {
        let st = ctrl_step(s, evs[0].0, evs[0].1);
        lemma_step_preserves_wf(s, evs[0].0, evs[0].1);
        if st.1 {
            lemma_first_snapshot(s, evs[0].0, evs[0].1);
        } else {
            assert(!st.0.started);
            lemma_first_snapshot_any_order(st.0, evs.skip(1));
        }
    }
}

/// Running the controller over a sequence of timestamped events.
pub open spec fn ctrl_run(s: CtrlState, evs: Seq<(BlockV, int)>) -> CtrlState
    decreases evs.len(),
{
    if evs.len() == 0 {
        s
    } else {
        ctrl_run(ctrl_step(s, evs[0].0, evs[0].1).0, evs.skip(1))
    }
}

/// The timestamps of the emissions a sequence of events causes.
pub open spec fn emission_times(s: CtrlState, evs: Seq<(BlockV, int)>) -> Seq<int>
    decreases evs.len(),
{
    if evs.len() == 0 {
        Seq::empty()
    } else {
        let st = ctrl_step(s, evs[0].0, evs[0].1);
        (if st.1 {
            seq![evs[0].1]
        } else {
            Seq::empty()
        }) + emission_times(st.0, evs.skip(1))
    }
}

/// Once started, the controller stays started.
pub proof fn lemma_run_started_monotone(s: CtrlState, evs: Seq<(BlockV, int)>)
    requires
        s.started,
    ensures
        ctrl_run(s, evs).started,
    decreases evs.len(),
{
    if evs.len() > 0 {
        lemma_run_started_monotone(ctrl_step(s, evs[0].0, evs[0].1).0, evs.skip(1));
    }
}

/// The rate limit: over any sequence of events, no two snapshot
/// emissions lie the minimum interval or closer together — the one
/// exception being the mandatory first emission after the startup
/// barrier, which no earlier emission precedes. The controller's gate
/// timestamp always records the latest emission.
pub proof fn lemma_rate_limit(s: CtrlState, evs: Seq<(BlockV, int)>)
    ensures
        ({
            let ts = emission_times(s, evs);
            &&& ctrl_run(s, evs).last_sent == if ts.len() == 0 {
                s.last_sent
            } else {
                ts.last()
            }
            &&& ts.len() > 0 ==> ctrl_run(s, evs).started
            &&& ts.len() > 0 && s.started ==> ts[0] - s.last_sent > s.min_interval
            &&& forall|i: int| 0 <= i < ts.len() - 1 ==> #[trigger] ts[i + 1] - ts[i] > s.min_interval
        }),
    decreases evs.len(),
{
    let ts = emission_times(s, evs);
    if evs.len() == 0 {
    } else {
        let st = ctrl_step(s, evs[0].0, evs[0].1);
        let t0 = evs[0].1;
        let rest = evs.skip(1);
        let ts2 = emission_times(st.0, rest);
        lemma_rate_limit(st.0, rest);
        assert(st.0.min_interval == s.min_interval);
        if st.1 {
            assert(st.0.started);
            assert(st.0.last_sent == t0);
            assert(ts =~= seq![t0] + ts2);
            if s.started {
                assert(t0 - s.last_sent > s.min_interval);
            }
            if ts2.len() == 0 {
                assert(ts.last() == t0);
                lemma_run_started_monotone(st.0, rest);
            } else {
                assert(ts.last() == ts2.last());
                assert(ts2[0] - t0 > s.min_interval);
            }
            assert forall|i: int| 0 <= i < ts.len() - 1 implies #[trigger] ts[i + 1] - ts[i]
                > s.min_interval by {
                if i == 0 {
                    assert(ts2.len() > 0);
                    assert(ts[0] == t0);
                    assert(ts[1] == ts2[0]);
                    assert(ts2[0] - st.0.last_sent > st.0.min_interval);
                } else {
                    let k = i - 1;
                    assert(ts[i] == ts2[k]);
                    assert(ts[i + 1] == ts2[k + 1]);
                    assert(ts2[k + 1] - ts2[k] > st.0.min_interval);
                }
            }
        } else {
            assert(st.0.last_sent == s.last_sent);
            assert(st.0.started == s.started);
            assert(ts =~= ts2);
        }
    }
}

/// The aggregator: owns the ordered snapshot and the identity index,
/// runs the startup barrier, and applies the rate-limited emission
/// policy.
pub struct StatusController {
    pub config: Config,
    pub section_ids: Vec<SectionId>,
    pub pending: Vec<Option<Block>>,
    pub status: Status,
    pub started: bool,
    pub last_sent: u64,
    pub header: Header,
}

/// The model of one barrier slot.
pub open spec fn view_opt_block(o: Option<Block>) -> Option<BlockV> {
    match o {
        Option::Some(b) => Option::Some(b@),
        Option::None => Option::None,
    }
}

impl StatusController {
    /// The number of configured sections.
    pub open spec fn num_sections(self) -> int {
        self.config.sections@.len() as int
    }

    /// The controller's abstract state.
    pub open spec fn model(self) -> CtrlState {
        CtrlState {
            ids: self.section_ids@.map_values(|x: SectionId| x@),
            pending: self.pending@.map_values(|o: Option<Block>| view_opt_block(o)),
            blocks: self.status@,
            started: self.started,
            last_sent: self.last_sent as int,
            min_interval: self.config.min_interval as int,
        }
    }

    /// Well-formedness: the identity list mirrors the configuration in
    /// order, and the abstract state is well-formed.
    pub open spec fn wf(self) -> bool {
        &&& self.section_ids@.len() == self.num_sections()
        &&& forall|i: int|
            0 <= i < self.num_sections() ==> (#[trigger] self.section_ids@[i])@ == section_id_of(
                self.config.sections@[i].name@,
            )
        &&& model_wf(self.model())
    }

    /// Build a controller over a validated configuration: the section
    /// list must be non-empty and section names must be distinct, so
    /// that every identity addresses exactly one slot. A duplicate name
    /// is rejected here rather than silently overwriting a slot.
    pub fn new(config: Config) -> (r: Result<StatusController, ConfigError>)
        ensures
            r is Ok <==> config.sections@.len() > 0 && !has_duplicate_names(config.sections@),
            config.sections@.len() == 0 ==> r == Result::<StatusController, ConfigError>::Err(
                ConfigError::EmptySections,
            ),
            r matches Err(e) ==> e == ConfigError::EmptySections || (e matches
                ConfigError::DuplicateSectionName(n) && exists|i: int, j: int|
                0 <= i < j < config.sections@.len() && config.sections@[i].name@ == n@
                    && config.sections@[j].name@ == n@),
            r matches Ok(c) ==> {
                &&& c.wf()
                &&& c.config.sections@ == config.sections@
                &&& c.config.min_interval == config.min_interval
                &&& !c.started
                &&& c.last_sent == 0
                &&& forall|i: int| 0 <= i < c.pending@.len() ==> c.pending@[i] is None
                &&& c.header.version == 1u8
                &&& !c.header.click_events
            },
    {
        let n = config.sections.len();
        if n == 0 {
            return Err(ConfigError::EmptySections);
        }
        let mut i: usize = 1;
        while i < n
            invariant
                1 <= i <= n,
                n == config.sections@.len(),
                forall|a: int, b: int|
                    0 <= a < b < i ==> config.sections@[a].name@ != config.sections@[b].name@,
            decreases n - i,
        {
            let mut j: usize = 0;
            while j < i
                invariant
                    0 <= j <= i < n,
                    n == config.sections@.len(),
                    forall|b: int| 0 <= b < j ==> config.sections@[b].name@ != config.sections@[
                        i as int
                    ].name@,
                decreases i - j,
            {
                if config.sections[j].name == config.sections[i].name {
                    return Err(ConfigError::DuplicateSectionName(config.sections[i].name.clone()));
                }
                j += 1;
            }
            i += 1;
        }
        let mut section_ids: Vec<SectionId> = Vec::new();
        let mut pending: Vec<Option<Block>> = Vec::new();
        let mut k: usize = 0;
        while k < n
            invariant
                0 <= k <= n,
                n == config.sections@.len(),
                section_ids@.len() == k,
                pending@.len() == k,
                forall|i: int|
                    0 <= i < k ==> (#[trigger] section_ids@[i])@ == section_id_of(
                        config.sections@[i].name@,
                    ),
                forall|i: int| 0 <= i < k ==> pending@[i] is None,
            decreases n - k,
        {
            section_ids.push(SectionId::new("command", config.sections[k].name.as_str()));
            pending.push(None);
            k += 1;
        }
        let c = StatusController {
            config,
            section_ids,
            pending,
            status: Status { blocks: Vec::new() },
            started: false,
            last_sent: 0,
            header: Header::new(),
        };
        proof {
            assert forall|i: int, j: int| 0 <= i < j < c.model().ids.len() implies c.model().ids[i]
                != c.model().ids[j] by {
                assert(c.model().ids[i].name == c.config.sections@[i].name@);
                assert(c.model().ids[j].name == c.config.sections@[j].name@);
            }
            assert(c.wf());
        }
        Ok(c)
    }

    /// The line emitted once before any snapshot: the header object
    /// followed by the opening of the never-closed outer array.
    pub fn header_line(&self) -> (r: String)
        ensures
            r@ == header_json(self.header) + "\n["@,
    {
        let mut line = crate::json::header_to_json(&self.header);
        line.append("\n[");
        line
    }

    /// The line emitted for the current snapshot: the block array with
    /// its trailing comma.
    pub fn status_line(&self) -> (r: String)
        ensures
            r@ == status_json(self.status@) + ","@,
    {
        let mut line = status_to_json(&self.status);
        line.append(",");
        line
    }

    /// Apply one arriving block at the given monotonic timestamp.
    ///
    /// Before the barrier completes the block is buffered; the barrier
    /// completes when every section has reported once, upon which the
    /// first full snapshot is returned unconditionally. After that the
    /// block replaces its slot and a line is returned exactly when more
    /// than the minimum interval has passed since the last emission.
    /// A block whose identity is not in the index leaves the state
    /// unchanged and reports [`StatusError::IdentityNotFound`].
    pub fn on_block(&mut self, block: Block, now_ms: u64) -> (r: Result<
        Option<String>,
        StatusError,
    >)
        requires
            old(self).wf(),
            old(self).started ==> now_ms >= old(self).last_sent,
        ensures
            final(self).wf(),
            final(self).config.sections@ == old(self).config.sections@,
            final(self).config.min_interval == old(self).config.min_interval,
            final(self).section_ids@ == old(self).section_ids@,
            final(self).header == old(self).header,
            final(self).model() == ctrl_step(old(self).model(), block@, now_ms as int).0,
            r is Err <==> !has_id(old(self).model().ids, block_id(block@)),
            r matches Err(StatusError::IdentityNotFound(e)) ==> e@ == block_id(block@),
            r matches Ok(Some(line)) ==> ctrl_step(old(self).model(), block@, now_ms as int).1
                && line@ == status_json(final(self).model().blocks) + ","@,
            r matches Ok(None) ==> !ctrl_step(old(self).model(), block@, now_ms as int).1,
    {
        let ghost s0 = self.model();
        let ghost bid = block_id(block@);
        let probe = SectionId::new(block.name.as_str(), block.instance.as_str());
        assert(probe@ == bid);
        let n = self.section_ids.len();
        let mut idx: usize = n;
        let mut j: usize = 0;
        while j < n
            invariant
                0 <= j <= n,
                idx <= n,
                n == self.section_ids@.len(),
                s0.ids == self.section_ids@.map_values(|x: SectionId| x@),
                probe@ == bid,
                idx == n ==> forall|t: int| 0 <= t < j ==> s0.ids[t] != bid,
                idx < n ==> s0.ids[idx as int] == bid,
            decreases n - j,
        {
            if idx == n && self.section_ids[j].matches(&probe) {
                idx = j;
            }
            j += 1;
        }
        if idx == n {
            assert(!has_id(s0.ids, bid));
            return Err(StatusError::IdentityNotFound(probe));
        }
        proof {
            assert(s0.ids[idx as int] == bid);
            assert(has_id(s0.ids, bid)) by {
                assert(0 <= (idx as int) < s0.ids.len() && s0.ids[idx as int] == bid);
            }
            let c = id_slot(s0.ids, bid);
            assert(0 <= c < s0.ids.len() && s0.ids[c] == bid);
            assert(distinct_ids(s0.ids));
            assert(c == idx as int);
        }
        if !self.started {
            self.pending.set(idx, Some(block));
            proof {
                assert(self.model().pending =~= s0.pending.update(idx as int, Option::Some(
                    block@,
                )));
            }
            let ghost pending2 = self.model().pending;
            let k = self.pending.len();
            let mut all = true;
            let mut t: usize = 0;
            while t < k
                invariant
                    0 <= t <= k,
                    k == self.pending@.len(),
                    pending2 == self.model().pending,
                    pending2.len() == k,
                    all <==> forall|u: int| 0 <= u < t ==> pending2[u] is Some,
                decreases k - t,
            {
                proof {
                    assert(pending2[t as int] == view_opt_block(self.pending@[t as int]));
                }
                if self.pending[t].is_none() {
                    all = false;
                }
                t += 1;
            }
            if all {
                assert(forall|u: int| 0 <= u < pending2.len() ==> pending2[u] is Some);
                let ghost pend0 = self.pending@;
                proof {
                    assert forall|u: int| 0 <= u < pend0.len() implies #[trigger] view_opt_block(
                        pend0[u],
                    ) == pending2[u] && pend0[u] is Some by {
                        assert(pending2[u] == view_opt_block(self.pending@[u]));
                        assert(pending2[u] is Some);
                    }
                }
                let mut blocks: Vec<Block> = Vec::new();
                while self.pending.len() > 0
                    invariant
                        self.config == old(self).config,
                        self.section_ids@ == old(self).section_ids@,
                        self.header == old(self).header,
                        self.started == old(self).started,
                        self.last_sent == old(self).last_sent,
                        self.status@ == old(self).status@,
                        blocks@.len() + self.pending@.len() == pend0.len(),
                        forall|u: int| 0 <= u < blocks@.len() ==> pend0[u] == Option::Some(
                            #[trigger] blocks@[u],
                        ),
                        forall|u: int|
                            0 <= u < self.pending@.len() ==> #[trigger] self.pending@[u] == pend0[
                                blocks@.len() + u
                            ],
                        forall|u: int|
                            0 <= u < pend0.len() ==> #[trigger] view_opt_block(pend0[u]) == pending2[
                                u
                            ],
                        forall|u: int| 0 <= u < pend0.len() ==> #[trigger] pend0[u] is Some,
                    decreases self.pending@.len(),
                {
                    let opt = self.pending.remove(0);
                    match opt {
                        Some(b) => blocks.push(b),
                        None => {
                            proof {
                                assert(false);
                            }
                        },
                    }
                }
                let ghost blocksv = blocks@;
                self.status = Status { blocks };
                self.started = true;
                self.last_sent = now_ms;
                proof {
                    assert(self.model().pending =~= Seq::<Option<BlockV>>::empty());
                    assert(self.model().blocks.len() == pending2.len());
                    assert forall|u: int| 0 <= u < pending2.len() implies #[trigger] self.model().blocks[u]
                        == pending2[u]->0 by {
                        assert(self.model().blocks[u] == blocksv[u]@);
                        assert(pend0[u] == Option::Some(blocksv[u]));
                        assert(view_opt_block(pend0[u]) == pending2[u]);
                    }
                    let ps = s0.pending.update(id_slot(s0.ids, block_id(block@)), Option::Some(
                        block@,
                    ));
                    assert(pending2 == ps);
                    assert forall|u: int| 0 <= u < ps.len() implies #[trigger] ps[u] is Some by {
                        assert(pending2[u] is Some);
                    }
                    assert(ctrl_step(s0, block@, now_ms as int).1);
                    assert(self.model().blocks =~= ctrl_step(s0, block@, now_ms as int).0.blocks);
                    assert(self.model() =~= ctrl_step(s0, block@, now_ms as int).0);
                    assert forall|u: int| 0 <= u < pending2.len() implies block_id(
                        #[trigger] self.model().blocks[u],
                    ) == self.model().ids[u] by {
                        if u != idx as int {
                            assert(pending2[u] == s0.pending[u]);
                        }
                    }
                    assert(model_wf(self.model()));
                }
                let line = self.status_line();
                Ok(Some(line))
            } else {
                proof {
                    assert(!(forall|u: int| 0 <= u < pending2.len() ==> pending2[u] is Some));
                    assert(self.model() =~= ctrl_step(s0, block@, now_ms as int).0);
                    assert(model_wf(self.model()));
                }
                Ok(None)
            }
        } else {
            self.status.blocks.set(idx, block);
            proof {
                assert(self.model().blocks =~= s0.blocks.update(idx as int, block@));
                assert(model_wf(self.model()));
            }
            if now_ms - self.last_sent > self.config.min_interval {
                self.last_sent = now_ms;
                proof {
                    assert(self.model() =~= ctrl_step(s0, block@, now_ms as int).0);
                }
                let line = self.status_line();
                Ok(Some(line))
            } else {
                proof {
                    assert(self.model() =~= ctrl_step(s0, block@, now_ms as int).0);
                }
                Ok(None)
            }
        }
    }
}

} // verus!
