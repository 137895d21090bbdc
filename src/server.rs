//! The marker server: the registry of committed markers, the buffer of staged
//! changes, and the operations on them.

use vstd::prelude::*;
use crate::handlers::{HandlerId, HandlerTable, DEFAULT_FEEDBACK_CB, POSE_UPDATE};
use crate::keyed::{keys_unique, NameMap, pairs_to_map, lemma_map_len, lemma_map_finite};
use crate::model::{full_name_matches, lemma_applied_step, staged_header, ContextView, KindView, PendingView, apply_one, applied, chosen_handler, ctx_with_handler, effective, erase_all, erase_records, erase_update, full_records, full_update, pending_with_handler, pose_header, pose_records, pose_update};
use crate::types::{Feedback, MarkerDef, MarkerHeader, MarkerPose, MarkerUpdate, PoseRecord};

verus! {

/// A committed marker, with its feedback bookkeeping and handlers.
pub struct MarkerContext {
    pub marker: MarkerDef,
    pub last_feedback: Option<u64>,
    pub last_client_id: String,
    pub default_handler: Option<HandlerId>,
    pub handlers: HandlerTable,
}

impl View for MarkerContext {
    type V = ContextView;

    open spec fn view(&self) -> ContextView {
        ContextView {
            marker: self.marker@,
            last_feedback: self.last_feedback,
            last_client_id: self.last_client_id@,
            default_handler: self.default_handler,
            handlers: self.handlers@,
        }
    }
}

/// What a staged change does to its marker.
pub enum UpdateKind {
    FullReplace(MarkerDef),
    PoseOnly(MarkerHeader, MarkerPose),
    Erase,
}

impl View for UpdateKind {
    type V = KindView;

    open spec fn view(&self) -> KindView {
        match self {
            UpdateKind::FullReplace(d) => KindView::FullReplace(d@),
            UpdateKind::PoseOnly(h, q) => KindView::PoseOnly(*h, *q),
            UpdateKind::Erase => KindView::Erase,
        }
    }
}

/// A staged change, with the handler changes staged alongside it.
pub struct PendingUpdate {
    pub kind: UpdateKind,
    pub default_handler: Option<HandlerId>,
    pub handlers: HandlerTable,
}

impl View for PendingUpdate {
    type V = PendingView;

    open spec fn view(&self) -> PendingView {
        PendingView { kind: self.kind@, default_handler: self.default_handler, handlers: self.handlers@ }
    }
}

fn erase_pending() -> (r: PendingUpdate)
    ensures
        r@ == erase_update(),
{
    PendingUpdate { kind: UpdateKind::Erase, default_handler: None, handlers: HandlerTable::new() }
}

/// Keeps a registry of interactive markers in step with remote observers: changes
/// are staged per marker, and a flush commits them and returns one diff.
pub struct InteractiveMarkerServer {
    topic_namespace: String,
    contexts: NameMap<MarkerContext>,
    pending: NameMap<PendingUpdate>,
    sequence_number: u64,
}

impl InteractiveMarkerServer {
    /// The committed markers, by name.
    pub closed spec fn registry(&self) -> Map<Seq<char>, ContextView> {
        self.contexts.map()
    }

    /// The staged changes, by name.
    pub closed spec fn pending(&self) -> Map<Seq<char>, PendingView> {
        self.pending.map()
    }

    /// The staged changes in the order that a flush reports them.
    pub closed spec fn pending_entries(&self) -> Seq<(Seq<char>, PendingView)> {
        self.pending.pairs()
    }

    /// The namespace of the topics that the server's traffic goes under.
    pub closed spec fn namespace(&self) -> Seq<char> {
        self.topic_namespace@
    }

    /// The number of the last diff, or 0 before the first.
    pub closed spec fn seq(&self) -> u64 {
        self.sequence_number
    }

    /// The registry and the buffer each hold one entry per name, and every
    /// committed or wholly staged definition bears the name it is filed under.
    pub closed spec fn wf(&self) -> bool {
        &&& self.contexts.wf()
        &&& self.pending.wf()
        &&& forall|k: Seq<char>| #[trigger]
            self.registry().contains_key(k) ==> self.registry()[k].marker.name == k
        &&& forall|k: Seq<char>| #[trigger]
            self.pending().contains_key(k) ==> match self.pending()[k].kind {
                KindView::FullReplace(d) => d.name == k,
                _ => true,
            }
    }

    /// Facts of a well-formed server that hold by construction.
    pub proof fn lemma_wf(&self)
        requires
            self.wf(),
        ensures
            self.registry().dom().finite(),
            self.pending().dom().finite(),
            pairs_to_map(self.pending_entries()) == self.pending(),
            self.pending_entries().len() == self.pending().len(),
            forall|k: Seq<char>| #[trigger]
                self.registry().contains_key(k) ==> self.registry()[k].marker.name == k,
            keys_unique(self.pending_entries()),
            forall|i: int| 0 <= i < self.pending_entries().len() ==> full_name_matches(#[trigger] self.pending_entries()[i]),
    {
        assert forall|i: int| 0 <= i < self.pending_entries().len() implies full_name_matches(#[trigger] self.pending_entries()[i]) by {
            crate::keyed::lemma_map_at(self.pending.pairs(), i);
        }
        lemma_map_finite(self.contexts.pairs());
        lemma_map_finite(self.pending.pairs());
        lemma_map_len(self.pending.pairs());
    }

    pub fn new(topic_namespace: &str) -> (r: Self)
        ensures
            r.wf(),
            r.namespace() == topic_namespace@,
            r.registry() == Map::<Seq<char>, ContextView>::empty(),
            r.pending() == Map::<Seq<char>, PendingView>::empty(),
            r.seq() == 0,
    {
        let r = InteractiveMarkerServer {
            topic_namespace: topic_namespace.to_owned(),
            contexts: NameMap::new(),
            pending: NameMap::new(),
            sequence_number: 0,
        };
        assert(r.registry() =~= Map::<Seq<char>, ContextView>::empty());
        assert(r.pending() =~= Map::<Seq<char>, PendingView>::empty());
        r
    }

    pub fn topic_namespace(&self) -> (r: &str)
        ensures
            r@ == self.namespace(),
    {
        self.topic_namespace.as_str()
    }

    /// The number of the last diff sent, or 0 before the first.
    pub fn sequence_number(&self) -> (r: u64)
        ensures
            r == self.seq(),
    {
        self.sequence_number
    }

    /// The number of committed markers.
    pub fn size(&self) -> (r: usize)
        requires
            self.wf(),
        ensures
            r == self.registry().len(),
    {
        proof {
            lemma_map_len(self.contexts.pairs());
        }
        self.contexts.len()
    }

    /// Whether no marker is committed.
    pub fn empty(&self) -> (r: bool)
        requires
            self.wf(),
        ensures
            r == (self.registry().len() == 0),
    {
        self.size() == 0
    }

    /// Stages `marker` to replace whatever its name stands for, dropping any
    /// change staged for that name, handler changes included.
    pub fn insert(&mut self, marker: MarkerDef)
        requires
            old(self).wf(),
        ensures
            final(self).wf(),
            final(self).registry() == old(self).registry(),
            final(self).pending() == old(self).pending().insert(marker@.name, full_update(marker@)),
            final(self).seq() == old(self).seq(),
            final(self).namespace() == old(self).namespace(),
    {
        let name = marker.name.clone();
        let update = PendingUpdate {
            kind: UpdateKind::FullReplace(marker),
            default_handler: None,
            handlers: HandlerTable::new(),
        };
        self.pending.insert(name, update);
    }

    /// Stages the removal of `name`; false, with nothing staged, where `name` is
    /// neither committed nor staged.
    pub fn erase(&mut self, name: &str) -> (r: bool)
        requires
            old(self).wf(),
        ensures
            final(self).wf(),
            r == (old(self).registry().contains_key(name@) || old(self).pending().contains_key(name@)),
            final(self).registry() == old(self).registry(),
            final(self).pending() == if r {
                old(self).pending().insert(name@, erase_update())
            } else {
                old(self).pending()
            },
            final(self).seq() == old(self).seq(),
            final(self).namespace() == old(self).namespace(),
    {
        if !self.contexts.contains(name) && !self.pending.contains(name) {
            return false;
        }
        self.pending.insert(name.to_owned(), erase_pending());
        true
    }

    /// Stages a pose change of `name` to `pose`, under `header` where given, else
    /// under the header of the staged change or of the committed marker. Handlers
    /// staged for `name` stay. False, with nothing staged, where `name` is neither
    /// committed nor staged.
    pub fn set_pose(&mut self, name: &str, pose: MarkerPose, header: Option<MarkerHeader>) -> (r: bool)
        requires
            old(self).wf(),
        ensures
            final(self).wf(),
            r == (old(self).registry().contains_key(name@) || old(self).pending().contains_key(name@)),
            final(self).registry() == old(self).registry(),
            r ==> {
                let h = staged_header(final(self).pending()[name@])->0;
                &&& final(self).pending().contains_key(name@)
                &&& pose_header(old(self).registry(), old(self).pending(), name@, header, h)
                &&& final(self).pending() == old(self).pending().insert(
                    name@,
                    pose_update(old(self).pending(), name@, h, pose),
                )
            },
            !r ==> final(self).pending() == old(self).pending(),
            final(self).seq() == old(self).seq(),
            final(self).namespace() == old(self).namespace(),
    {
        if !self.contexts.contains(name) && !self.pending.contains(name) {
            return false;
        }
        let staged: Option<MarkerHeader> = match self.pending.get(name) {
            Some(u) => match &u.kind {
                UpdateKind::FullReplace(d) => Some(d.header.duplicate()),
                UpdateKind::PoseOnly(h, _) => Some(h.duplicate()),
                UpdateKind::Erase => None,
            },
            None => None,
        };
        let new_header = match header {
            Some(h) => h,
            None => match staged {
                Some(h) => h,
                None => match self.contexts.get(name) {
                    Some(c) => c.marker.header.duplicate(),
                    None => MarkerHeader { stamp_sec: 0, stamp_nanosec: 0, frame_id: String::new() },
                },
            },
        };
        let ghost h = new_header;
        let update = match self.pending.index_of(name) {
            Some(i) => {
                let (_k, old_update) = self.pending.take_at(i);
                PendingUpdate {
                    kind: UpdateKind::PoseOnly(new_header, pose),
                    default_handler: old_update.default_handler,
                    handlers: old_update.handlers,
                }
            },
            None => PendingUpdate {
                kind: UpdateKind::PoseOnly(new_header, pose),
                default_handler: None,
                handlers: HandlerTable::new(),
            },
        };
        self.pending.insert(name.to_owned(), update);
        assert(self.pending() =~= old(self).pending().insert(
            name@,
            pose_update(old(self).pending(), name@, h, pose),
        ));
        true
    }

    /// Sets the handler of `name` for event type `feedback_type` (the default
    /// handler under `DEFAULT_FEEDBACK_CB`), or removes it where `feedback_cb` is
    /// `None`, on the committed marker and on its staged change, whichever exist.
    /// False, with nothing changed, where `name` is neither committed nor staged.
    pub fn set_callback(&mut self, name: &str, feedback_cb: Option<HandlerId>, feedback_type: u8) -> (r: bool)
        requires
            old(self).wf(),
        ensures
            final(self).wf(),
            r == (old(self).registry().contains_key(name@) || old(self).pending().contains_key(name@)),
            final(self).registry() == if old(self).registry().contains_key(name@) {
                old(self).registry().insert(
                    name@,
                    ctx_with_handler(old(self).registry()[name@], feedback_type, feedback_cb),
                )
            } else {
                old(self).registry()
            },
            final(self).pending() == if old(self).pending().contains_key(name@) {
                old(self).pending().insert(
                    name@,
                    pending_with_handler(old(self).pending()[name@], feedback_type, feedback_cb),
                )
            } else {
                old(self).pending()
            },
            final(self).seq() == old(self).seq(),
            final(self).namespace() == old(self).namespace(),
    {
        if !self.contexts.contains(name) && !self.pending.contains(name) {
            return false;
        }
        match self.contexts.index_of(name) {
            Some(i) => {
                let (k, mut ctx) = self.contexts.take_at(i);
                if feedback_type == DEFAULT_FEEDBACK_CB {
                    ctx.default_handler = feedback_cb;
                } else {
                    ctx.handlers.assign(feedback_type, feedback_cb);
                }
                self.contexts.insert(k, ctx);
                assert(self.registry() =~= old(self).registry().insert(
                    name@,
                    ctx_with_handler(old(self).registry()[name@], feedback_type, feedback_cb),
                ));
            },
            None => {},
        }
        match self.pending.index_of(name) {
            Some(i) => {
                let ghost before = self.pending();
                let (k, mut update) = self.pending.take_at(i);
                if feedback_type == DEFAULT_FEEDBACK_CB {
                    update.default_handler = feedback_cb;
                } else {
                    update.handlers.assign(feedback_type, feedback_cb);
                }
                self.pending.insert(k, update);
                assert(self.pending() =~= before.insert(
                    name@,
                    pending_with_handler(before[name@], feedback_type, feedback_cb),
                ));
            },
            None => {},
        }
        true
    }

    /// Stages `marker` as `insert` does, then sets its handler as `set_callback` does.
    pub fn insert_with_callback(&mut self, marker: &MarkerDef, feedback_cb: Option<HandlerId>, feedback_type: u8)
        requires
            old(self).wf(),
        ensures
            final(self).wf(),
            final(self).registry() == if old(self).registry().contains_key(marker@.name) {
                old(self).registry().insert(
                    marker@.name,
                    ctx_with_handler(old(self).registry()[marker@.name], feedback_type, feedback_cb),
                )
            } else {
                old(self).registry()
            },
            final(self).pending() == old(self).pending().insert(
                marker@.name,
                pending_with_handler(full_update(marker@), feedback_type, feedback_cb),
            ),
            final(self).seq() == old(self).seq(),
            final(self).namespace() == old(self).namespace(),
    {
        self.insert(marker.duplicate());
        let _ = self.set_callback(marker.name.as_str(), feedback_cb, feedback_type);
        assert(self.pending() =~= old(self).pending().insert(
            marker@.name,
            pending_with_handler(full_update(marker@), feedback_type, feedback_cb),
        ));
    }

    /// Drops every staged change and stages the removal of every committed marker.
    pub fn clear(&mut self)
        requires
            old(self).wf(),
        ensures
            final(self).wf(),
            final(self).registry() == old(self).registry(),
            final(self).pending() == erase_all(old(self).registry()),
            final(self).seq() == old(self).seq(),
            final(self).namespace() == old(self).namespace(),
    {
        self.pending.clear();
        assert(self.pending() =~= erase_all(pairs_to_map(self.contexts.pairs().take(0))));
        let mut i: usize = 0;
        while i < self.contexts.len()
            invariant
                self.wf(),
                self.registry() == old(self).registry(),
                self.seq() == old(self).seq(),
                self.namespace() == old(self).namespace(),
                i <= self.contexts.pairs().len(),
                self.pending() == erase_all(pairs_to_map(self.contexts.pairs().take(i as int))),
            decreases self.contexts.pairs().len() - i,
        {
            let ghost prev = pairs_to_map(self.contexts.pairs().take(i as int));
            let k = self.contexts.key_at(i).clone();
            self.pending.insert(k, erase_pending());
            assert(self.contexts.pairs().take(i + 1).drop_last() =~= self.contexts.pairs().take(i as int));
            assert(erase_all(pairs_to_map(self.contexts.pairs().take(i + 1))) =~= erase_all(prev).insert(
                k@,
                erase_update(),
            ));
            i = i + 1;
        }
        assert(self.contexts.pairs().take(i as int) =~= self.contexts.pairs());
    }

    /// Commits every staged change to the registry and empties the buffer. Returns
    /// the diff, numbered one past the last, unless it would be empty: then nothing
    /// is returned and the number stays.
    pub fn apply_changes(&mut self) -> (r: Option<MarkerUpdate>)
        requires
            old(self).wf(),
            old(self).pending().len() > 0 ==> old(self).seq() < u64::MAX,
        ensures
            final(self).wf(),
            final(self).registry() == applied(old(self).registry(), old(self).pending()),
            final(self).pending() == Map::<Seq<char>, PendingView>::empty(),
            final(self).namespace() == old(self).namespace(),
            old(self).pending().len() == 0 ==> r is None && final(self).registry() == old(self).registry(),
            ({
                let ps = old(self).pending_entries();
                let fulls = full_records(ps);
                let poses = pose_records(ps, old(self).registry());
                let erases = erase_records(ps);
                if fulls.len() == 0 && poses.len() == 0 && erases.len() == 0 {
                    &&& r is None
                    &&& final(self).seq() == old(self).seq()
                } else {
                    &&& r is Some
                    &&& final(self).seq() == old(self).seq() + 1
                    &&& r->0.seq_num == final(self).seq()
                    &&& r->0.markers@.map_values(|d: MarkerDef| d@) == fulls
                    &&& r->0.poses@.map_values(|q: PoseRecord| q@) == poses
                    &&& r->0.erases@.map_values(|e: String| e@) == erases
                }
            }),
    {
        proof {
            self.lemma_wf();
        }
        let ghost r0 = self.registry();
        let ghost ps = self.pending.pairs();
        let mut markers: Vec<MarkerDef> = Vec::new();
        let mut poses: Vec<PoseRecord> = Vec::new();
        let mut erases: Vec<String> = Vec::new();
        assert(ps.take(0) =~= Seq::<(Seq<char>, PendingView)>::empty());
        assert(applied(r0, Map::empty()) =~= r0);
        let mut i: usize = 0;
        while i < self.pending.len()
            invariant
                self.contexts.wf(),
                self.pending.wf(),
                self.pending.pairs() == ps,
                self.pending() == old(self).pending(),
                self.seq() == old(self).seq(),
                self.namespace() == old(self).namespace(),
                pairs_to_map(ps) == old(self).pending(),
                r0 == old(self).registry(),
                old(self).wf(),
                0 <= i <= ps.len(),
                self.registry() == applied(r0, pairs_to_map(ps.take(i as int))),
                forall|k: Seq<char>| #[trigger]
                    self.registry().contains_key(k) ==> self.registry()[k].marker.name == k,
                markers@.map_values(|d: MarkerDef| d@) == full_records(ps.take(i as int)),
                poses@.map_values(|q: PoseRecord| q@) == pose_records(ps.take(i as int), r0),
                erases@.map_values(|e: String| e@) == erase_records(ps.take(i as int)),
            decreases ps.len() - i,
        {
            let ghost prefix = pairs_to_map(ps.take(i as int));
            let ghost reg = self.registry();
            let k = self.pending.key_at(i);
            let u = self.pending.value_at(i);
            proof {
                let t = ps.take(i + 1);
                assert(t.drop_last() =~= ps.take(i as int));
                assert(t.last() == ps[i as int]);
                crate::keyed::lemma_map_domain(ps.take(i as int), k@);
                if prefix.contains_key(k@) {
                    let j = choose|j: int| 0 <= j < i && #[trigger] ps.take(i as int)[j].0 == k@;
                    assert(ps[j].0 == ps[i as int].0);
                }
                crate::keyed::lemma_map_at(ps, i as int);
                lemma_applied_step(r0, prefix, k@, u@);
            }
            match &u.kind {
                UpdateKind::FullReplace(d) => {
                    let ctx = match self.contexts.get(k.as_str()) {
                        Some(c) => MarkerContext {
                            marker: d.duplicate(),
                            last_feedback: c.last_feedback,
                            last_client_id: c.last_client_id.clone(),
                            default_handler: u.default_handler,
                            handlers: u.handlers.duplicate(),
                        },
                        None => MarkerContext {
                            marker: d.duplicate(),
                            last_feedback: None,
                            last_client_id: String::new(),
                            default_handler: u.default_handler,
                            handlers: u.handlers.duplicate(),
                        },
                    };
                    self.contexts.insert(k.clone(), ctx);
                    markers.push(d.duplicate());
                    assert(markers@.map_values(|d: MarkerDef| d@) =~= full_records(ps.take(i + 1)));
                },
                UpdateKind::PoseOnly(h, q) => {
                    match self.contexts.index_of(k.as_str()) {
                        Some(j) => {
                            let (kk, mut ctx) = self.contexts.take_at(j);
                            ctx.marker.header = h.duplicate();
                            ctx.marker.pose = *q;
                            self.contexts.insert(kk, ctx);
                            poses.push(PoseRecord { name: k.clone(), header: h.duplicate(), pose: *q });
                            assert(self.registry() =~= reg.insert(k@, apply_one(r0.get(k@), u@)->0));
                        },
                        None => {
                            assert(self.registry() =~= reg.remove(k@));
                        },
                    }
                    assert(poses@.map_values(|q: PoseRecord| q@) =~= pose_records(ps.take(i + 1), r0));
                },
                UpdateKind::Erase => {
                    self.contexts.remove(k.as_str());
                    erases.push(k.clone());
                    assert(erases@.map_values(|e: String| e@) =~= erase_records(ps.take(i + 1)));
                },
            }
            assert(markers@.map_values(|d: MarkerDef| d@) =~= full_records(ps.take(i + 1)));
            assert(poses@.map_values(|q: PoseRecord| q@) =~= pose_records(ps.take(i + 1), r0));
            assert(erases@.map_values(|e: String| e@) =~= erase_records(ps.take(i + 1)));
            i = i + 1;
        }
        assert(ps.take(i as int) =~= ps);
        proof {
            if ps.len() == 0 {
                assert(old(self).pending().dom() =~= Set::<Seq<char>>::empty());
                assert(applied(r0, old(self).pending()) =~= r0);
            }
        }
        self.pending.clear();
        assert(self.pending() =~= Map::<Seq<char>, PendingView>::empty());
        if markers.len() == 0 && poses.len() == 0 && erases.len() == 0 {
            return None;
        }
        self.sequence_number = self.sequence_number + 1;
        Some(MarkerUpdate { seq_num: self.sequence_number, markers, poses, erases })
    }

    /// Takes in one feedback event, received at `now` by the caller's clock. Feedback
    /// for a marker that is not committed is dropped and changes nothing. Otherwise
    /// the marker's bookkeeping is updated, a pose event stages a pose change, and
    /// the handler that the event goes to is returned, for the caller to invoke.
    pub fn process_feedback(&mut self, feedback: &Feedback, now: u64) -> (r: Option<HandlerId>)
        requires
            old(self).wf(),
        ensures
            final(self).wf(),
            final(self).seq() == old(self).seq(),
            final(self).namespace() == old(self).namespace(),
            ({
                let k = feedback.marker_name@;
                if old(self).registry().contains_key(k) {
                    let c = old(self).registry()[k];
                    &&& final(self).registry() == old(self).registry().insert(
                        k,
                        ContextView { last_feedback: Some(now), last_client_id: feedback.client_id@, ..c },
                    )
                    &&& final(self).pending() == if feedback.event_type == POSE_UPDATE {
                        old(self).pending().insert(k, pose_update(old(self).pending(), k, feedback.header, feedback.pose))
                    } else {
                        old(self).pending()
                    }
                    &&& r == chosen_handler(c, feedback.event_type)
                } else {
                    &&& r is None
                    &&& final(self).registry() == old(self).registry()
                    &&& final(self).pending() == old(self).pending()
                }
            }),
    {
        let name = feedback.marker_name.as_str();
        let j = match self.contexts.index_of(name) {
            Some(j) => j,
            None => return None,
        };
        let (k, mut ctx) = self.contexts.take_at(j);
        ctx.last_feedback = Some(now);
        ctx.last_client_id = feedback.client_id.clone();
        let chosen = match ctx.handlers.get(feedback.event_type) {
            Some(h) => Some(h),
            None => ctx.default_handler,
        };
        self.contexts.insert(k, ctx);
        assert(self.registry() =~= old(self).registry().insert(
            name@,
            ContextView { last_feedback: Some(now), last_client_id: feedback.client_id@, ..old(self).registry()[name@] },
        ));
        if feedback.event_type == POSE_UPDATE {
            let update = match self.pending.index_of(name) {
                Some(i) => {
                    let (_k, old_update) = self.pending.take_at(i);
                    PendingUpdate {
                        kind: UpdateKind::PoseOnly(feedback.header.duplicate(), feedback.pose),
                        default_handler: old_update.default_handler,
                        handlers: old_update.handlers,
                    }
                },
                None => PendingUpdate {
                    kind: UpdateKind::PoseOnly(feedback.header.duplicate(), feedback.pose),
                    default_handler: None,
                    handlers: HandlerTable::new(),
                },
            };
            self.pending.insert(name.to_owned(), update);
            assert(self.pending() =~= old(self).pending().insert(
                name@,
                pose_update(old(self).pending(), name@, feedback.header, feedback.pose),
            ));
        }
        chosen
    }

    /// The answer to a snapshot query: the number of the last diff and every
    /// committed definition, each once. Staged changes are not in it.
    pub fn get_interactive_markers(&self) -> (r: (u64, Vec<MarkerDef>))
        requires
            self.wf(),
        ensures
            r.0 == self.seq(),
            r.1@.len() == self.registry().len(),
            forall|i: int| 0 <= i < r.1@.len() ==> {
                &&& self.registry().contains_key(#[trigger] r.1@[i]@.name)
                &&& self.registry()[r.1@[i]@.name].marker == r.1@[i]@
            },
            forall|i: int, j: int|
                0 <= i < r.1@.len() && 0 <= j < r.1@.len() && i != j ==> #[trigger] r.1@[i]@.name
                    != #[trigger] r.1@[j]@.name,
    {
        let ghost cs = self.contexts.pairs();
        let mut out: Vec<MarkerDef> = Vec::new();
        let mut i: usize = 0;
        while i < self.contexts.len()
            invariant
                self.wf(),
                cs == self.contexts.pairs(),
                i <= cs.len(),
                out@.len() == i,
                forall|j: int| 0 <= j < i ==> (#[trigger] out@[j])@ == cs[j].1.marker,
            decreases cs.len() - i,
        {
            out.push(self.contexts.value_at(i).marker.duplicate());
            i = i + 1;
        }
        proof {
            lemma_map_len(cs);
            assert forall|i: int| 0 <= i < out@.len() implies {
                &&& self.registry().contains_key(#[trigger] out@[i]@.name)
                &&& self.registry()[out@[i]@.name].marker == out@[i]@
            } by {
                crate::keyed::lemma_map_at(cs, i);
            }
            assert forall|i: int, j: int|
                0 <= i < out@.len() && 0 <= j < out@.len() && i != j implies #[trigger] out@[i]@.name
                    != #[trigger] out@[j]@.name by {
                crate::keyed::lemma_map_at(cs, i);
                crate::keyed::lemma_map_at(cs, j);
            }
        }
        (self.sequence_number, out)
    }

    /// The definition of `name` as it stands once the staged changes are laid
    /// over the committed ones.
    pub fn get(&self, name: &str) -> (r: Option<MarkerDef>)
        requires
            self.wf(),
        ensures
            match r {
                Some(d) => effective(self.registry(), self.pending(), name@) == Some(d@),
                None => effective(self.registry(), self.pending(), name@) is None,
            },
    {
        match self.pending.get(name) {
            Some(update) => match &update.kind {
                UpdateKind::Erase => None,
                UpdateKind::FullReplace(d) => Some(d.duplicate()),
                UpdateKind::PoseOnly(h, q) => match self.contexts.get(name) {
                    Some(ctx) => {
                        let base = ctx.marker.duplicate();
                        Some(MarkerDef { name: base.name, header: h.duplicate(), pose: *q, body: base.body })
                    },
                    None => None,
                },
            },
            None => match self.contexts.get(name) {
                Some(ctx) => Some(ctx.marker.duplicate()),
                None => None,
            },
        }
    }
}

} // verus!
