//! The mathematical model of the registry and of the staged changes: what each
//! operation does to them, stated over maps keyed by marker name.

use vstd::prelude::*;
use crate::handlers::{HandlerId, DEFAULT_FEEDBACK_CB, assigned};
use crate::types::{MarkerDefView, MarkerHeader, MarkerPose, PoseRecordView};

verus! {

/// A committed marker with its feedback bookkeeping and handlers.
pub struct ContextView {
    pub marker: MarkerDefView,
    pub last_feedback: Option<u64>,
    pub last_client_id: Seq<char>,
    pub default_handler: Option<HandlerId>,
    pub handlers: Map<u8, HandlerId>,
}

/// What a staged change does to its marker.
pub enum KindView {
    FullReplace(MarkerDefView),
    PoseOnly(MarkerHeader, MarkerPose),
    Erase,
}

/// A staged change, with the handler changes staged alongside it.
pub struct PendingView {
    pub kind: KindView,
    pub default_handler: Option<HandlerId>,
    pub handlers: Map<u8, HandlerId>,
}

pub open spec fn erase_update() -> PendingView {
    PendingView { kind: KindView::Erase, default_handler: None, handlers: Map::empty() }
}

pub open spec fn full_update(d: MarkerDefView) -> PendingView {
    PendingView { kind: KindView::FullReplace(d), default_handler: None, handlers: Map::empty() }
}

/// The header that the default of a staged pose change is taken from, where the
/// staged change carries one.
pub open spec fn staged_header(p: PendingView) -> Option<MarkerHeader> {
    match p.kind {
        KindView::FullReplace(d) => Some(d.header),
        KindView::PoseOnly(h, _) => Some(h),
        KindView::Erase => None,
    }
}

pub open spec fn is_empty_header(h: MarkerHeader) -> bool {
    h.stamp_sec == 0 && h.stamp_nanosec == 0 && h.frame_id@ == Seq::<char>::empty()
}

/// `h` is the header that `set_pose` stages for `k`: the one given, else that of
/// the staged change, else that of the committed marker, else an empty one.
pub open spec fn pose_header(
    r: Map<Seq<char>, ContextView>,
    p: Map<Seq<char>, PendingView>,
    k: Seq<char>,
    given: Option<MarkerHeader>,
    h: MarkerHeader,
) -> bool {
    match given {
        Some(g) => h == g,
        None => if p.contains_key(k) && staged_header(p[k]) is Some {
            h == staged_header(p[k])->0
        } else if r.contains_key(k) {
            h == r[k].marker.header
        } else {
            is_empty_header(h)
        },
    }
}

/// The staged change of `k` after a pose change to `h` and `q`: the handlers that
/// were staged for `k` stay.
pub open spec fn pose_update(p: Map<Seq<char>, PendingView>, k: Seq<char>, h: MarkerHeader, q: MarkerPose) -> PendingView {
    if p.contains_key(k) {
        PendingView { kind: KindView::PoseOnly(h, q), ..p[k] }
    } else {
        PendingView { kind: KindView::PoseOnly(h, q), default_handler: None, handlers: Map::empty() }
    }
}

/// A staged entry whose change is a whole definition carries that definition
/// under its own name.
pub open spec fn full_name_matches(e: (Seq<char>, PendingView)) -> bool {
    match e.1.kind {
        KindView::FullReplace(d) => d.name == e.0,
        _ => true,
    }
}

/// The committed context of a key after its staged change `p` is flushed.
pub open spec fn apply_one(c: Option<ContextView>, p: PendingView) -> Option<ContextView> {
    match p.kind {
        KindView::FullReplace(d) => Some(
            match c {
                Some(c) => ContextView {
                    marker: d,
                    last_feedback: c.last_feedback,
                    last_client_id: c.last_client_id,
                    default_handler: p.default_handler,
                    handlers: p.handlers,
                },
                None => ContextView {
                    marker: d,
                    last_feedback: None,
                    last_client_id: Seq::empty(),
                    default_handler: p.default_handler,
                    handlers: p.handlers,
                },
            },
        ),
        KindView::PoseOnly(h, q) => match c {
            Some(c) => Some(ContextView { marker: with_pose(c.marker, h, q), ..c }),
            None => None,
        },
        KindView::Erase => None,
    }
}

pub open spec fn with_pose(d: MarkerDefView, h: MarkerHeader, q: MarkerPose) -> MarkerDefView {
    MarkerDefView { header: h, pose: q, ..d }
}

/// The registry after every staged change of `p` is flushed into `r`.
pub open spec fn applied(r: Map<Seq<char>, ContextView>, p: Map<Seq<char>, PendingView>) -> Map<
    Seq<char>,
    ContextView,
> {
    Map::new(
        |k: Seq<char>|
            if p.contains_key(k) {
                apply_one(r.get(k), p[k]) is Some
            } else {
                r.contains_key(k)
            },
        |k: Seq<char>|
            if p.contains_key(k) {
                apply_one(r.get(k), p[k])->0
            } else {
                r[k]
            },
    )
}

/// The definition that a query for `k` sees: the committed one, with the staged
/// change of `k` laid over it.
pub open spec fn effective(
    r: Map<Seq<char>, ContextView>,
    p: Map<Seq<char>, PendingView>,
    k: Seq<char>,
) -> Option<MarkerDefView> {
    if p.contains_key(k) {
        match p[k].kind {
            KindView::Erase => None,
            KindView::FullReplace(d) => Some(d),
            KindView::PoseOnly(h, q) => if r.contains_key(k) {
                Some(with_pose(r[k].marker, h, q))
            } else {
                None
            },
        }
    } else if r.contains_key(k) {
        Some(r[k].marker)
    } else {
        None
    }
}

/// A staged erase for every committed key.
pub open spec fn erase_all(r: Map<Seq<char>, ContextView>) -> Map<Seq<char>, PendingView> {
    Map::new(|k: Seq<char>| r.contains_key(k), |k: Seq<char>| erase_update())
}

pub open spec fn ctx_with_handler(c: ContextView, t: u8, h: Option<HandlerId>) -> ContextView {
    if t == DEFAULT_FEEDBACK_CB {
        ContextView { default_handler: h, ..c }
    } else {
        ContextView { handlers: assigned(c.handlers, t, h), ..c }
    }
}

pub open spec fn pending_with_handler(p: PendingView, t: u8, h: Option<HandlerId>) -> PendingView {
    if t == DEFAULT_FEEDBACK_CB {
        PendingView { default_handler: h, ..p }
    } else {
        PendingView { handlers: assigned(p.handlers, t, h), ..p }
    }
}

/// The handler that feedback of type `t` goes to: the one for `t`, else the default.
pub open spec fn chosen_handler(c: ContextView, t: u8) -> Option<HandlerId> {
    if c.handlers.contains_key(t) {
        Some(c.handlers[t])
    } else {
        c.default_handler
    }
}

/// The definitions that a flush of the staged entries `ps` sends whole, in order.
pub open spec fn full_records(ps: Seq<(Seq<char>, PendingView)>) -> Seq<MarkerDefView>
    decreases ps.len(),
{
    if ps.len() == 0 {
        Seq::empty()
    } else {
        let rest = full_records(ps.drop_last());
        match ps.last().1.kind {
            KindView::FullReplace(d) => rest.push(d),
            _ => rest,
        }
    }
}

/// The pose changes that a flush of `ps` onto the registry `r` sends, in order;
/// a pose change of a key that `r` lacks is dropped.
pub open spec fn pose_records(ps: Seq<(Seq<char>, PendingView)>, r: Map<Seq<char>, ContextView>) -> Seq<
    PoseRecordView,
>
    decreases ps.len(),
{
    if ps.len() == 0 {
        Seq::empty()
    } else {
        let rest = pose_records(ps.drop_last(), r);
        let k = ps.last().0;
        match ps.last().1.kind {
            KindView::PoseOnly(h, q) => if r.contains_key(k) {
                rest.push(PoseRecordView { name: k, header: h, pose: q })
            } else {
                rest
            },
            _ => rest,
        }
    }
}

/// The keys that a flush of `ps` erases, in order.
pub open spec fn erase_records(ps: Seq<(Seq<char>, PendingView)>) -> Seq<Seq<char>>
    decreases ps.len(),
{
    if ps.len() == 0 {
        Seq::empty()
    } else {
        let rest = erase_records(ps.drop_last());
        match ps.last().1.kind {
            KindView::Erase => rest.push(ps.last().0),
            _ => rest,
        }
    }
}

/// Flushing one more staged change, for a key that no earlier one touched,
/// changes only that key's context.
pub proof fn lemma_applied_step(
    r: Map<Seq<char>, ContextView>,
    p: Map<Seq<char>, PendingView>,
    k: Seq<char>,
    v: PendingView,
)
    requires
        !p.contains_key(k),
    ensures
        applied(r, p).get(k) == r.get(k),
        applied(r, p.insert(k, v)) == match apply_one(r.get(k), v) {
            Some(c) => applied(r, p).insert(k, c),
            None => applied(r, p).remove(k),
        },
{
    match apply_one(r.get(k), v) {
        Some(c) => assert(applied(r, p.insert(k, v)) =~= applied(r, p).insert(k, c)),
        None => assert(applied(r, p.insert(k, v)) =~= applied(r, p).remove(k)),
    }
}

} // verus!
