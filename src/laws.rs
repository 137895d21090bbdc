//! Properties of the registry that relate several operations, proved over the
//! model that the operations' contracts speak of.

use vstd::prelude::*;
use crate::model::{
    ContextView, PendingView, applied, effective, erase_all, erase_records, erase_update,
    full_records, full_update, pose_records,
};
use crate::server::InteractiveMarkerServer;
use crate::keyed::{keys_unique, pairs_to_map};
use crate::model::{full_name_matches, KindView};
use crate::types::{MarkerDefView, PoseRecordView};

verus! {

/// A flush of an empty buffer commits nothing and reports nothing: the registry
/// stays as it is and every list of the diff is empty, so `apply_changes` returns
/// no diff and keeps its number.
pub proof fn lemma_empty_flush(s: InteractiveMarkerServer)
    requires
        s.wf(),
        s.pending().len() == 0,
    ensures
        applied(s.registry(), s.pending()) == s.registry(),
        full_records(s.pending_entries()).len() == 0,
        pose_records(s.pending_entries(), s.registry()).len() == 0,
        erase_records(s.pending_entries()).len() == 0,
{
    s.lemma_wf();
    assert(s.pending().dom() =~= Set::<Seq<char>>::empty());
    assert(applied(s.registry(), s.pending()) =~= s.registry());
}

/// Flushing a staged insert of `d` into a registry with nothing else staged
/// makes `d` what its name stands for, and adds one marker where the name was new.
pub proof fn lemma_insert_then_flush(r: Map<Seq<char>, ContextView>, d: MarkerDefView)
    requires
        r.dom().finite(),
    ensures
        ({
            let after = applied(r, Map::empty().insert(d.name, full_update(d)));
            &&& effective(after, Map::empty(), d.name) == Some(d)
            &&& after.len() == if r.contains_key(d.name) { r.len() } else { r.len() + 1 }
        }),
{
    let p = Map::<Seq<char>, PendingView>::empty();
    crate::model::lemma_applied_step(r, p, d.name, full_update(d));
    assert(applied(r, p) =~= r);
}

/// Flushing a staged erase of a committed key `k`, with nothing else staged,
/// removes it: a query finds nothing, and the registry holds one marker fewer.
pub proof fn lemma_erase_then_flush(r: Map<Seq<char>, ContextView>, k: Seq<char>)
    requires
        r.dom().finite(),
        r.contains_key(k),
    ensures
        ({
            let after = applied(r, Map::empty().insert(k, erase_update()));
            &&& effective(after, Map::empty(), k) is None
            &&& after.len() == r.len() - 1
        }),
{
    let p = Map::<Seq<char>, PendingView>::empty();
    crate::model::lemma_applied_step(r, p, k, erase_update());
    assert(applied(r, p) =~= r);
}

/// Flushing what `clear` stages leaves the registry empty.
pub proof fn lemma_clear_then_flush(r: Map<Seq<char>, ContextView>)
    ensures
        applied(r, erase_all(r)) == Map::<Seq<char>, ContextView>::empty(),
        applied(r, erase_all(r)).len() == 0,
{
    assert(applied(r, erase_all(r)) =~= Map::<Seq<char>, ContextView>::empty());
}

/// A query sees before a flush what the flush commits: the definition that
/// `get` returns for any key is the same before and after `apply_changes`.
pub proof fn lemma_flush_keeps_effective(
    r: Map<Seq<char>, ContextView>,
    p: Map<Seq<char>, PendingView>,
    k: Seq<char>,
)
    ensures
        effective(applied(r, p), Map::empty(), k) == effective(r, p, k),
{
}

/// How many of the definitions `fs` bear the name `k`.
pub open spec fn full_count(fs: Seq<MarkerDefView>, k: Seq<char>) -> nat
    decreases fs.len(),
{
    if fs.len() == 0 {
        0
    } else {
        full_count(fs.drop_last(), k) + if fs.last().name == k { 1nat } else { 0nat }
    }
}

/// How many of the pose records `qs` bear the name `k`.
pub open spec fn pose_count(qs: Seq<PoseRecordView>, k: Seq<char>) -> nat
    decreases qs.len(),
{
    if qs.len() == 0 {
        0
    } else {
        pose_count(qs.drop_last(), k) + if qs.last().name == k { 1nat } else { 0nat }
    }
}

/// How many of the erased keys `es` are `k`.
pub open spec fn erase_count(es: Seq<Seq<char>>, k: Seq<char>) -> nat
    decreases es.len(),
{
    if es.len() == 0 {
        0
    } else {
        erase_count(es.drop_last(), k) + if es.last() == k { 1nat } else { 0nat }
    }
}

/// How many records, over the three lists of its diff, a flush of the staged
/// entries `ps` onto the registry `r` sends for the key `k`.
pub open spec fn record_count(ps: Seq<(Seq<char>, PendingView)>, r: Map<Seq<char>, ContextView>, k: Seq<char>) -> nat {
    full_count(full_records(ps), k) + pose_count(pose_records(ps, r), k) + erase_count(erase_records(ps), k)
}

/// Whether a staged change sends a record when flushed: a pose change does only
/// where its marker is committed.
pub open spec fn emits(v: PendingView, committed: bool) -> bool {
    match v.kind {
        KindView::PoseOnly(_, _) => committed,
        _ => true,
    }
}

/// Whether the diff of a flush of `ps` onto `r` holds the record of the change `v` to `k`.
pub open spec fn holds_record(
    ps: Seq<(Seq<char>, PendingView)>,
    r: Map<Seq<char>, ContextView>,
    k: Seq<char>,
    v: PendingView,
) -> bool {
    match v.kind {
        KindView::FullReplace(d) => full_records(ps).contains(d),
        KindView::PoseOnly(h, q) => r.contains_key(k) ==> pose_records(ps, r).contains(
            PoseRecordView { name: k, header: h, pose: q },
        ),
        KindView::Erase => erase_records(ps).contains(k),
    }
}

proof fn lemma_prefix_wf(ps: Seq<(Seq<char>, PendingView)>)
    requires
        ps.len() > 0,
        keys_unique(ps),
        forall|i: int| 0 <= i < ps.len() ==> full_name_matches(#[trigger] ps[i]),
    ensures
        keys_unique(ps.drop_last()),
        forall|i: int| 0 <= i < ps.drop_last().len() ==> full_name_matches(#[trigger] ps.drop_last()[i]),
        !pairs_to_map(ps.drop_last()).contains_key(ps.last().0),
{
    let p = ps.drop_last();
    assert forall|i: int, j: int| 0 <= i < p.len() && 0 <= j < p.len() && i != j implies #[trigger] p[i].0 != #[trigger] p[j].0 by {
        assert(p[i] == ps[i] && p[j] == ps[j]);
    }
    assert forall|i: int| 0 <= i < p.len() implies full_name_matches(#[trigger] p[i]) by {
        assert(p[i] == ps[i]);
    }
    crate::keyed::lemma_map_domain(p, ps.last().0);
    if pairs_to_map(p).contains_key(ps.last().0) {
        let j = choose|j: int| 0 <= j < p.len() && #[trigger] p[j].0 == ps.last().0;
        assert(ps[j].0 == ps[ps.len() - 1].0);
    }
}

proof fn lemma_record_count(ps: Seq<(Seq<char>, PendingView)>, r: Map<Seq<char>, ContextView>, k: Seq<char>)
    requires
        keys_unique(ps),
        forall|i: int| 0 <= i < ps.len() ==> full_name_matches(#[trigger] ps[i]),
    ensures
        record_count(ps, r, k) == if pairs_to_map(ps).contains_key(k) && emits(pairs_to_map(ps)[k], r.contains_key(k)) {
            1nat
        } else {
            0nat
        },
        pairs_to_map(ps).contains_key(k) ==> holds_record(ps, r, k, pairs_to_map(ps)[k]),
    decreases ps.len(),
{
    if ps.len() > 0 {
        let p = ps.drop_last();
        let e = ps.last();
        lemma_prefix_wf(ps);
        lemma_record_count(p, r, k);
        assert(full_name_matches(ps[ps.len() - 1]));
        match e.1.kind {
            KindView::FullReplace(d) => {
                assert(full_records(ps).drop_last() =~= full_records(p));
                assert(pose_records(ps, r) == pose_records(p, r));
                assert(erase_records(ps) == erase_records(p));
                assert(full_records(ps).last() == d);
            },
            KindView::PoseOnly(h, q) => {
                assert(full_records(ps) == full_records(p));
                assert(erase_records(ps) == erase_records(p));
                if r.contains_key(e.0) {
                    assert(pose_records(ps, r).drop_last() =~= pose_records(p, r));
                    assert(pose_records(ps, r).last() == PoseRecordView { name: e.0, header: h, pose: q });
                } else {
                    assert(pose_records(ps, r) == pose_records(p, r));
                }
            },
            KindView::Erase => {
                assert(full_records(ps) == full_records(p));
                assert(pose_records(ps, r) == pose_records(p, r));
                assert(erase_records(ps).drop_last() =~= erase_records(p));
                assert(erase_records(ps).last() == e.0);
            },
        }
        if e.0 != k && pairs_to_map(p).contains_key(k) {
            let v = pairs_to_map(p)[k];
            match v.kind {
                KindView::FullReplace(d) => {
                    let i = choose|i: int| 0 <= i < full_records(p).len() && full_records(p)[i] == d;
                    assert(full_records(ps)[i] == d);
                },
                KindView::PoseOnly(h, q) => {
                    if r.contains_key(k) {
                        let x = PoseRecordView { name: k, header: h, pose: q };
                        let i = choose|i: int| 0 <= i < pose_records(p, r).len() && pose_records(p, r)[i] == x;
                        assert(pose_records(ps, r)[i] == x);
                    }
                },
                KindView::Erase => {
                    let i = choose|i: int| 0 <= i < erase_records(p).len() && erase_records(p)[i] == k;
                    assert(erase_records(ps)[i] == k);
                },
            }
        }
        if e.0 == k {
            assert(pose_records(ps, r).len() > 0 ==> pose_records(ps, r).last() == pose_records(ps, r)[pose_records(ps, r).len() - 1]);
        }
    }
}

/// Writes to one key coalesce: a flush sends at most one record for each key,
/// over the three lists of its diff, and it is the record of the change staged
/// last for that key (a pose change of a marker that is not committed sends none).
pub proof fn lemma_flush_coalesces(s: InteractiveMarkerServer, k: Seq<char>)
    requires
        s.wf(),
    ensures
        record_count(s.pending_entries(), s.registry(), k) <= 1,
        record_count(s.pending_entries(), s.registry(), k) == 1 <==> s.pending().contains_key(k) && emits(
            s.pending()[k],
            s.registry().contains_key(k),
        ),
        s.pending().contains_key(k) ==> holds_record(s.pending_entries(), s.registry(), k, s.pending()[k]),
{
    s.lemma_wf();
    lemma_record_count(s.pending_entries(), s.registry(), k);
}

} // verus!
