//! The desired-set reconciler: diffs the desired level set against what is
//! realized in the scene graph and decides which levels to spawn, despawn
//! or leave untouched.
//!
//! All decisions are stated over sets of identifiers, so they depend only
//! on set membership, never on insertion order. A level carrying a respawn
//! marker is treated as not realized for one pass, which forces its
//! despawn-then-respawn; a desired level that the loaded world does not
//! describe is skipped and reported, to be retried on the next pass.

use vstd::prelude::*;

use crate::level_set::{id_set, ids_contain, no_dup_ids, LevelSet};

verus! {

/// The identifiers treated as realized during one pass: the realized ones,
/// minus those forced down by a respawn marker.
pub open spec fn effective_realized(realized: Set<Seq<char>>, respawn: Set<Seq<char>>) -> Set<
    Seq<char>,
> {
    realized.difference(respawn)
}

/// Levels to spawn: desired and described by the world, but not
/// (effectively) realized.
pub open spec fn spawn_set(
    desired: Set<Seq<char>>,
    realized: Set<Seq<char>>,
    respawn: Set<Seq<char>>,
    available: Set<Seq<char>>,
) -> Set<Seq<char>> {
    desired.intersect(available).difference(effective_realized(realized, respawn))
}

/// Levels to despawn: realized but either no longer desired or forced down
/// by a respawn marker.
pub open spec fn despawn_set(
    desired: Set<Seq<char>>,
    realized: Set<Seq<char>>,
    respawn: Set<Seq<char>>,
) -> Set<Seq<char>> {
    realized.difference(desired.difference(respawn))
}

/// Levels left untouched: desired, realized, and not forced down.
pub open spec fn unchanged_set(
    desired: Set<Seq<char>>,
    realized: Set<Seq<char>>,
    respawn: Set<Seq<char>>,
) -> Set<Seq<char>> {
    desired.intersect(realized).difference(respawn)
}

/// Desired levels the loaded world does not describe: skipped this pass
/// and reported, never a hard failure.
pub open spec fn missing_set(
    desired: Set<Seq<char>>,
    realized: Set<Seq<char>>,
    respawn: Set<Seq<char>>,
    available: Set<Seq<char>>,
) -> Set<Seq<char>> {
    desired.difference(effective_realized(realized, respawn)).difference(available)
}

/// The realized identifiers after one pass acts on the diff: what was kept
/// plus what was spawned.
pub open spec fn next_realized(
    desired: Set<Seq<char>>,
    realized: Set<Seq<char>>,
    respawn: Set<Seq<char>>,
    available: Set<Seq<char>>,
) -> Set<Seq<char>> {
    realized.difference(despawn_set(desired, realized, respawn)).union(
        spawn_set(desired, realized, respawn, available),
    )
}

/// The decisions of one reconciliation pass, as duplicate-free identifier
/// lists.
#[derive(Clone, Debug, PartialEq)]
pub struct LevelDiff {
    /// Desired, described, and not effectively realized.
    pub to_spawn: Vec<String>,
    /// Realized, and either undesired or forced down by a respawn marker.
    pub to_despawn: Vec<String>,
    /// Desired and realized, left untouched; no rebuild.
    pub unchanged: Vec<String>,
    /// Desired but not described by the loaded world; skipped, reported.
    pub missing: Vec<String>,
}

impl LevelDiff {
    /// Every list is duplicate-free.
    pub open spec fn wf(&self) -> bool {
        &&& no_dup_ids(self.to_spawn@)
        &&& no_dup_ids(self.to_despawn@)
        &&& no_dup_ids(self.unchanged@)
        &&& no_dup_ids(self.missing@)
    }
}

/// Filters `src` to the identifiers whose membership in the three given
/// sets matches the pattern named by `mode` (see [`level_pred`]); the
/// public face is [`reconcile`].
fn filter_levels(
    src: &Vec<String>,
    a: &Vec<String>,
    b: &Vec<String>,
    c: &Vec<String>,
    Ghost(goal): Ghost<Set<Seq<char>>>,
    mode: u8,
) -> (out: Vec<String>)
    requires
        no_dup_ids(src@),
        forall|x: Seq<char>| #[trigger]
            goal.contains(x) == (id_set(src@).contains(x) && level_pred(
                x,
                id_set(a@),
                id_set(b@),
                id_set(c@),
                mode,
            )),
    ensures
        no_dup_ids(out@),
        id_set(out@) == goal,
{
    let mut out: Vec<String> = Vec::new();
    let mut i: usize = 0;
    proof {
        assert(id_set(out@) =~= goal.intersect(id_set(src@.take(0))));
    }
    while i < src.len()
        invariant
            i <= src@.len(),
            no_dup_ids(src@),
            no_dup_ids(out@),
            forall|x: Seq<char>| #[trigger]
                goal.contains(x) == (id_set(src@).contains(x) && level_pred(
                    x,
                    id_set(a@),
                    id_set(b@),
                    id_set(c@),
                    mode,
                )),
            id_set(out@) == goal.intersect(id_set(src@.take(i as int))),
        decreases src@.len() - i,
    {
        let ghost pre = out@;
        let keep = {
            let in_a = ids_contain(a, &src[i]);
            let in_b = ids_contain(b, &src[i]);
            let in_c = ids_contain(c, &src[i]);
            if mode == 0 {
                in_a && (!in_b || in_c)
            } else if mode == 1 {
                !in_a || in_b
            } else if mode == 2 {
                in_a && !in_b
            } else {
                !in_a && (!in_b || in_c)
            }
        };
        proof {
            assert(id_set(src@).contains(src@[i as int]@));
        }
        if keep {
            out.push(src[i].clone());
            proof {
                crate::level_set::lemma_id_set_push(pre, src@[i as int]);
                assert forall|j: int| 0 <= j < pre.len() implies #[trigger] pre[j]@ != src@[
                    i as int
                ]@ by {
                    assert(id_set(pre).contains(pre[j]@));
                    if pre[j]@ == src@[i as int]@ {
                        let k = choose|k: int|
                            0 <= k < src@.take(i as int).len() && src@.take(i as int)[k]@ == pre[
                                j
                            ]@;
                        assert(src@[k]@ == src@[i as int]@);
                    }
                }
            }
        }
        proof {
            crate::level_set::lemma_take_push(src@, i as int);
            crate::level_set::lemma_id_set_push(src@.take(i as int), src@[i as int]);
            assert(id_set(out@) =~= goal.intersect(id_set(src@.take(i as int + 1))));
        }
        i = i + 1;
    }
    proof {
        assert(src@.take(src@.len() as int) =~= src@);
        assert(id_set(out@) =~= goal);
    }
    out
}

/// The membership pattern each filtering mode keeps.
pub open spec fn level_pred(
    x: Seq<char>,
    a: Set<Seq<char>>,
    b: Set<Seq<char>>,
    c: Set<Seq<char>>,
    mode: u8,
) -> bool {
    if mode == 0 {
        a.contains(x) && (!b.contains(x) || c.contains(x))
    } else if mode == 1 {
        !a.contains(x) || b.contains(x)
    } else if mode == 2 {
        a.contains(x) && !b.contains(x)
    } else {
        !a.contains(x) && (!b.contains(x) || c.contains(x))
    }
}

/// One reconciliation decision: given the desired set, the realized set,
/// the respawn-marked set and the identifiers the loaded world describes,
/// computes what to spawn, what to despawn, what to leave untouched, and
/// which desired identifiers the world cannot satisfy yet.
///
/// The decision depends only on the four identifier sets. Applying the
/// same desired set twice in a row therefore yields no further work: see
/// [`lemma_reconcile_idempotent`].
pub fn reconcile(
    desired: &LevelSet,
    realized: &LevelSet,
    respawn: &LevelSet,
    available: &LevelSet,
) -> (d: LevelDiff)
    requires
        desired.wf(),
        realized.wf(),
    ensures
        d.wf(),
        id_set(d.to_spawn@) == spawn_set(desired@, realized@, respawn@, available@),
        id_set(d.to_despawn@) == despawn_set(desired@, realized@, respawn@),
        id_set(d.unchanged@) == unchanged_set(desired@, realized@, respawn@),
        id_set(d.missing@) == missing_set(desired@, realized@, respawn@, available@),
{
    let ghost dv = desired@;
    let ghost rv = realized@;
    let ghost pv = respawn@;
    let ghost av = available@;
    let to_spawn = filter_levels(
        &desired.iids,
        &available.iids,
        &realized.iids,
        &respawn.iids,
        Ghost(spawn_set(dv, rv, pv, av)),
        0,
    );
    let to_despawn = filter_levels(
        &realized.iids,
        &desired.iids,
        &respawn.iids,
        &respawn.iids,
        Ghost(despawn_set(dv, rv, pv)),
        1,
    );
    let unchanged = filter_levels(
        &desired.iids,
        &realized.iids,
        &respawn.iids,
        &respawn.iids,
        Ghost(unchanged_set(dv, rv, pv)),
        2,
    );
    let missing = filter_levels(
        &desired.iids,
        &available.iids,
        &realized.iids,
        &respawn.iids,
        Ghost(missing_set(dv, rv, pv, av)),
        3,
    );
    LevelDiff { to_spawn, to_despawn, unchanged, missing }
}

/// Idempotence of reconciliation: once a pass has acted on the diff and
/// cleared the respawn markers, reconciling the same desired set against
/// the new realized set spawns nothing and despawns nothing.
pub proof fn lemma_reconcile_idempotent(
    desired: Set<Seq<char>>,
    realized: Set<Seq<char>>,
    respawn: Set<Seq<char>>,
    available: Set<Seq<char>>,
)
    ensures
        spawn_set(
            desired,
            next_realized(desired, realized, respawn, available),
            Set::<Seq<char>>::empty(),
            available,
        ) == Set::<Seq<char>>::empty(),
        despawn_set(
            desired,
            next_realized(desired, realized, respawn, available),
            Set::<Seq<char>>::empty(),
        ) == Set::<Seq<char>>::empty(),
{
    let nr = next_realized(desired, realized, respawn, available);
    assert(spawn_set(desired, nr, Set::<Seq<char>>::empty(), available) =~= Set::<
        Seq<char>,
    >::empty());
    assert(despawn_set(desired, nr, Set::<Seq<char>>::empty()) =~= Set::<Seq<char>>::empty());
}

/// Set semantics of reconciliation: two desired sets built from the same
/// identifiers in any insertion orders denote the same set, and every
/// decision depends on that set alone, so the decisions coincide.
pub proof fn lemma_reconcile_set_semantics(
    a: LevelSet,
    b: LevelSet,
    realized: Set<Seq<char>>,
    respawn: Set<Seq<char>>,
    available: Set<Seq<char>>,
)
    requires
        a@ == b@,
    ensures
        spawn_set(a@, realized, respawn, available) == spawn_set(b@, realized, respawn, available),
        despawn_set(a@, realized, respawn) == despawn_set(b@, realized, respawn),
        unchanged_set(a@, realized, respawn) == unchanged_set(b@, realized, respawn),
        missing_set(a@, realized, respawn, available) == missing_set(
            b@,
            realized,
            respawn,
            available,
        ),
{
}

/// Inserting identifiers commutes, so any insertion order builds the same
/// desired set.
pub proof fn lemma_insert_order_irrelevant(s: Set<Seq<char>>, x: Seq<char>, y: Seq<char>)
    ensures
        s.insert(x).insert(y) == s.insert(y).insert(x),
{
    assert(s.insert(x).insert(y) =~= s.insert(y).insert(x));
}

/// The untouched levels are disjoint from both work lists, and without
/// respawn markers the spawn and despawn lists are disjoint from each
/// other as well: the three sets of the plain diff partition the work.
/// With markers, a level can stand in both work lists at once — that is
/// precisely the forced despawn-then-respawn.
pub proof fn lemma_diff_disjoint(
    desired: Set<Seq<char>>,
    realized: Set<Seq<char>>,
    respawn: Set<Seq<char>>,
    available: Set<Seq<char>>,
)
    ensures
        spawn_set(desired, realized, respawn, available).intersect(
            unchanged_set(desired, realized, respawn),
        ) == Set::<Seq<char>>::empty(),
        despawn_set(desired, realized, respawn).intersect(
            unchanged_set(desired, realized, respawn),
        ) == Set::<Seq<char>>::empty(),
        spawn_set(desired, realized, respawn, available).intersect(
            despawn_set(desired, realized, respawn),
        ) == desired.intersect(available).intersect(realized).intersect(respawn),
{
    assert(spawn_set(desired, realized, respawn, available).intersect(
        unchanged_set(desired, realized, respawn),
    ) =~= Set::<Seq<char>>::empty());
    assert(despawn_set(desired, realized, respawn).intersect(
        unchanged_set(desired, realized, respawn),
    ) =~= Set::<Seq<char>>::empty());
    assert(spawn_set(desired, realized, respawn, available).intersect(
        despawn_set(desired, realized, respawn),
    ) =~= desired.intersect(available).intersect(realized).intersect(respawn));
}

} // verus!
