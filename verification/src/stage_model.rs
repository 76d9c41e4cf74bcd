//! The model of a list of stages: what a search through it finds, what the
//! changes to it are, and in what order a bulk call takes its locks.
use vstd::prelude::*;
use crate::errors::Error;
use crate::guards::Guarded;
use crate::guards::bulk_outcome;
use crate::reflect::Key;
use crate::reflect::key_before;
use crate::service::ServiceCell;

verus! {

/// Whether one of `stages` has the key `stage`.
pub open spec fn has_stage<K, V>(stages: Seq<(K, Map<K, ServiceCell<V>>)>, stage: K) -> bool {
    exists|i: int| 0 <= i < stages.len() && (#[trigger] stages[i]).0 == stage
}

/// The position of the stage with the key `stage`, where there is one.
pub open spec fn stage_index<K, V>(stages: Seq<(K, Map<K, ServiceCell<V>>)>, stage: K) -> int {
    choose|i: int| 0 <= i < stages.len() && (#[trigger] stages[i]).0 == stage
}

/// `stages` without the stage that has the key `stage`.
pub open spec fn without_stage<K, V>(stages: Seq<(K, Map<K, ServiceCell<V>>)>, stage: K) -> Seq<
    (K, Map<K, ServiceCell<V>>),
> {
    if has_stage(stages, stage) {
        stages.remove(stage_index(stages, stage))
    } else {
        stages
    }
}

/// Whether a stage of `stages` holds a service under `key`.
pub open spec fn holds<K, V>(stages: Seq<(K, Map<K, ServiceCell<V>>)>, key: K) -> bool {
    exists|i: int| 0 <= i < stages.len() && (#[trigger] stages[i]).1.contains_key(key)
}

/// Whether the stage at `i` holds `key` and no stage before it does.
pub open spec fn is_first_holder<K, V>(
    stages: Seq<(K, Map<K, ServiceCell<V>>)>,
    key: K,
    i: int,
) -> bool {
    &&& 0 <= i < stages.len()
    &&& stages[i].1.contains_key(key)
    &&& forall|j: int| 0 <= j < i ==> !(#[trigger] stages[j]).1.contains_key(key)
}

/// The position of the first stage that holds `key`, where one does.
pub open spec fn first_holder<K, V>(stages: Seq<(K, Map<K, ServiceCell<V>>)>, key: K) -> int {
    choose|i: int| is_first_holder(stages, key, i)
}

/// What a search through `stages` finds: for each key, the cell in the first
/// stage that holds the key. A later stage with the same key is shadowed.
pub open spec fn merged<K, V>(stages: Seq<(K, Map<K, ServiceCell<V>>)>) -> Map<
    K,
    ServiceCell<V>,
> {
    Map::new(|k: K| holds(stages, k), |k: K| stages[first_holder(stages, k)].1[k])
}

/// `stages` with `key` taken out of every stage.
pub open spec fn without_service<K, V>(stages: Seq<(K, Map<K, ServiceCell<V>>)>, key: K) -> Seq<
    (K, Map<K, ServiceCell<V>>),
> {
    Seq::new(stages.len(), |i: int| (stages[i].0, stages[i].1.remove(key)))
}

/// `stages` with `cell` under `key` in the stage at `at`, and `key` in no
/// other stage.
pub open spec fn with_service<K, V>(
    stages: Seq<(K, Map<K, ServiceCell<V>>)>,
    at: int,
    key: K,
    cell: ServiceCell<V>,
) -> Seq<(K, Map<K, ServiceCell<V>>)> {
    Seq::new(
        stages.len(),
        |i: int|
            (
                stages[i].0,
                if i == at {
                    stages[i].1.insert(key, cell)
                } else {
                    stages[i].1.remove(key)
                },
            ),
    )
}

/// No two stages share a key, and no service key occurs in two stages.
pub open spec fn stages_wf<K, V>(stages: Seq<(K, Map<K, ServiceCell<V>>)>) -> bool {
    &&& forall|i: int, j: int|
        0 <= i < j < stages.len() ==> (#[trigger] stages[i]).0 != (#[trigger] stages[j]).0
    &&& forall|i: int, j: int, k: K|
        0 <= i < j < stages.len() ==> !(#[trigger] stages[i].1.contains_key(k)
            && #[trigger] stages[j].1.contains_key(k))
}

/// A stage that holds `key`, with no holder before it, is the one that a
/// search ends at.
pub proof fn lemma_first_holder<K, V>(stages: Seq<(K, Map<K, ServiceCell<V>>)>, key: K, i: int)
    requires
        is_first_holder(stages, key, i),
    ensures
        holds(stages, key),
        first_holder(stages, key) == i,
        merged(stages).contains_key(key),
        merged(stages)[key] == stages[i].1[key],
{
    let f = first_holder(stages, key);
    assert(is_first_holder(stages, key, f));
    if f < i {
        assert(!stages[f].1.contains_key(key));
    }
    if i < f {
        assert(!stages[i].1.contains_key(key));
    }
}

/// A stage shadows the stages behind it. Where the stage at `first` is the
/// first to hold `key` and the stage at `next` is the next to hold it, a
/// search ends at `first`; with the stage at `first` taken out, it ends at
/// what was the stage at `next`.
pub proof fn lemma_shadowed_shows<K, V>(
    stages: Seq<(K, Map<K, ServiceCell<V>>)>,
    key: K,
    first: int,
    next: int,
)
    requires
        is_first_holder(stages, key, first),
        first < next < stages.len(),
        stages[next].1.contains_key(key),
        forall|t: int| first < t < next ==> !(#[trigger] stages[t]).1.contains_key(key),
    ensures
        merged(stages).contains_key(key),
        merged(stages)[key] == stages[first].1[key],
        merged(stages.remove(first)).contains_key(key),
        merged(stages.remove(first))[key] == stages[next].1[key],
{
    lemma_first_holder(stages, key, first);
    let rest = stages.remove(first);
    assert(rest[next - 1] == stages[next]);
    assert forall|j: int| 0 <= j < next - 1 implies !(#[trigger] rest[j]).1.contains_key(key) by {
        if j < first {
            assert(rest[j] == stages[j]);
        } else {
            assert(rest[j] == stages[j + 1]);
        }
    }
    lemma_first_holder(rest, key, next - 1);
}

/// With the stage that holds `key` taken out, a search for `key` finds
/// nothing: no other stage holds the key.
pub proof fn lemma_removed_stage_not_found<K, V>(
    stages: Seq<(K, Map<K, ServiceCell<V>>)>,
    key: K,
    at: int,
)
    requires
        stages_wf(stages),
        0 <= at < stages.len(),
        stages[at].1.contains_key(key),
    ensures
        !merged(without_stage(stages, stages[at].0)).contains_key(key),
{
    let stage = stages[at].0;
    let c = stage_index(stages, stage);
    assert(stages[c].0 == stage);
    if c < at {
        assert(stages[c].0 != stages[at].0);
    }
    if at < c {
        assert(stages[at].0 != stages[c].0);
    }
    let rest = without_stage(stages, stage);
    assert(rest == stages.remove(at));
    if holds(rest, key) {
        let j = choose|j: int| 0 <= j < rest.len() && (#[trigger] rest[j]).1.contains_key(key);
        let orig = if j < at { j } else { j + 1 };
        assert(rest[j] == stages[orig]);
        if orig < at {
            assert(!(stages[orig].1.contains_key(key) && stages[at].1.contains_key(key)));
        } else {
            assert(!(stages[at].1.contains_key(key) && stages[orig].1.contains_key(key)));
        }
    }
}

/// Whether a bulk call takes the lock of `a` before that of `b`: the stage of
/// `a` comes first, or both are in one stage and `a` is the smaller key.
pub open spec fn taken_before<K: Key, V>(stages: Seq<(K, Map<K, ServiceCell<V>>)>, a: K, b: K) -> bool {
    let sa = first_holder(stages, a);
    let sb = first_holder(stages, b);
    sa < sb || (sa == sb && key_before(a, b))
}

/// Whether `guards` is what a bulk call holds after the first `upto` stages:
/// one guard for each of their services, stage by stage and in ascending
/// order of the keys within a stage.
pub open spec fn taken_upto<'a, K: Key, V, G: Guarded<V>>(
    stages: Seq<(K, Map<K, ServiceCell<V>>)>,
    upto: int,
    guards: Seq<(&'a K, G)>,
) -> bool {
    &&& forall|i: int|
        0 <= i < guards.len() ==> {
            let key = *(#[trigger] guards[i]).0;
            let at = first_holder(stages, key);
            &&& is_first_holder(stages, key, at)
            &&& at < upto
            &&& guards[i].1.guarded() == stages[at].1[key]
        }
    &&& forall|t: int, k: K|
        0 <= t < upto && #[trigger] stages[t].1.contains_key(k) ==> exists|i: int|
            0 <= i < guards.len() && *(#[trigger] guards[i]).0 == k
    &&& forall|i: int, j: int|
        0 <= i < j < guards.len() ==> taken_before(
            stages,
            *(#[trigger] guards[i]).0,
            *(#[trigger] guards[j]).0,
        )
}

/// Whether `guards` holds one guard for each service of `stages`, in the
/// order in which a bulk call takes them.
pub open spec fn all_taken<'a, K: Key, V, G: Guarded<V>>(
    stages: Seq<(K, Map<K, ServiceCell<V>>)>,
    guards: Seq<(&'a K, G)>,
) -> bool {
    &&& forall|i: int|
        0 <= i < guards.len() ==> merged(stages).contains_key(*(#[trigger] guards[i]).0)
            && guards[i].1.guarded() == merged(stages)[*guards[i].0]
    &&& forall|k: K|
        merged(stages).contains_key(k) ==> exists|i: int|
            0 <= i < guards.len() && *(#[trigger] guards[i]).0 == k
    &&& forall|i: int, j: int|
        0 <= i < j < guards.len() ==> taken_before(
            stages,
            *(#[trigger] guards[i]).0,
            *(#[trigger] guards[j]).0,
        )
}

/// Whether `r` is an answer that a waiting access to all services of
/// `stages` may give: one guard for each service, taken stage by stage and
/// in ascending order of the keys within a stage, or the poisoned lock that
/// ended the call.
pub open spec fn staged_bulk_outcome<'a, K: Key, V, G: Guarded<V>>(
    stages: Seq<(K, Map<K, ServiceCell<V>>)>,
    r: Result<Vec<(&'a K, G)>, Error<'a, K>>,
) -> bool {
    match r {
        Ok(guards) => all_taken(stages, guards@),
        Err(Error::Poisoned { key }) => merged(stages).contains_key(*key),
        Err(_) => false,
    }
}

/// The guards of one more stage, put behind those of the stages before it,
/// are what a bulk call holds after that stage.
pub proof fn lemma_taken_next<'a, K: Key, V, G: Guarded<V>>(
    stages: Seq<(K, Map<K, ServiceCell<V>>)>,
    upto: int,
    guards: Seq<(&'a K, G)>,
    part: Vec<(&'a K, G)>,
)
    requires
        stages_wf(stages),
        0 <= upto < stages.len(),
        taken_upto(stages, upto, guards),
        bulk_outcome(stages[upto].1, Ok(part)),
    ensures
        taken_upto(stages, upto + 1, guards + part@),
{
    let all = guards + part@;
    let n = guards.len() as int;
    assert forall|p: int| 0 <= p < part@.len() implies is_first_holder(
        stages,
        *(#[trigger] part@[p]).0,
        upto,
    ) by {
        let key = *part@[p].0;
        assert(stages[upto].1.contains_key(key));
        assert forall|j: int| 0 <= j < upto implies !(#[trigger] stages[j]).1.contains_key(
            key,
        ) by {
            assert(!(stages[j].1.contains_key(key) && stages[upto].1.contains_key(key)));
        }
    }
    assert forall|i: int| 0 <= i < all.len() implies {
        let key = *(#[trigger] all[i]).0;
        let at = first_holder(stages, key);
        &&& is_first_holder(stages, key, at)
        &&& at < upto + 1
        &&& all[i].1.guarded() == stages[at].1[key]
    } by {
        if i < n {
            assert(all[i] == guards[i]);
        } else {
            assert(all[i] == part@[i - n]);
            lemma_first_holder(stages, *part@[i - n].0, upto);
        }
    }
    assert forall|t: int, k: K| 0 <= t < upto + 1 && #[trigger] stages[t].1.contains_key(
        k,
    ) implies exists|i: int| 0 <= i < all.len() && *(#[trigger] all[i]).0 == k by {
        if t < upto {
            let i = choose|i: int| 0 <= i < guards.len() && *(#[trigger] guards[i]).0 == k;
            assert(all[i] == guards[i]);
        } else {
            let p = choose|p: int| 0 <= p < part@.len() && *(#[trigger] part@[p]).0 == k;
            assert(all[n + p] == part@[p]);
        }
    }
    assert forall|i: int, j: int| 0 <= i < j < all.len() implies taken_before(
        stages,
        *(#[trigger] all[i]).0,
        *(#[trigger] all[j]).0,
    ) by {
        if j < n {
            assert(all[i] == guards[i]);
            assert(all[j] == guards[j]);
        } else if i < n {
            assert(all[i] == guards[i]);
            assert(all[j] == part@[j - n]);
            lemma_first_holder(stages, *part@[j - n].0, upto);
        } else {
            assert(all[i] == part@[i - n]);
            assert(all[j] == part@[j - n]);
            lemma_first_holder(stages, *part@[i - n].0, upto);
            lemma_first_holder(stages, *part@[j - n].0, upto);
            assert(key_before(*part@[i - n].0, *part@[j - n].0));
        }
    }
}

/// What a bulk call holds after the last stage is a full answer.
pub proof fn lemma_taken_all<'a, K: Key, V, G: Guarded<V>>(
    stages: Seq<(K, Map<K, ServiceCell<V>>)>,
    guards: Seq<(&'a K, G)>,
)
    requires
        taken_upto(stages, stages.len() as int, guards),
    ensures
        all_taken(stages, guards),
{
    assert forall|i: int| 0 <= i < guards.len() implies merged(stages).contains_key(
        *(#[trigger] guards[i]).0,
    ) && guards[i].1.guarded() == merged(stages)[*guards[i].0] by {
        let key = *guards[i].0;
        lemma_first_holder(stages, key, first_holder(stages, key));
    }
    assert forall|k: K| merged(stages).contains_key(k) implies exists|i: int|
        0 <= i < guards.len() && *(#[trigger] guards[i]).0 == k by {
        let t = choose|t: int| 0 <= t < stages.len() && (#[trigger] stages[t]).1.contains_key(k);
        assert(stages[t].1.contains_key(k));
    }
}

/// Taking a stage out keeps the stages well formed, and leaves no stage
/// with its key.
pub proof fn lemma_without_stage<K, V>(stages: Seq<(K, Map<K, ServiceCell<V>>)>, stage: K)
    requires
        stages_wf(stages),
    ensures
        stages_wf(without_stage(stages, stage)),
        !has_stage(without_stage(stages, stage), stage),
{
    let rest = without_stage(stages, stage);
    if has_stage(stages, stage) {
        let c = stage_index(stages, stage);
        assert forall|j: int| 0 <= j < rest.len() implies (#[trigger] rest[j]).0 != stage by {
            if j < c {
                assert(rest[j] == stages[j]);
                assert(stages[j].0 != stages[c].0);
            } else {
                assert(rest[j] == stages[j + 1]);
                assert(stages[c].0 != stages[j + 1].0);
            }
        }
        assert forall|i: int, j: int| 0 <= i < j < rest.len() implies (#[trigger] rest[i]).0 != (
        #[trigger] rest[j]).0 by {
            let a = if i < c { i } else { i + 1 };
            let b = if j < c { j } else { j + 1 };
            assert(rest[i] == stages[a]);
            assert(rest[j] == stages[b]);
            assert(stages[a].0 != stages[b].0);
        }
        assert forall|i: int, j: int, k: K| 0 <= i < j < rest.len() implies !(
        #[trigger] rest[i].1.contains_key(k) && #[trigger] rest[j].1.contains_key(k)) by {
            let a = if i < c { i } else { i + 1 };
            let b = if j < c { j } else { j + 1 };
            assert(rest[i] == stages[a]);
            assert(rest[j] == stages[b]);
            assert(!(stages[a].1.contains_key(k) && stages[b].1.contains_key(k)));
        }
    }
}

/// Putting in an empty stage under a key that no stage has keeps the stages
/// well formed.
pub proof fn lemma_with_empty_stage<K, V>(
    stages: Seq<(K, Map<K, ServiceCell<V>>)>,
    pos: int,
    stage: K,
)
    requires
        stages_wf(stages),
        !has_stage(stages, stage),
        0 <= pos <= stages.len(),
    ensures
        stages_wf(stages.insert(pos, (stage, Map::<K, ServiceCell<V>>::empty()))),
{
    let now = stages.insert(pos, (stage, Map::<K, ServiceCell<V>>::empty()));
    assert forall|i: int, j: int| 0 <= i < j < now.len() implies (#[trigger] now[i]).0 != (
    #[trigger] now[j]).0 by {
        let a = if i < pos { i } else { i - 1 };
        let b = if j < pos { j } else { j - 1 };
        if i != pos && j != pos {
            assert(now[i] == stages[a]);
            assert(now[j] == stages[b]);
            assert(stages[a].0 != stages[b].0);
        } else if i == pos {
            assert(now[j] == stages[b]);
            assert(stages[b].0 != stage);
        } else {
            assert(now[i] == stages[a]);
            assert(stages[a].0 != stage);
        }
    }
    assert forall|i: int, j: int, k: K| 0 <= i < j < now.len() implies !(
    #[trigger] now[i].1.contains_key(k) && #[trigger] now[j].1.contains_key(k)) by {
        let a = if i < pos { i } else { i - 1 };
        let b = if j < pos { j } else { j - 1 };
        if i != pos && j != pos {
            assert(now[i] == stages[a]);
            assert(now[j] == stages[b]);
            assert(!(stages[a].1.contains_key(k) && stages[b].1.contains_key(k)));
        }
    }
}

/// Taking a service key out of every stage keeps the stages well formed.
pub proof fn lemma_without_service_wf<K, V>(stages: Seq<(K, Map<K, ServiceCell<V>>)>, key: K)
    requires
        stages_wf(stages),
    ensures
        stages_wf(without_service(stages, key)),
        !holds(without_service(stages, key), key),
{
    let now = without_service(stages, key);
    assert forall|i: int, j: int| 0 <= i < j < now.len() implies (#[trigger] now[i]).0 != (
    #[trigger] now[j]).0 by {
        assert(stages[i].0 != stages[j].0);
    }
    assert forall|i: int, j: int, k: K| 0 <= i < j < now.len() implies !(
    #[trigger] now[i].1.contains_key(k) && #[trigger] now[j].1.contains_key(k)) by {
        assert(!(stages[i].1.contains_key(k) && stages[j].1.contains_key(k)));
    }
}

/// `stages` with a new, empty stage right before or right behind the stage
/// with the key `near`, after a stage that had the key `stage` was taken out.
/// A stage that is put next to itself comes back, empty, in its own place.
pub open spec fn with_stage_near<K, V>(
    stages: Seq<(K, Map<K, ServiceCell<V>>)>,
    near: K,
    stage: K,
    behind: bool,
) -> Seq<(K, Map<K, ServiceCell<V>>)> {
    if near == stage {
        stages.update(stage_index(stages, stage), (stage, Map::<K, ServiceCell<V>>::empty()))
    } else {
        let rest = without_stage(stages, stage);
        let at = stage_index(rest, near) + if behind { 1int } else { 0int };
        rest.insert(at, (stage, Map::<K, ServiceCell<V>>::empty()))
    }
}

/// A stage other than the one taken out is still there.
pub proof fn lemma_other_stage_stays<K, V>(
    stages: Seq<(K, Map<K, ServiceCell<V>>)>,
    near: K,
    stage: K,
)
    requires
        has_stage(stages, near),
        near != stage,
    ensures
        has_stage(without_stage(stages, stage), near),
{
    let rest = without_stage(stages, stage);
    let n = stage_index(stages, near);
    if has_stage(stages, stage) {
        let c = stage_index(stages, stage);
        if n < c {
            assert(rest[n] == stages[n]);
        } else {
            assert(rest[n - 1] == stages[n]);
        }
    }
}

} // verus!
