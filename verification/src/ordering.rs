//! Ordering of loaded soundings by valid time (and lead time), and the removal of soundings that
//! repeat a valid time. The soundings are described by their keys; the functions return the
//! positions of the soundings in the order they are to be kept.

use vstd::prelude::*;

verus! {

/// A valid time: whole seconds since the Unix epoch and the nanoseconds within that second.
#[derive(Clone, Copy, Debug, PartialEq, Eq, Structural)]
pub struct ValidTime {
    pub secs: i64,
    pub nanos: u32,
}

/// Chronological order of valid times.
pub open spec fn vt_lt(a: ValidTime, b: ValidTime) -> bool {
    a.secs < b.secs || (a.secs == b.secs && a.nanos < b.nanos)
}

/// Order of optional valid times: a missing valid time comes first.
pub open spec fn opt_vt_le(a: Option<ValidTime>, b: Option<ValidTime>) -> bool {
    match (a, b) {
        (None, _) => true,
        (Some(_), None) => false,
        (Some(x), Some(y)) => x == y || vt_lt(x, y),
    }
}

/// Is `x` earlier than `y`?
pub fn valid_time_lt(x: ValidTime, y: ValidTime) -> (r: bool)
    ensures
        r == vt_lt(x, y),
        r == (x.secs < y.secs || (x.secs == y.secs && x.nanos < y.nanos)),
{
    x.secs < y.secs || (x.secs == y.secs && x.nanos < y.nanos)
}

/// Does `a` come no later than `b`, a missing valid time coming first?
pub fn opt_valid_time_le(a: Option<ValidTime>, b: Option<ValidTime>) -> (r: bool)
    ensures
        r == opt_vt_le(a, b),
{
    match (a, b) {
        (None, _) => true,
        (Some(_), None) => false,
        (Some(x), Some(y)) => (x.secs == y.secs && x.nanos == y.nanos) || valid_time_lt(x, y),
    }
}

/// Position `m` occurs in `order`.
pub open spec fn lists(order: Seq<usize>, m: int) -> bool {
    exists|q: int| 0 <= q < order.len() && order[q] == m
}

/// `order` lists each of the positions `0..n` exactly once.
pub open spec fn is_permutation(order: Seq<usize>, n: nat) -> bool {
    &&& order.len() == n
    &&& forall|i: int| 0 <= i < order.len() ==> #[trigger] order[i] < n
    &&& forall|i: int, j: int| 0 <= i < j < order.len() ==> order[i] != order[j]
    &&& forall|m: int| 0 <= m < n ==> #[trigger] lists(order, m)
}

/// `le` compares any two of `keys` one way or the other.
pub open spec fn total_on<K>(keys: Seq<K>, le: spec_fn(K, K) -> bool) -> bool {
    forall|i: int, j: int|
        0 <= i < keys.len() && 0 <= j < keys.len() ==> #[trigger] le(keys[i], keys[j]) || le(keys[j], keys[i])
}

/// `le` is transitive on `keys`.
pub open spec fn transitive_on<K>(keys: Seq<K>, le: spec_fn(K, K) -> bool) -> bool {
    forall|i: int, j: int, l: int|
        #![trigger le(keys[i], keys[j]), le(keys[j], keys[l])]
        0 <= i < keys.len() && 0 <= j < keys.len() && 0 <= l < keys.len() && le(keys[i], keys[j]) && le(
            keys[j],
            keys[l],
        ) ==> le(keys[i], keys[l])
}

/// `order` lists positions of `keys` in stable ascending order under `le`: the keys never
/// decrease, and two positions whose keys compare both ways keep their original order.
pub open spec fn sorted_by<K>(keys: Seq<K>, le: spec_fn(K, K) -> bool, order: Seq<usize>) -> bool {
    &&& forall|i: int, j: int| 0 <= i < j < order.len() ==> le(keys[order[i] as int], keys[order[j] as int])
    &&& forall|i: int, j: int|
        0 <= i < j < order.len() && le(keys[order[j] as int], keys[order[i] as int]) ==> order[i] < order[j]
}

/// Inserting position `k` at place `p` of an order listing `0..k` gives an order listing `0..k+1`.
pub(crate) proof fn lemma_insert_keeps_permutation(old_order: Seq<usize>, order: Seq<usize>, p: int, k: usize)
    requires
        is_permutation(old_order, k as nat),
        0 <= p <= old_order.len(),
        order == old_order.subrange(0, p).push(k).add(old_order.subrange(p, old_order.len() as int)),
    ensures
        is_permutation(order, (k + 1) as nat),
{
    assert forall|i: int, j: int| 0 <= i < j < order.len() implies order[i] != order[j] by {
        if i == p || j == p {
        } else if j < p {
            assert(order[i] == old_order[i] && order[j] == old_order[j]);
        } else if i < p {
            assert(order[i] == old_order[i] && order[j] == old_order[j - 1]);
        } else {
            assert(order[i] == old_order[i - 1] && order[j] == old_order[j - 1]);
        }
    }
    assert forall|m: int| 0 <= m < k + 1 implies #[trigger] lists(order, m) by {
        if m == k {
            assert(order[p] == k);
        } else {
            assert(lists(old_order, m));
            let q = choose|q: int| 0 <= q < old_order.len() && old_order[q] == m;
            if q < p {
                assert(order[q] == m);
            } else {
                assert(order[q + 1] == m);
            }
        }
    }
    assert forall|i: int| 0 <= i < order.len() implies #[trigger] order[i] < k + 1 by {
        if i < p {
            assert(order[i] == old_order[i]);
        } else if i > p {
            assert(order[i] == old_order[i - 1]);
        }
    }
}

/// In an order sorted under a total, transitive `le`, once one key comes strictly after `key`,
/// every later key does too.
pub(crate) proof fn lemma_rest_after<K>(keys: Seq<K>, le: spec_fn(K, K) -> bool, order: Seq<usize>, p: int, k: int)
    requires
        total_on(keys, le),
        transitive_on(keys, le),
        forall|i: int| 0 <= i < order.len() ==> #[trigger] order[i] < keys.len(),
        0 <= k < keys.len(),
        sorted_by(keys, le, order),
        0 <= p <= order.len(),
        p < order.len() ==> !le(keys[order[p] as int], keys[k]),
    ensures
        forall|i: int| p <= i < order.len() ==> !le(#[trigger] keys[order[i] as int], keys[k]),
{
    assert forall|i: int| p <= i < order.len() implies !le(#[trigger] keys[order[i] as int], keys[k]) by {
        let a = order[p] as int;
        let b = order[i] as int;
        assert(le(keys[a], keys[k]) || le(keys[k], keys[a]));
        if i > p {
            assert(le(keys[a], keys[b]));
            if le(keys[b], keys[k]) {
                assert(le(keys[a], keys[k]));
            }
        }
    }
}

/// Inserting position `k` at place `p` of a sorted order, after every key that comes no later
/// than `keys[k]` and before every key that comes strictly after it, keeps the order sorted and
/// stable.
pub(crate) proof fn lemma_insert_keeps_sorted<K>(
    keys: Seq<K>,
    le: spec_fn(K, K) -> bool,
    old_order: Seq<usize>,
    order: Seq<usize>,
    p: int,
    k: usize,
)
    requires
        total_on(keys, le),
        transitive_on(keys, le),
        k < keys.len(),
        forall|i: int| 0 <= i < old_order.len() ==> #[trigger] old_order[i] < k,
        sorted_by(keys, le, old_order),
        0 <= p <= old_order.len(),
        forall|i: int| 0 <= i < p ==> le(#[trigger] keys[old_order[i] as int], keys[k as int]),
        forall|i: int| p <= i < old_order.len() ==> !le(#[trigger] keys[old_order[i] as int], keys[k as int]),
        order == old_order.subrange(0, p).push(k).add(old_order.subrange(p, old_order.len() as int)),
    ensures
        sorted_by(keys, le, order),
{
    let kk = k as int;
    assert forall|i: int, j: int| 0 <= i < j < order.len() implies le(keys[order[i] as int], keys[order[j] as int]) by {
        if j == p {
            assert(order[i] == old_order[i]);
        } else if i == p {
            assert(order[j] == old_order[j - 1]);
            assert(le(keys[order[j] as int], keys[kk]) || le(keys[kk], keys[order[j] as int]));
        } else if i < p && j > p {
            assert(order[i] == old_order[i] && order[j] == old_order[j - 1]);
            assert(le(keys[order[j] as int], keys[kk]) || le(keys[kk], keys[order[j] as int]));
            assert(le(keys[order[i] as int], keys[kk]));
        } else if j < p {
            assert(order[i] == old_order[i] && order[j] == old_order[j]);
        } else {
            assert(order[i] == old_order[i - 1] && order[j] == old_order[j - 1]);
        }
    }
    assert forall|i: int, j: int|
        0 <= i < j < order.len() && le(keys[order[j] as int], keys[order[i] as int]) implies order[i] < order[j] by {
        if i == p {
            assert(order[j] == old_order[j - 1]);
        } else if j == p {
            assert(order[i] == old_order[i]);
        } else if i < p && j > p {
            assert(order[i] == old_order[i] && order[j] == old_order[j - 1]);
            assert(le(keys[order[i] as int], keys[kk]));
        } else if j < p {
            assert(order[i] == old_order[i] && order[j] == old_order[j]);
        } else {
            assert(order[i] == old_order[i - 1] && order[j] == old_order[j - 1]);
        }
    }
}

/// Stable ascending order of `keys` by optional valid time: `order` lists the positions of `keys`
/// so that the keys never decrease, and positions with equal keys keep their original order.
pub open spec fn sorted_by_valid_time(keys: Seq<Option<ValidTime>>, order: Seq<usize>) -> bool {
    &&& is_permutation(order, keys.len())
    &&& forall|i: int, j: int|
        0 <= i < j < order.len() ==> opt_vt_le(keys[order[i] as int], keys[order[j] as int])
    &&& forall|i: int, j: int|
        0 <= i < j < order.len() && keys[order[i] as int] == keys[order[j] as int] ==> order[i] < order[j]
}

/// `opt_vt_le` as a value.
pub open spec fn valid_time_order() -> spec_fn(Option<ValidTime>, Option<ValidTime>) -> bool {
    |a: Option<ValidTime>, b: Option<ValidTime>| opt_vt_le(a, b)
}

/// The order of optional valid times is total and transitive on any keys.
proof fn lemma_valid_time_order(keys: Seq<Option<ValidTime>>)
    ensures
        total_on(keys, valid_time_order()),
        transitive_on(keys, valid_time_order()),
{
}

/// Positions of `keys` in stable ascending order of valid time (a missing valid time first).
pub fn sort_by_valid_time(keys: &Vec<Option<ValidTime>>) -> (order: Vec<usize>)
    ensures
        sorted_by_valid_time(keys@, order@),
{
    let ghost le = valid_time_order();
    proof {
        lemma_valid_time_order(keys@);
    }
    let n = keys.len();
    let mut order: Vec<usize> = Vec::new();
    let mut k: usize = 0;
    while k < n
        invariant
            n == keys.len(),
            k <= n,
            le == valid_time_order(),
            total_on(keys@, le),
            transitive_on(keys@, le),
            is_permutation(order@, k as nat),
            sorted_by(keys@, le, order@),
        decreases n - k,
    {
        let key = keys[k];
        // First position whose key is later than `key`.
        let mut p: usize = 0;
        while p < order.len() && opt_valid_time_le(keys[order[p]], key)
            invariant
                n == keys.len(),
                k < n,
                p <= order.len(),
                key == keys@[k as int],
                le == valid_time_order(),
                forall|i: int| 0 <= i < order.len() ==> #[trigger] order@[i] < k,
                forall|i: int| 0 <= i < p ==> le(#[trigger] keys@[order@[i] as int], keys@[k as int]),
            decreases order.len() - p,
        {
            p += 1;
        }
        let ghost old_order = order@;
        proof {
            lemma_rest_after(keys@, le, old_order, p as int, k as int);
        }
        order.insert(p, k);
        proof {
            assert(order@ == old_order.subrange(0, p as int).push(k).add(old_order.subrange(p as int, old_order.len() as int)));
            lemma_insert_keeps_permutation(old_order, order@, p as int, k);
            lemma_insert_keeps_sorted(keys@, le, old_order, order@, p as int, k);
        }
        k += 1;
    }
    proof {
        assert forall|i: int, j: int|
            0 <= i < j < order.len() && keys@[order@[i] as int] == keys@[order@[j] as int] implies order@[i] < order@[j] by {
            assert(le(keys@[order@[j] as int], keys@[order@[i] as int]));
        }
    }
    order
}


/// What a loaded sounding is sorted by: its valid time and its lead time (hours into the forecast).
#[derive(Clone, Copy, Debug, PartialEq, Eq, Structural)]
pub struct SoundingKey {
    pub valid_time: Option<ValidTime>,
    pub lead_time: Option<i32>,
}

/// The comparison used when several files are loaded together: by valid time, then by lead time
/// when the valid times are equal. Whenever one of the two values compared is missing, the keys
/// count as equal.
pub open spec fn key_comparison(a: SoundingKey, b: SoundingKey) -> Comparison {
    match (a.valid_time, b.valid_time) {
        (Some(x), Some(y)) => if x == y {
            match (a.lead_time, b.lead_time) {
                (Some(l), Some(m)) => if l < m {
                    Comparison::Less
                } else if l == m {
                    Comparison::Equal
                } else {
                    Comparison::Greater
                },
                _ => Comparison::Equal,
            }
        } else if vt_lt(x, y) {
            Comparison::Less
        } else {
            Comparison::Greater
        },
        _ => Comparison::Equal,
    }
}

/// Outcome of a three-way comparison.
#[derive(Clone, Copy, Debug, PartialEq, Eq, Structural)]
pub enum Comparison {
    Less,
    Equal,
    Greater,
}

/// `a` may stand before `b`.
pub open spec fn key_le(a: SoundingKey, b: SoundingKey) -> bool {
    key_comparison(a, b) != Comparison::Greater
}

/// `key_le` as a value.
pub open spec fn key_order() -> spec_fn(SoundingKey, SoundingKey) -> bool {
    |a: SoundingKey, b: SoundingKey| key_le(a, b)
}

/// The comparison is a total preorder on the given keys, as a sort needs: it is transitive on
/// them. (It is always total.) It fails, for example, when one key lacks a valid time and two
/// others have different ones.
pub open spec fn comparison_consistent(keys: Seq<SoundingKey>) -> bool {
    transitive_on(keys, key_order())
}

/// Stable ascending order of `keys` under `key_comparison`.
pub open spec fn sorted_by_key(keys: Seq<SoundingKey>, order: Seq<usize>) -> bool {
    sorted_by(keys, key_order(), order)
}

proof fn lemma_key_le_total(a: SoundingKey, b: SoundingKey)
    ensures
        key_le(a, b) || key_le(b, a),
{
}

/// Three-way comparison of two sounding keys.
pub fn compare_keys(a: SoundingKey, b: SoundingKey) -> (c: Comparison)
    ensures
        c == key_comparison(a, b),
        a.valid_time is None || b.valid_time is None ==> c == Comparison::Equal,
        ({
            let (x, y) = (a.valid_time->0, b.valid_time->0);
            a.valid_time is Some && b.valid_time is Some && x != y ==> (c == Comparison::Less <==> (x.secs < y.secs
                || (x.secs == y.secs && x.nanos < y.nanos))) && c != Comparison::Equal
        }),
        a.valid_time is Some && a.valid_time == b.valid_time && a.lead_time is Some && b.lead_time is Some ==> (c
            == Comparison::Less <==> a.lead_time->0 < b.lead_time->0) && (c == Comparison::Equal <==> a.lead_time->0
            == b.lead_time->0),
        a.valid_time is Some && a.valid_time == b.valid_time && (a.lead_time is None || b.lead_time is None) ==> c
            == Comparison::Equal,
{
    match (a.valid_time, b.valid_time) {
        (Some(x), Some(y)) => if x.secs == y.secs && x.nanos == y.nanos {
            match (a.lead_time, b.lead_time) {
                (Some(l), Some(m)) => if l < m {
                    Comparison::Less
                } else if l == m {
                    Comparison::Equal
                } else {
                    Comparison::Greater
                },
                _ => Comparison::Equal,
            }
        } else if valid_time_lt(x, y) {
            Comparison::Less
        } else {
            Comparison::Greater
        },
        _ => Comparison::Equal,
    }
}

/// Positions of `keys` sorted by valid time ascending, then by lead time ascending, the way a
/// stable sort orders them. The result always lists every position once; when the comparison is
/// a total preorder on the keys, it is the stable sorted order.
pub fn sort_by_valid_and_lead_time(keys: &Vec<SoundingKey>) -> (order: Vec<usize>)
    ensures
        is_permutation(order@, keys@.len()),
        comparison_consistent(keys@) ==> sorted_by_key(keys@, order@),
{
    let ghost le = key_order();
    proof {
        assert forall|i: int, j: int| 0 <= i < keys@.len() && 0 <= j < keys@.len() implies #[trigger] le(keys@[i], keys@[j]) || le(keys@[j], keys@[i]) by {
            lemma_key_le_total(keys@[i], keys@[j]);
        }
    }
    let n = keys.len();
    let mut order: Vec<usize> = Vec::new();
    let mut k: usize = 0;
    while k < n
        invariant
            n == keys.len(),
            k <= n,
            le == key_order(),
            total_on(keys@, le),
            is_permutation(order@, k as nat),
            comparison_consistent(keys@) ==> sorted_by(keys@, le, order@),
        decreases n - k,
    {
        let key = keys[k];
        // First position whose key compares greater than `key`.
        let mut p: usize = 0;
        while p < order.len() && !matches!(compare_keys(keys[order[p]], key), Comparison::Greater)
            invariant
                n == keys.len(),
                k < n,
                p <= order.len(),
                key == keys@[k as int],
                le == key_order(),
                forall|i: int| 0 <= i < order.len() ==> #[trigger] order@[i] < k,
                forall|i: int| 0 <= i < p ==> le(#[trigger] keys@[order@[i] as int], keys@[k as int]),
            decreases order.len() - p,
        {
            p += 1;
        }
        let ghost old_order = order@;
        proof {
            if comparison_consistent(keys@) {
                lemma_rest_after(keys@, le, old_order, p as int, k as int);
            }
        }
        order.insert(p, k);
        proof {
            assert(order@ == old_order.subrange(0, p as int).push(k).add(old_order.subrange(p as int, old_order.len() as int)));
            lemma_insert_keeps_permutation(old_order, order@, p as int, k);
            if comparison_consistent(keys@) {
                lemma_insert_keeps_sorted(keys@, le, old_order, order@, p as int, k);
            }
        }
        k += 1;
    }
    order
}

/// The sounding at place `i` of `order` is kept: it is the first one, or its valid time differs
/// from that of the one before it (a missing valid time counts as a value of its own).
pub open spec fn kept_at(keys: Seq<SoundingKey>, order: Seq<usize>, i: int) -> bool {
    i == 0 || keys[order[i] as int].valid_time != keys[order[i - 1] as int].valid_time
}

/// The positions of `order` that are kept, in order: the first sounding of each run of equal
/// valid times passes, the ones repeating the valid time just before them are dropped.
pub open spec fn dedup_valid_times_spec(keys: Seq<SoundingKey>, order: Seq<usize>) -> Seq<usize>
    decreases order.len(),
{
    if order.len() == 0 {
        Seq::empty()
    } else {
        let rest = dedup_valid_times_spec(keys, order.drop_last());
        if kept_at(keys, order, order.len() - 1) {
            rest.push(order.last())
        } else {
            rest
        }
    }
}

/// Two optional valid times are equal.
fn same_valid_time(a: Option<ValidTime>, b: Option<ValidTime>) -> (r: bool)
    ensures
        r == (a == b),
{
    match (a, b) {
        (None, None) => true,
        (Some(x), Some(y)) => x.secs == y.secs && x.nanos == y.nanos,
        _ => false,
    }
}

/// Walks `order` and passes on only the first sounding of each run of equal valid times.
pub fn dedup_valid_times(keys: &Vec<SoundingKey>, order: &Vec<usize>) -> (kept: Vec<usize>)
    requires
        forall|i: int| 0 <= i < order.len() ==> #[trigger] order@[i] < keys.len(),
    ensures
        kept@ == dedup_valid_times_spec(keys@, order@),
{
    let mut kept: Vec<usize> = Vec::new();
    // Valid time of the sounding before place `i`; nothing is seen before the first place.
    let mut prev: Option<Option<ValidTime>> = None;
    let mut i: usize = 0;
    while i < order.len()
        invariant
            i <= order.len(),
            forall|j: int| 0 <= j < order.len() ==> #[trigger] order@[j] < keys.len(),
            prev == (if i == 0 {
                None::<Option<ValidTime>>
            } else {
                Some(keys@[order@[i - 1] as int].valid_time)
            }),
            kept@ == dedup_valid_times_spec(keys@, order@.take(i as int)),
        decreases order.len() - i,
    {
        let vt = keys[order[i]].valid_time;
        let ghost taken = order@.take(i as int + 1);
        proof {
            assert(taken.drop_last() == order@.take(i as int));
            assert(kept_at(keys@, taken, i as int) == kept_at(keys@, order@, i as int));
        }
        let keep = match prev {
            None => true,
            Some(p) => !same_valid_time(p, vt),
        };
        if keep {
            kept.push(order[i]);
        }
        prev = Some(vt);
        i += 1;
    }
    proof {
        assert(order@.take(order.len() as int) == order@);
    }
    kept
}

/// The order in which soundings loaded together are shown: `sorted` is the sorted order of all
/// of them, and `kept` the soundings that remain once repeated valid times are dropped.
pub struct LoadingOrder {
    pub sorted: Vec<usize>,
    pub kept: Vec<usize>,
}

/// Sorts the soundings by valid time, then lead time, and keeps the first of each valid time.
pub fn loading_order(keys: &Vec<SoundingKey>) -> (r: LoadingOrder)
    ensures
        is_permutation(r.sorted@, keys@.len()),
        comparison_consistent(keys@) ==> sorted_by_key(keys@, r.sorted@),
        r.kept@ == dedup_valid_times_spec(keys@, r.sorted@),
{
    let sorted = sort_by_valid_and_lead_time(keys);
    let kept = dedup_valid_times(keys, &sorted);
    LoadingOrder { sorted, kept }
}


/// Places (indices into `order`) that `dedup_valid_times_spec` keeps, in increasing order.
pub open spec fn kept_places(keys: Seq<SoundingKey>, order: Seq<usize>) -> Seq<int>
    decreases order.len(),
{
    if order.len() == 0 {
        Seq::empty()
    } else {
        let rest = kept_places(keys, order.drop_last());
        if kept_at(keys, order, order.len() - 1) {
            rest.push(order.len() - 1)
        } else {
            rest
        }
    }
}

/// The kept soundings are exactly those at the places where `kept_at` holds, in order.
proof fn lemma_dedup_places(keys: Seq<SoundingKey>, order: Seq<usize>)
    ensures
        dedup_valid_times_spec(keys, order).len() == kept_places(keys, order).len(),
        forall|k: int| 0 <= k < kept_places(keys, order).len() ==> {
            let p = #[trigger] kept_places(keys, order)[k];
            &&& 0 <= p < order.len()
            &&& kept_at(keys, order, p)
            &&& dedup_valid_times_spec(keys, order)[k] == order[p]
        },
        forall|k1: int, k2: int|
            0 <= k1 < k2 < kept_places(keys, order).len() ==> kept_places(keys, order)[k1]
                < kept_places(keys, order)[k2],
        forall|p: int|
            0 <= p < order.len() && #[trigger] kept_at(keys, order, p) ==> kept_places(keys, order).contains(p),
    decreases order.len(),
{
    if order.len() > 0 {
        let o = order.drop_last();
        lemma_dedup_places(keys, o);
        assert forall|p: int| 0 <= p < o.len() implies kept_at(keys, o, p) == kept_at(keys, order, p) by {
            assert(o[p] == order[p]);
            if p > 0 {
                assert(o[p - 1] == order[p - 1]);
            }
        }
        let places = kept_places(keys, order);
        let prev = kept_places(keys, o);
        assert forall|p: int| 0 <= p < order.len() && #[trigger] kept_at(keys, order, p) implies places.contains(p) by {
            if p < o.len() {
                assert(kept_at(keys, o, p));
                assert(prev.contains(p));
                let k = choose|k: int| 0 <= k < prev.len() && prev[k] == p;
                assert(places[k] == p);
            } else {
                assert(places[places.len() - 1] == p);
            }
        }
        assert forall|k: int| 0 <= k < places.len() implies {
            let p = #[trigger] places[k];
            &&& 0 <= p < order.len()
            &&& kept_at(keys, order, p)
            &&& dedup_valid_times_spec(keys, order)[k] == order[p]
        } by {
            if k < prev.len() {
                assert(places[k] == prev[k]);
                assert(kept_at(keys, o, prev[k]));
            }
        }
    }
}

/// Every sounding has a valid time.
pub open spec fn all_valid_times_present(keys: Seq<SoundingKey>) -> bool {
    forall|i: int| 0 <= i < keys.len() ==> (#[trigger] keys[i]).valid_time is Some
}

/// Every sounding has a lead time.
pub open spec fn all_lead_times_present(keys: Seq<SoundingKey>) -> bool {
    forall|i: int| 0 <= i < keys.len() ==> (#[trigger] keys[i]).lead_time is Some
}

/// Soundings loaded together are shown in strictly increasing valid time: when every sounding
/// has a valid time and the sorted order is sorted by the comparison, the kept soundings have
/// strictly increasing valid times, so no valid time is shown twice.
pub proof fn lemma_loading_order_strictly_increasing(keys: Seq<SoundingKey>, sorted: Seq<usize>)
    requires
        all_valid_times_present(keys),
        is_permutation(sorted, keys.len()),
        sorted_by_key(keys, sorted),
    ensures
        forall|i: int, j: int|
            0 <= i < j < dedup_valid_times_spec(keys, sorted).len() ==> vt_lt(
                keys[dedup_valid_times_spec(keys, sorted)[i] as int].valid_time->0,
                keys[dedup_valid_times_spec(keys, sorted)[j] as int].valid_time->0,
            ),
{
    lemma_dedup_places(keys, sorted);
    let kept = dedup_valid_times_spec(keys, sorted);
    let places = kept_places(keys, sorted);
    assert forall|i: int, j: int| 0 <= i < j < kept.len() implies vt_lt(
        keys[kept[i] as int].valid_time->0,
        keys[kept[j] as int].valid_time->0,
    ) by {
        let p1 = places[i];
        let p2 = places[j];
        assert(0 <= p1 < p2 < sorted.len());
        assert(kept_at(keys, sorted, p2));
        let a = keys[sorted[p1] as int];
        let b = keys[sorted[p2 - 1] as int];
        let c = keys[sorted[p2] as int];
        assert(sorted[p1] < keys.len() && sorted[p2 - 1] < keys.len() && sorted[p2] < keys.len());
        assert(a.valid_time is Some && b.valid_time is Some && c.valid_time is Some);
        assert(key_le(b, c));
        assert(b.valid_time != c.valid_time);
        if p1 < p2 - 1 {
            assert(key_le(a, b));
        }
        assert(a.valid_time == b.valid_time || vt_lt(a.valid_time->0, b.valid_time->0));
        assert(vt_lt(b.valid_time->0, c.valid_time->0));
    }
}

/// Walking back from place `q` over dropped soundings reaches a kept one with the same valid time.
proof fn lemma_kept_before(keys: Seq<SoundingKey>, order: Seq<usize>, q: int)
    requires
        forall|i: int| 0 <= i < order.len() ==> #[trigger] order[i] < keys.len(),
        0 <= q < order.len(),
    ensures
        exists|p: int|
            0 <= p <= q && #[trigger] kept_at(keys, order, p) && keys[order[p] as int].valid_time
                == keys[order[q] as int].valid_time,
    decreases q,
{
    if kept_at(keys, order, q) {
        assert(kept_at(keys, order, q));
    } else {
        lemma_kept_before(keys, order, q - 1);
    }
}

/// No valid time is lost: each valid time of the input (a missing one included) is the valid time
/// of some kept sounding; in particular something is kept whenever something was loaded.
pub proof fn lemma_loading_order_keeps_every_valid_time(keys: Seq<SoundingKey>, sorted: Seq<usize>)
    requires
        is_permutation(sorted, keys.len()),
    ensures
        forall|m: int|
            0 <= m < keys.len() ==> exists|k: int|
                0 <= k < dedup_valid_times_spec(keys, sorted).len() && keys[dedup_valid_times_spec(
                    keys,
                    sorted,
                )[k] as int].valid_time == (#[trigger] keys[m]).valid_time,
{
    lemma_dedup_places(keys, sorted);
    let kept = dedup_valid_times_spec(keys, sorted);
    let places = kept_places(keys, sorted);
    assert forall|m: int| 0 <= m < keys.len() implies exists|k: int|
        0 <= k < kept.len() && keys[kept[k] as int].valid_time == (#[trigger] keys[m]).valid_time by {
        assert(lists(sorted, m));
        let q = choose|q: int| 0 <= q < sorted.len() && sorted[q] == m;
        lemma_kept_before(keys, sorted, q);
        let p = choose|p: int|
            0 <= p <= q && #[trigger] kept_at(keys, sorted, p) && keys[sorted[p] as int].valid_time
                == keys[sorted[q] as int].valid_time;
        assert(places.contains(p));
        let k = choose|k: int| 0 <= k < places.len() && places[k] == p;
        assert(kept[k] == sorted[p]);
    }
}

/// The kept sounding of each valid time has the smallest lead time among the soundings with that
/// valid time, when every sounding has both times (the comparison is then a total preorder, so
/// `loading_order` sorts by it).
pub proof fn lemma_loading_order_prefers_shortest_lead(keys: Seq<SoundingKey>, sorted: Seq<usize>)
    requires
        all_valid_times_present(keys),
        all_lead_times_present(keys),
        is_permutation(sorted, keys.len()),
        sorted_by_key(keys, sorted),
    ensures
        forall|k: int, m: int|
            0 <= k < dedup_valid_times_spec(keys, sorted).len() && 0 <= m < keys.len()
                && keys[m].valid_time == keys[#[trigger] dedup_valid_times_spec(keys, sorted)[k] as int].valid_time
                ==> keys[dedup_valid_times_spec(keys, sorted)[k] as int].lead_time->0 <= (#[trigger] keys[m]).lead_time->0,
{
    lemma_dedup_places(keys, sorted);
    let kept = dedup_valid_times_spec(keys, sorted);
    let places = kept_places(keys, sorted);
    assert forall|k: int, m: int|
        0 <= k < kept.len() && 0 <= m < keys.len() && keys[m].valid_time == keys[#[trigger] kept[k] as int].valid_time
        implies keys[kept[k] as int].lead_time->0 <= (#[trigger] keys[m]).lead_time->0 by {
        let p = places[k];
        assert(lists(sorted, m));
        let q = choose|q: int| 0 <= q < sorted.len() && sorted[q] == m;
        let x = keys[sorted[p] as int];
        assert(x == keys[kept[k] as int]);
        assert(sorted[p] < keys.len());
        if q < p {
            // Everything before the kept place has an earlier valid time.
            let b = keys[sorted[p - 1] as int];
            assert(sorted[p - 1] < keys.len());
            assert(kept_at(keys, sorted, p));
            assert(b.valid_time != x.valid_time);
            assert(key_le(b, x));
            if q < p - 1 {
                assert(key_le(keys[sorted[q] as int], b));
            }
            assert(keys[sorted[q] as int] == keys[m]);
            assert(false);
        } else if q > p {
            assert(key_le(x, keys[sorted[q] as int]));
        }
    }
}

/// When every sounding has a valid time and a lead time, the comparison is a total preorder on
/// them (it orders by valid time, then by lead time), so `loading_order` sorts them.
pub proof fn lemma_complete_keys_are_consistent(keys: Seq<SoundingKey>)
    requires
        all_valid_times_present(keys),
        all_lead_times_present(keys),
    ensures
        comparison_consistent(keys),
{
    assert forall|i: int, j: int, l: int|
        #![trigger key_le(keys[i], keys[j]), key_le(keys[j], keys[l])]
        0 <= i < keys.len() && 0 <= j < keys.len() && 0 <= l < keys.len() && key_le(keys[i], keys[j])
            && key_le(keys[j], keys[l]) implies key_le(keys[i], keys[l]) by {
        let (a, b, c) = (keys[i], keys[j], keys[l]);
        assert(a.valid_time is Some && b.valid_time is Some && c.valid_time is Some);
        assert(a.lead_time is Some && b.lead_time is Some && c.lead_time is Some);
    }
}

/// Valid times are ordered chronologically: by the seconds since the epoch, then by the
/// nanoseconds within the second; a date is never ordered by its time of day.
pub proof fn lemma_valid_time_order_is_chronological(a: ValidTime, b: ValidTime)
    ensures
        vt_lt(a, b) <==> (a.secs < b.secs || (a.secs == b.secs && a.nanos < b.nanos)),
        opt_vt_le(Some(a), Some(b)) <==> (a.secs < b.secs || (a.secs == b.secs && a.nanos <= b.nanos)),
        opt_vt_le(None, Some(a)),
        !opt_vt_le(Some(a), None),
{
}

/// A load sorted by valid time is in chronological order: soundings without a valid time come
/// first, and along the rest the seconds never decrease (nor the nanoseconds within equal
/// seconds). Every sounding is listed once, and soundings with the same valid time keep the
/// order they were loaded in.
pub proof fn lemma_sorted_load_is_chronological(keys: Seq<Option<ValidTime>>, order: Seq<usize>)
    requires
        sorted_by_valid_time(keys, order),
    ensures
        order.len() == keys.len(),
        forall|m: int| 0 <= m < keys.len() ==> #[trigger] order.contains(m as usize),
        forall|i: int, j: int| 0 <= i < j < order.len() ==> #[trigger] order[i] != #[trigger] order[j],
        forall|i: int, j: int|
            0 <= i < j < order.len() && #[trigger] keys[order[i] as int] == #[trigger] keys[order[j] as int]
                ==> order[i] < order[j],
        forall|i: int, j: int|
            0 <= i < j < order.len() ==> match (#[trigger] keys[order[i] as int], #[trigger] keys[order[j] as int]) {
                (Some(a), Some(b)) => a.secs < b.secs || (a.secs == b.secs && a.nanos <= b.nanos),
                (Some(_), None) => false,
                (None, _) => true,
            },
{
    assert forall|i: int, j: int| 0 <= i < j < order.len() implies match (#[trigger] keys[order[i] as int], #[trigger] keys[order[j] as int]) {
        (Some(a), Some(b)) => a.secs < b.secs || (a.secs == b.secs && a.nanos <= b.nanos),
        (Some(_), None) => false,
        (None, _) => true,
    } by {
        assert(opt_vt_le(keys[order[i] as int], keys[order[j] as int]));
    }
    assert forall|m: int| 0 <= m < keys.len() implies #[trigger] order.contains(m as usize) by {
        assert(lists(order, m));
        let q = choose|q: int| 0 <= q < order.len() && order[q] == m;
        assert(order[q] == m as usize);
    }
}

} // verus!
