use vstd::prelude::*;
use crate::api::{params_view, ParamModel, SqliteParam, Statement};
use crate::value::{str_eq, ColumnType};
use vstd::string::*;
use vstd::utf8::encode_utf8;

verus! {

/// Counts of catalog entries written and removed in one synchronisation pass.
#[derive(Debug, Clone, Copy, PartialEq, Eq, Structural, Default)]
pub struct ApplyStats {
    pub upserted: usize,
    pub deleted: usize,
}

impl ApplyStats {
    /// Whether the pass changed nothing.
    pub fn is_zero(&self) -> (r: bool)
        ensures
            r == (self.upserted == 0 && self.deleted == 0),
    {
        self.upserted == 0 && self.deleted == 0
    }
}

/// What one synchronisation pass does to one catalog entry: write the fresh
/// entry at `index` (of the fresh listing) with its hash, or delete the entry
/// with id `id`.
#[derive(Debug, Clone)]
pub enum SyncOp {
    Upsert { index: usize, hash: u64 },
    Delete { id: String },
}

/// Whether no two entries share an id.
pub open spec fn unique_ids(entries: Seq<(String, u64)>) -> bool {
    forall|a: int, b: int|
        0 <= a < entries.len() && 0 <= b < entries.len() && #[trigger] entries[a].0@
            == #[trigger] entries[b].0@ ==> a == b
}

/// Position of the entry with id `id`, if any.
pub open spec fn find_id(entries: Seq<(String, u64)>, id: Seq<char>) -> Option<int> {
    if exists|j: int| 0 <= j < entries.len() && #[trigger] entries[j].0@ == id {
        Some(choose|j: int| 0 <= j < entries.len() && #[trigger] entries[j].0@ == id)
    } else {
        None
    }
}

/// The operation for one entry known from the last pass: delete it when the
/// fresh listing lacks it; write it when its hash changed, or always when
/// hashes are not compared; else nothing.
pub open spec fn op_for_known(e: (String, u64), fresh: Seq<(String, u64)>, skip_hash_check: bool) -> Seq<SyncOp> {
    match find_id(fresh, e.0@) {
        None => seq![SyncOp::Delete { id: e.0 }],
        Some(j) => if skip_hash_check || e.1 != fresh[j].1 {
            seq![SyncOp::Upsert { index: j as usize, hash: fresh[j].1 }]
        } else {
            seq![]
        },
    }
}

/// The operations for the known entries, in their order.
pub open spec fn known_ops(known: Seq<(String, u64)>, fresh: Seq<(String, u64)>, skip_hash_check: bool) -> Seq<SyncOp>
    decreases known.len(),
{
    if known.len() == 0 {
        seq![]
    } else {
        known_ops(known.drop_last(), fresh, skip_hash_check) + op_for_known(
            known.last(),
            fresh,
            skip_hash_check,
        )
    }
}

/// A write for each fresh entry that was not known, in their order.
pub open spec fn new_ops(known: Seq<(String, u64)>, fresh: Seq<(String, u64)>) -> Seq<SyncOp>
    decreases fresh.len(),
{
    if fresh.len() == 0 {
        seq![]
    } else {
        new_ops(known, fresh.drop_last()) + if find_id(known, fresh.last().0@) is None {
            seq![SyncOp::Upsert { index: (fresh.len() - 1) as usize, hash: fresh.last().1 }]
        } else {
            seq![]
        }
    }
}

/// Finds the entry with the id `id`.
fn find_entry(entries: &Vec<(String, u64)>, id: &String) -> (r: Option<usize>)
    requires
        unique_ids(entries@),
    ensures
        r matches Some(j) ==> find_id(entries@, id@) == Some(j as int),
        r is None ==> find_id(entries@, id@) is None,
{
    let mut j: usize = 0;
    while j < entries.len()
        invariant
            0 <= j <= entries.len(),
            unique_ids(entries@),
            forall|k: int| 0 <= k < j ==> #[trigger] entries@[k].0@ != id@,
        decreases entries.len() - j,
    {
        if str_eq(entries[j].0.as_str(), id.as_str()) {
            assert(entries@[j as int].0@ == id@);
            proof {
                let c = choose|k: int| 0 <= k < entries@.len() && #[trigger] entries@[k].0@ == id@;
                assert(entries@[c].0@ == entries@[j as int].0@);
            }
            return Some(j);
        }
        j = j + 1;
    }
    None
}

/// Works out one synchronisation pass from the entries known from the last
/// pass and the fresh listing, each given as `(id, hash)` with unique ids.
pub fn plan_sync(
    known: &Vec<(String, u64)>,
    fresh: &Vec<(String, u64)>,
    skip_hash_check: bool,
) -> (ops: Vec<SyncOp>)
    requires
        unique_ids(known@),
        unique_ids(fresh@),
    ensures
        ops@ == known_ops(known@, fresh@, skip_hash_check) + new_ops(known@, fresh@),
{
    let mut ops: Vec<SyncOp> = Vec::new();
    let mut i: usize = 0;
    while i < known.len()
        invariant
            0 <= i <= known.len(),
            unique_ids(fresh@),
            ops@ == known_ops(known@.take(i as int), fresh@, skip_hash_check),
        decreases known.len() - i,
    {
        let ghost before = ops@;
        let entry = &known[i];
        match find_entry(fresh, &entry.0) {
            None => {
                ops.push(SyncOp::Delete { id: entry.0.clone() });
            },
            Some(j) => {
                if skip_hash_check || entry.1 != fresh[j].1 {
                    ops.push(SyncOp::Upsert { index: j, hash: fresh[j].1 });
                }
            },
        }
        assert(known@.take(i + 1).drop_last() =~= known@.take(i as int));
        assert(ops@ =~= before + op_for_known(known@[i as int], fresh@, skip_hash_check));
        i = i + 1;
    }
    assert(known@.take(known.len() as int) =~= known@);
    let ghost first = ops@;
    let mut j: usize = 0;
    while j < fresh.len()
        invariant
            0 <= j <= fresh.len(),
            unique_ids(known@),
            ops@ == first + new_ops(known@, fresh@.take(j as int)),
        decreases fresh.len() - j,
    {
        let ghost before = ops@;
        if find_entry(known, &fresh[j].0).is_none() {
            ops.push(SyncOp::Upsert { index: j, hash: fresh[j].1 });
        }
        assert(fresh@.take(j + 1).drop_last() =~= fresh@.take(j as int));
        j = j + 1;
        assert(ops@ =~= first + new_ops(known@, fresh@.take(j as int)));
    }
    assert(fresh@.take(fresh.len() as int) =~= fresh@);
    ops
}

/// Number of writes among some operations.
pub open spec fn count_upserts(ops: Seq<SyncOp>) -> nat
    decreases ops.len(),
{
    if ops.len() == 0 {
        0
    } else {
        count_upserts(ops.drop_last()) + if ops.last() is Upsert { 1nat } else { 0nat }
    }
}

/// Number of deletions among some operations.
pub open spec fn count_deletes(ops: Seq<SyncOp>) -> nat
    decreases ops.len(),
{
    if ops.len() == 0 {
        0
    } else {
        count_deletes(ops.drop_last()) + if ops.last() is Delete { 1nat } else { 0nat }
    }
}

proof fn lemma_counts_bounded(ops: Seq<SyncOp>)
    ensures
        count_upserts(ops) + count_deletes(ops) == ops.len(),
    decreases ops.len(),
{
    if ops.len() > 0 {
        lemma_counts_bounded(ops.drop_last());
    }
}

/// Counts the writes and deletions of a pass.
pub fn count_ops(ops: &Vec<SyncOp>) -> (r: ApplyStats)
    ensures
        r.upserted == count_upserts(ops@),
        r.deleted == count_deletes(ops@),
{
    let mut stats = ApplyStats { upserted: 0, deleted: 0 };
    let mut k: usize = 0;
    while k < ops.len()
        invariant
            0 <= k <= ops.len(),
            stats.upserted == count_upserts(ops@.take(k as int)),
            stats.deleted == count_deletes(ops@.take(k as int)),
        decreases ops.len() - k,
    {
        proof {
            assert(ops@.take(k + 1).drop_last() =~= ops@.take(k as int));
            lemma_counts_bounded(ops@.take(k as int));
        }
        match &ops[k] {
            SyncOp::Upsert { .. } => stats.upserted = stats.upserted + 1,
            SyncOp::Delete { .. } => stats.deleted = stats.deleted + 1,
        }
        k = k + 1;
    }
    assert(ops@.take(ops.len() as int) =~= ops@);
    stats
}


/// The content hashes that some entries record, by id.
pub open spec fn hashes_map(entries: Seq<(String, u64)>) -> Map<Seq<char>, u64> {
    Map::new(
        |id: Seq<char>| find_id(entries, id) is Some,
        |id: Seq<char>| entries[find_id(entries, id)->Some_0].1,
    )
}

/// The recorded hashes after one operation of a pass has been carried out.
pub open spec fn apply_op(m: Map<Seq<char>, u64>, fresh: Seq<(String, u64)>, op: SyncOp) -> Map<Seq<char>, u64> {
    match op {
        SyncOp::Upsert { index, hash } => m.insert(fresh[index as int].0@, hash),
        SyncOp::Delete { id } => m.remove(id@),
    }
}

/// The recorded hashes after some operations, in order.
pub open spec fn apply_ops(m: Map<Seq<char>, u64>, fresh: Seq<(String, u64)>, ops: Seq<SyncOp>) -> Map<Seq<char>, u64>
    decreases ops.len(),
{
    if ops.len() == 0 {
        m
    } else {
        apply_op(apply_ops(m, fresh, ops.drop_last()), fresh, ops.last())
    }
}

proof fn lemma_find_unique(entries: Seq<(String, u64)>, i: int)
    requires
        unique_ids(entries),
        0 <= i < entries.len(),
    ensures
        find_id(entries, entries[i].0@) == Some(i),
{
    let id = entries[i].0@;
    assert(entries[i].0@ == id);
    let c = choose|j: int| 0 <= j < entries.len() && #[trigger] entries[j].0@ == id;
    assert(entries[c].0@ == entries[i].0@);
}

proof fn lemma_find_none(entries: Seq<(String, u64)>, id: Seq<char>)
    requires
        forall|j: int| 0 <= j < entries.len() ==> #[trigger] entries[j].0@ != id,
    ensures
        find_id(entries, id) is None,
{
}

/// Removes the entry at `i`.
proof fn lemma_remove_entry(s: Seq<(String, u64)>, i: int)
    requires
        unique_ids(s),
        0 <= i < s.len(),
    ensures
        unique_ids(s.remove(i)),
        hashes_map(s.remove(i)) == hashes_map(s).remove(s[i].0@),
{
    let t = s.remove(i);
    assert forall|a: int, b: int|
        0 <= a < t.len() && 0 <= b < t.len() && #[trigger] t[a].0@ == #[trigger] t[b].0@ implies a == b by {
        let a2 = if a < i { a } else { a + 1 };
        let b2 = if b < i { b } else { b + 1 };
        assert(t[a] == s[a2]);
        assert(t[b] == s[b2]);
        assert(s[a2].0@ == s[b2].0@);
    }
    assert forall|id: Seq<char>| #[trigger] hashes_map(t).contains_key(id) == hashes_map(s).remove(s[i].0@).contains_key(id) by {
        if let Some(j) = find_id(t, id) {
            let j2 = if j < i { j } else { j + 1 };
            assert(t[j] == s[j2]);
            lemma_find_unique(s, j2);
            assert(j2 != i);
        } else {
            if let Some(j2) = find_id(s, id) {
                if j2 != i {
                    let j = if j2 < i { j2 } else { j2 - 1 };
                    assert(t[j] == s[j2]);
                    assert(t[j].0@ == id);
                }
            }
        }
    }
    assert forall|id: Seq<char>| #[trigger] hashes_map(t).contains_key(id) implies hashes_map(t)[id] == hashes_map(s)[id] by {
        let j = find_id(t, id)->Some_0;
        let j2 = if j < i { j } else { j + 1 };
        assert(t[j] == s[j2]);
        lemma_find_unique(s, j2);
        lemma_find_unique(t, j);
    }
    assert(hashes_map(t) =~= hashes_map(s).remove(s[i].0@));
}

/// Appends an entry whose id is not yet recorded.
proof fn lemma_push_entry(s: Seq<(String, u64)>, e: (String, u64))
    requires
        unique_ids(s),
        find_id(s, e.0@) is None,
    ensures
        unique_ids(s.push(e)),
        hashes_map(s.push(e)) == hashes_map(s).insert(e.0@, e.1),
{
    let t = s.push(e);
    assert forall|j: int| 0 <= j < s.len() implies #[trigger] s[j].0@ != e.0@ by {
        if s[j].0@ == e.0@ {
            assert(find_id(s, e.0@) is Some);
        }
    }
    assert forall|a: int, b: int|
        0 <= a < t.len() && 0 <= b < t.len() && #[trigger] t[a].0@ == #[trigger] t[b].0@ implies a == b by {
        if a < s.len() && b < s.len() {
            assert(t[a] == s[a] && t[b] == s[b]);
        } else if a < s.len() {
            assert(t[a] == s[a]);
        } else if b < s.len() {
            assert(t[b] == s[b]);
        }
    }
    lemma_find_unique(t, s.len() as int);
    assert forall|id: Seq<char>| #[trigger] hashes_map(t).contains_key(id) == hashes_map(s).insert(e.0@, e.1).contains_key(id) by {
        if let Some(j) = find_id(s, id) {
            assert(t[j] == s[j]);
            assert(t[j].0@ == id);
        }
        if let Some(j) = find_id(t, id) {
            if j < s.len() {
                assert(t[j] == s[j]);
                assert(s[j].0@ == id);
            }
        }
    }
    assert forall|id: Seq<char>| #[trigger] hashes_map(t).contains_key(id) implies hashes_map(t)[id] == hashes_map(s).insert(e.0@, e.1)[id] by {
        let j = find_id(t, id)->Some_0;
        lemma_find_unique(t, j);
        if j < s.len() {
            assert(t[j] == s[j]);
            lemma_find_unique(s, j);
        }
    }
    assert(hashes_map(t) =~= hashes_map(s).insert(e.0@, e.1));
}

/// Records `hash` for the entry `id`, replacing any earlier hash.
fn set_hash(known: &mut Vec<(String, u64)>, id: &String, hash: u64)
    requires
        unique_ids(old(known)@),
    ensures
        unique_ids(final(known)@),
        hashes_map(final(known)@) == hashes_map(old(known)@).insert(id@, hash),
{
    match find_entry(known, id) {
        Some(i) => {
            let ghost s = known@;
            known.remove(i);
            proof {
                lemma_remove_entry(s, i as int);
                assert forall|j: int| 0 <= j < known@.len() implies #[trigger] known@[j].0@ != id@ by {
                    let j2 = if j < i { j } else { j + 1 };
                    assert(known@[j] == s[j2]);
                    lemma_find_unique(s, j2);
                }
            }
            let ghost t = known@;
            let e = (id.clone(), hash);
            let ghost ge = e;
            known.push(e);
            proof {
                lemma_find_none(t, id@);
                lemma_push_entry(t, ge);
                assert(hashes_map(s).remove(id@).insert(id@, hash) =~= hashes_map(s).insert(id@, hash));
            }
        },
        None => {
            let ghost s = known@;
            let e = (id.clone(), hash);
            let ghost ge = e;
            known.push(e);
            proof {
                lemma_push_entry(s, ge);
            }
        },
    }
}

/// Forgets the entry `id`, if recorded.
fn drop_hash(known: &mut Vec<(String, u64)>, id: &String)
    requires
        unique_ids(old(known)@),
    ensures
        unique_ids(final(known)@),
        hashes_map(final(known)@) == hashes_map(old(known)@).remove(id@),
{
    match find_entry(known, id) {
        Some(i) => {
            let ghost s = known@;
            known.remove(i);
            proof {
                lemma_remove_entry(s, i as int);
            }
        },
        None => {
            assert(hashes_map(known@).remove(id@) =~= hashes_map(known@));
        },
    }
}

/// Records the outcome of a pass whose statements were carried out: the
/// written entries' new hashes, and no hash for the deleted ones.
pub fn record_pass(known: &mut Vec<(String, u64)>, fresh: &Vec<(String, u64)>, ops: &Vec<SyncOp>)
    requires
        unique_ids(old(known)@),
        forall|k: int|
            0 <= k < ops@.len() ==> (#[trigger] ops@[k] matches SyncOp::Upsert { index, .. }
                ==> index < fresh@.len()),
    ensures
        unique_ids(final(known)@),
        hashes_map(final(known)@) == apply_ops(hashes_map(old(known)@), fresh@, ops@),
{
    let ghost start = hashes_map(known@);
    let mut k: usize = 0;
    while k < ops.len()
        invariant
            0 <= k <= ops@.len(),
            forall|m: int|
                0 <= m < ops@.len() ==> (#[trigger] ops@[m] matches SyncOp::Upsert { index, .. }
                    ==> index < fresh@.len()),
            unique_ids(known@),
            hashes_map(known@) == apply_ops(start, fresh@, ops@.take(k as int)),
        decreases ops@.len() - k,
    {
        match &ops[k] {
            SyncOp::Upsert { index, hash } => set_hash(known, &fresh[*index].0, *hash),
            SyncOp::Delete { id } => drop_hash(known, id),
        }
        assert(ops@.take(k + 1).drop_last() =~= ops@.take(k as int));
        k = k + 1;
    }
    assert(ops@.take(ops@.len() as int) =~= ops@);
}

proof fn lemma_known_ops_stable(f: Seq<(String, u64)>, k: int)
    requires
        unique_ids(f),
        0 <= k <= f.len(),
    ensures
        known_ops(f.take(k), f, false) == Seq::<SyncOp>::empty(),
    decreases k,
{
    if k > 0 {
        assert(f.take(k).drop_last() =~= f.take(k - 1));
        lemma_known_ops_stable(f, k - 1);
        lemma_find_unique(f, k - 1);
        assert(f.take(k).last() == f[k - 1]);
        assert(op_for_known(f[k - 1], f, false) =~= Seq::<SyncOp>::empty());
        assert(known_ops(f.take(k), f, false) =~= Seq::<SyncOp>::empty());
    }
}

proof fn lemma_new_ops_stable(f: Seq<(String, u64)>, k: int)
    requires
        unique_ids(f),
        0 <= k <= f.len(),
    ensures
        new_ops(f, f.take(k)) == Seq::<SyncOp>::empty(),
    decreases k,
{
    if k > 0 {
        assert(f.take(k).drop_last() =~= f.take(k - 1));
        lemma_new_ops_stable(f, k - 1);
        lemma_find_unique(f, k - 1);
        assert(f.take(k).last() == f[k - 1]);
        assert(new_ops(f, f.take(k)) =~= Seq::<SyncOp>::empty());
    }
}

/// A pass over a listing that matches what is recorded plans nothing, unless
/// hashes are not compared.
pub proof fn lemma_unchanged_listing_plans_nothing(fresh: Seq<(String, u64)>)
    requires
        unique_ids(fresh),
    ensures
        known_ops(fresh, fresh, false) + new_ops(fresh, fresh) == Seq::<SyncOp>::empty(),
{
    lemma_known_ops_stable(fresh, fresh.len() as int);
    lemma_new_ops_stable(fresh, fresh.len() as int);
    assert(fresh.take(fresh.len() as int) =~= fresh);
    assert(Seq::<SyncOp>::empty() + Seq::<SyncOp>::empty() =~= Seq::<SyncOp>::empty());
}

proof fn lemma_apply_concat(m: Map<Seq<char>, u64>, f: Seq<(String, u64)>, a: Seq<SyncOp>, b: Seq<SyncOp>)
    ensures
        apply_ops(m, f, a + b) == apply_ops(apply_ops(m, f, a), f, b),
    decreases b.len(),
{
    if b.len() == 0 {
        assert(a + b =~= a);
    } else {
        assert((a + b).drop_last() =~= a + b.drop_last());
        lemma_apply_concat(m, f, a, b.drop_last());
    }
}

/// Whether one of the first `k` entries has the id `id`.
pub open spec fn in_prefix(s: Seq<(String, u64)>, k: int, id: Seq<char>) -> bool {
    exists|i: int| 0 <= i < k && #[trigger] s[i].0@ == id
}

/// The recorded hashes after the operations for the first `k` known entries.
spec fn after_known(known: Seq<(String, u64)>, fresh: Seq<(String, u64)>, k: int) -> Map<Seq<char>, u64> {
    Map::new(
        |id: Seq<char>|
            if in_prefix(known, k, id) {
                find_id(fresh, id) is Some
            } else {
                find_id(known, id) is Some
            },
        |id: Seq<char>|
            if in_prefix(known, k, id) {
                fresh[find_id(fresh, id)->Some_0].1
            } else {
                known[find_id(known, id)->Some_0].1
            },
    )
}

/// The recorded hashes after all known entries and the first `k` fresh ones.
spec fn after_new(known: Seq<(String, u64)>, fresh: Seq<(String, u64)>, k: int) -> Map<Seq<char>, u64> {
    Map::new(
        |id: Seq<char>| find_id(fresh, id) is Some && (find_id(known, id) is Some || in_prefix(fresh, k, id)),
        |id: Seq<char>| fresh[find_id(fresh, id)->Some_0].1,
    )
}

proof fn lemma_known_pass(known: Seq<(String, u64)>, fresh: Seq<(String, u64)>, skip: bool, k: int)
    requires
        unique_ids(known),
        unique_ids(fresh),
        fresh.len() <= usize::MAX,
        0 <= k <= known.len(),
    ensures
        apply_ops(hashes_map(known), fresh, known_ops(known.take(k), fresh, skip)) == after_known(known, fresh, k),
    decreases k,
{
    if k == 0 {
        assert(known_ops(known.take(0), fresh, skip) =~= Seq::<SyncOp>::empty());
        assert(after_known(known, fresh, 0) =~= hashes_map(known));
    } else {
        lemma_known_pass(known, fresh, skip, k - 1);
        let e = known[k - 1];
        let id0 = e.0@;
        assert(known.take(k).drop_last() =~= known.take(k - 1));
        assert(known.take(k).last() == e);
        let prev = known_ops(known.take(k - 1), fresh, skip);
        lemma_apply_concat(hashes_map(known), fresh, prev, op_for_known(e, fresh, skip));
        let m = after_known(known, fresh, k - 1);
        let m2 = after_known(known, fresh, k);
        lemma_find_unique(known, k - 1);
        assert(!in_prefix(known, k - 1, id0)) by {
            if in_prefix(known, k - 1, id0) {
                let i = choose|i: int| 0 <= i < k - 1 && #[trigger] known[i].0@ == id0;
                assert(known[i].0@ == known[k - 1].0@);
            }
        }
        assert(in_prefix(known, k, id0)) by {
            assert(known[k - 1].0@ == id0);
        }
        assert forall|id: Seq<char>| id != id0 implies (in_prefix(known, k, id) == in_prefix(known, k - 1, id)) by {
            if in_prefix(known, k, id) {
                let i = choose|i: int| 0 <= i < k && #[trigger] known[i].0@ == id;
                assert(i != k - 1);
            }
        }
        let ops1 = op_for_known(e, fresh, skip);
        let after = apply_ops(m, fresh, ops1);
        assert(ops1.len() <= 1);
        if ops1.len() == 1 {
            assert(ops1.drop_last() =~= Seq::<SyncOp>::empty());
            assert(apply_ops(m, fresh, ops1.drop_last()) == m);
            assert(after == apply_op(m, fresh, ops1[0]));
        } else {
            assert(ops1 =~= Seq::<SyncOp>::empty());
        }
        match find_id(fresh, id0) {
            None => {
                assert(after == m.remove(id0));
            },
            Some(j) => {
                if skip || e.1 != fresh[j].1 {
                    assert(after == m.insert(id0, fresh[j].1));
                } else {
                    assert(after == m);
                }
            },
        }
        assert(after =~= m2);
    }
}

proof fn lemma_new_pass(known: Seq<(String, u64)>, fresh: Seq<(String, u64)>, k: int)
    requires
        unique_ids(known),
        unique_ids(fresh),
        fresh.len() <= usize::MAX,
        0 <= k <= fresh.len(),
    ensures
        apply_ops(after_known(known, fresh, known.len() as int), fresh, new_ops(known, fresh.take(k)))
            == after_new(known, fresh, k),
    decreases k,
{
    let start = after_known(known, fresh, known.len() as int);
    if k == 0 {
        assert(new_ops(known, fresh.take(0)) =~= Seq::<SyncOp>::empty());
        assert forall|id: Seq<char>| in_prefix(known, known.len() as int, id) == (find_id(known, id) is Some) by {
            if in_prefix(known, known.len() as int, id) {
                let i = choose|i: int| 0 <= i < known.len() && #[trigger] known[i].0@ == id;
                assert(known[i].0@ == id);
            }
        }
        assert(start =~= after_new(known, fresh, 0));
    } else {
        lemma_new_pass(known, fresh, k - 1);
        let f = fresh[k - 1];
        let id0 = f.0@;
        assert(fresh.take(k).drop_last() =~= fresh.take(k - 1));
        assert(fresh.take(k).last() == f);
        lemma_find_unique(fresh, k - 1);
        let tail_ops: Seq<SyncOp> = if find_id(known, id0) is None {
            seq![SyncOp::Upsert { index: (k - 1) as usize, hash: f.1 }]
        } else {
            seq![]
        };
        assert(new_ops(known, fresh.take(k)) == new_ops(known, fresh.take(k - 1)) + tail_ops);
        lemma_apply_concat(start, fresh, new_ops(known, fresh.take(k - 1)), tail_ops);
        let m = after_new(known, fresh, k - 1);
        assert(in_prefix(fresh, k, id0)) by {
            assert(fresh[k - 1].0@ == id0);
        }
        assert forall|id: Seq<char>| id != id0 implies (in_prefix(fresh, k, id) == in_prefix(fresh, k - 1, id)) by {
            if in_prefix(fresh, k, id) {
                let i = choose|i: int| 0 <= i < k && #[trigger] fresh[i].0@ == id;
                assert(i != k - 1);
            }
        }
        if find_id(known, id0) is None {
            assert(tail_ops.drop_last() =~= Seq::<SyncOp>::empty());
            assert(apply_ops(m, fresh, tail_ops.drop_last()) == m);
            assert(apply_ops(m, fresh, tail_ops) == apply_op(m, fresh, tail_ops[0]));
            assert(apply_ops(m, fresh, tail_ops) == m.insert(id0, f.1));
        } else {
            assert(apply_ops(m, fresh, tail_ops) == m);
        }
        assert(apply_ops(m, fresh, tail_ops) =~= after_new(known, fresh, k));
    }
}

/// Carrying out a planned pass and recording it leaves exactly the fresh
/// listing's hashes recorded, whether or not hashes were compared.
pub proof fn lemma_pass_records_listing(known: Seq<(String, u64)>, fresh: Seq<(String, u64)>, skip: bool)
    requires
        unique_ids(known),
        unique_ids(fresh),
        fresh.len() <= usize::MAX,
    ensures
        apply_ops(hashes_map(known), fresh, known_ops(known, fresh, skip) + new_ops(known, fresh))
            == hashes_map(fresh),
{
    assert(known.take(known.len() as int) =~= known);
    assert(fresh.take(fresh.len() as int) =~= fresh);
    lemma_known_pass(known, fresh, skip, known.len() as int);
    lemma_new_pass(known, fresh, fresh.len() as int);
    lemma_apply_concat(hashes_map(known), fresh, known_ops(known, fresh, skip), new_ops(known, fresh));
    assert forall|id: Seq<char>| in_prefix(fresh, fresh.len() as int, id) == (find_id(fresh, id) is Some) by {
        if in_prefix(fresh, fresh.len() as int, id) {
            let i = choose|i: int| 0 <= i < fresh.len() && #[trigger] fresh[i].0@ == id;
            assert(fresh[i].0@ == id);
        }
    }
    assert(after_new(known, fresh, fresh.len() as int) =~= hashes_map(fresh));
}

/// Upserts a service's content hash into the synchroniser's own table.
pub const SERVICE_HASH_UPSERT: &'static str = "INSERT INTO __corro_consul_services ( id, hash )
    VALUES (?, ?)
    ON CONFLICT (id) DO UPDATE SET
        hash = excluded.hash;";

/// Upserts a service row.
pub const SERVICE_UPSERT: &'static str = "INSERT INTO consul_services ( node, id, name, tags, meta, port, address, updated_at )
    VALUES (?,?,?,?,?,?,?,?)
    ON CONFLICT(node, id) DO UPDATE SET
        name = excluded.name,
        tags = excluded.tags,
        meta = excluded.meta,
        port = excluded.port,
        address = excluded.address,
        updated_at = excluded.updated_at;";

/// Deletes a service's content hash.
pub const SERVICE_HASH_DELETE: &'static str = "DELETE FROM __corro_consul_services WHERE id = ?;";

/// Deletes a service row.
pub const SERVICE_DELETE: &'static str = "DELETE FROM consul_services WHERE node = ? AND id = ?;";

/// A catalog service as the synchroniser stores it; tags and metadata are
/// JSON text.
#[derive(Debug, Clone)]
pub struct ServiceRow {
    pub id: String,
    pub name: String,
    pub tags: String,
    pub meta: String,
    pub port: u16,
    pub address: String,
}

/// The 8 bytes of a number, most significant first.
pub open spec fn be_bytes(x: u64) -> Seq<u8> {
    seq![
        ((x >> 56) & 0xff) as u8,
        ((x >> 48) & 0xff) as u8,
        ((x >> 40) & 0xff) as u8,
        ((x >> 32) & 0xff) as u8,
        ((x >> 24) & 0xff) as u8,
        ((x >> 16) & 0xff) as u8,
        ((x >> 8) & 0xff) as u8,
        (x & 0xff) as u8,
    ]
}

fn byte_of(x: u64) -> (r: u8)
    ensures
        r == (x & 0xff) as u8,
{
    assert(x & 0xff <= 0xff) by (bit_vector);
    (x & 0xff) as u8
}

/// The 8 bytes of a hash, most significant first, as the stored blob.
fn hash_blob(x: u64) -> (r: Vec<u8>)
    ensures
        r@ == be_bytes(x),
{
    let mut v: Vec<u8> = Vec::new();
    v.push(byte_of(x >> 56));
    v.push(byte_of(x >> 48));
    v.push(byte_of(x >> 40));
    v.push(byte_of(x >> 32));
    v.push(byte_of(x >> 24));
    v.push(byte_of(x >> 16));
    v.push(byte_of(x >> 8));
    v.push(byte_of(x));
    assert(v@ =~= be_bytes(x));
    v
}

/// Whether `s` is a statement with query `q` and parameters `ps`.
pub open spec fn is_statement(s: Statement, q: Seq<char>, ps: Seq<ParamModel>) -> bool {
    s matches Statement::WithParams(query, params) && query@ == q && params_view(params@) == ps
}

/// The two statements that write a service: its hash, then its row.
pub open spec fn service_upsert_ok(
    a: Statement,
    b: Statement,
    node: Seq<char>,
    svc: ServiceRow,
    hash: u64,
    updated_at: i64,
) -> bool {
    &&& is_statement(
        a,
        SERVICE_HASH_UPSERT@,
        seq![ParamModel::Text(svc.id@), ParamModel::Blob(be_bytes(hash))],
    )
    &&& is_statement(
        b,
        SERVICE_UPSERT@,
        seq![
            ParamModel::Text(node),
            ParamModel::Text(svc.id@),
            ParamModel::Text(svc.name@),
            ParamModel::Text(svc.tags@),
            ParamModel::Text(svc.meta@),
            ParamModel::Integer(svc.port as i64),
            ParamModel::Text(svc.address@),
            ParamModel::Integer(updated_at),
        ],
    )
}

/// The two statements that remove a service: its hash, then its row.
pub open spec fn service_delete_ok(a: Statement, b: Statement, node: Seq<char>, id: Seq<char>) -> bool {
    &&& is_statement(a, SERVICE_HASH_DELETE@, seq![ParamModel::Text(id)])
    &&& is_statement(b, SERVICE_DELETE@, seq![ParamModel::Text(node), ParamModel::Text(id)])
}

fn text(s: &str) -> (r: SqliteParam)
    ensures
        r@ == ParamModel::Text(s@),
{
    SqliteParam::Text(String::from_str(s))
}

/// Appends the statements that write a service and its hash.
pub fn append_upsert_service_statements(
    statements: &mut Vec<Statement>,
    node: &str,
    svc: &ServiceRow,
    hash: u64,
    updated_at: i64,
)
    ensures
        final(statements)@.len() == old(statements)@.len() + 2,
        final(statements)@.take(old(statements)@.len() as int) == old(statements)@,
        service_upsert_ok(
            final(statements)@[old(statements)@.len() as int],
            final(statements)@[old(statements)@.len() + 1int],
            node@,
            *svc,
            hash,
            updated_at,
        ),
{
    let ghost pre = statements@;
    let first = vec![text(svc.id.as_str()), SqliteParam::Blob(hash_blob(hash))];
    assert(params_view(first@) =~= seq![ParamModel::Text(svc.id@), ParamModel::Blob(be_bytes(hash))]);
    statements.push(Statement::WithParams(String::from_str(SERVICE_HASH_UPSERT), first));
    let second = vec![
        text(node),
        text(svc.id.as_str()),
        text(svc.name.as_str()),
        text(svc.tags.as_str()),
        text(svc.meta.as_str()),
        SqliteParam::Integer(svc.port as i64),
        text(svc.address.as_str()),
        SqliteParam::Integer(updated_at),
    ];
    assert(params_view(second@) =~= seq![
        ParamModel::Text(node@),
        ParamModel::Text(svc.id@),
        ParamModel::Text(svc.name@),
        ParamModel::Text(svc.tags@),
        ParamModel::Text(svc.meta@),
        ParamModel::Integer(svc.port as i64),
        ParamModel::Text(svc.address@),
        ParamModel::Integer(updated_at),
    ]);
    statements.push(Statement::WithParams(String::from_str(SERVICE_UPSERT), second));
    assert(statements@.take(pre.len() as int) =~= pre);
}

/// Appends the statements that remove a service and its hash.
pub fn append_delete_service_statements(statements: &mut Vec<Statement>, node: &str, id: &str)
    ensures
        final(statements)@.len() == old(statements)@.len() + 2,
        final(statements)@.take(old(statements)@.len() as int) == old(statements)@,
        service_delete_ok(
            final(statements)@[old(statements)@.len() as int],
            final(statements)@[old(statements)@.len() + 1int],
            node@,
            id@,
        ),
{
    let ghost pre = statements@;
    let first = vec![text(id)];
    assert(params_view(first@) =~= seq![ParamModel::Text(id@)]);
    statements.push(Statement::WithParams(String::from_str(SERVICE_HASH_DELETE), first));
    let second = vec![text(node), text(id)];
    assert(params_view(second@) =~= seq![ParamModel::Text(node@), ParamModel::Text(id@)]);
    statements.push(Statement::WithParams(String::from_str(SERVICE_DELETE), second));
    assert(statements@.take(pre.len() as int) =~= pre);
}


/// Whether the two statements at `at` in `st` carry out `op` on services.
pub open spec fn service_op_ok(
    st: Seq<Statement>,
    at: int,
    op: SyncOp,
    node: Seq<char>,
    services: Seq<ServiceRow>,
    updated_at: i64,
) -> bool {
    match op {
        SyncOp::Upsert { index, hash } => service_upsert_ok(
            st[at],
            st[at + 1],
            node,
            services[index as int],
            hash,
            updated_at,
        ),
        SyncOp::Delete { id } => service_delete_ok(st[at], st[at + 1], node, id@),
    }
}

/// Appends, for each operation in order, the two statements that carry it
/// out on the services table and the hash table.
pub fn append_service_ops(
    statements: &mut Vec<Statement>,
    node: &str,
    services: &Vec<ServiceRow>,
    ops: &Vec<SyncOp>,
    updated_at: i64,
)
    requires
        forall|k: int|
            0 <= k < ops@.len() ==> (#[trigger] ops@[k] matches SyncOp::Upsert { index, .. }
                ==> index < services@.len()),
        old(statements)@.len() + 2 * ops@.len() <= usize::MAX,
    ensures
        final(statements)@.len() == old(statements)@.len() + 2 * ops@.len(),
        final(statements)@.take(old(statements)@.len() as int) == old(statements)@,
        forall|k: int|
            0 <= k < ops@.len() ==> service_op_ok(
                final(statements)@,
                old(statements)@.len() + 2 * k,
                #[trigger] ops@[k],
                node@,
                services@,
                updated_at,
            ),
{
    let ghost pre = statements@;
    let mut k: usize = 0;
    while k < ops.len()
        invariant
            0 <= k <= ops@.len(),
            forall|m: int|
                0 <= m < ops@.len() ==> (#[trigger] ops@[m] matches SyncOp::Upsert { index, .. }
                    ==> index < services@.len()),
            statements@.len() == pre.len() + 2 * k,
            statements@.take(pre.len() as int) == pre,
            forall|m: int|
                0 <= m < k ==> service_op_ok(
                    statements@,
                    pre.len() + 2 * m,
                    #[trigger] ops@[m],
                    node@,
                    services@,
                    updated_at,
                ),
        decreases ops@.len() - k,
    {
        let ghost before = statements@;
        match &ops[k] {
            SyncOp::Upsert { index, hash } => {
                append_upsert_service_statements(statements, node, &services[*index], *hash, updated_at);
            },
            SyncOp::Delete { id } => {
                append_delete_service_statements(statements, node, id.as_str());
            },
        }
        assert forall|m: int| 0 <= m < k implies service_op_ok(
            statements@,
            pre.len() + 2 * m,
            #[trigger] ops@[m],
            node@,
            services@,
            updated_at,
        ) by {
            assert(statements@[pre.len() + 2 * m] == statements@.take(before.len() as int)[pre.len() + 2 * m]);
            assert(statements@[pre.len() + 2 * m + 1] == statements@.take(before.len() as int)[pre.len() + 2 * m + 1]);
        }
        assert(statements@.take(pre.len() as int) =~= pre) by {
            assert(statements@.take(pre.len() as int) =~= statements@.take(before.len() as int).take(pre.len() as int));
        }
        k = k + 1;
    }
}

/// Upserts a check's content hash into the synchroniser's own table.
pub const CHECK_HASH_UPSERT: &'static str = "INSERT INTO __corro_consul_checks ( id, hash )
    VALUES (?, ?)
    ON CONFLICT (id) DO UPDATE SET
        hash = excluded.hash;";

/// Upserts a check row.
pub const CHECK_UPSERT: &'static str = "INSERT INTO consul_checks ( node, id, service_id, service_name, name, status, output, updated_at )
    VALUES (?,?,?,?,?,?,?,?)
    ON CONFLICT(node, id) DO UPDATE SET
        service_id = excluded.service_id,
        service_name = excluded.service_name,
        name = excluded.name,
        status = excluded.status,
        output = excluded.output,
        updated_at = excluded.updated_at;";

/// Deletes a check's content hash.
pub const CHECK_HASH_DELETE: &'static str = "DELETE FROM __corro_consul_checks WHERE id = ?;";

/// Deletes a check row.
pub const CHECK_DELETE: &'static str = "DELETE FROM consul_checks WHERE node = ? AND id = ?;";

/// A catalog health check as the synchroniser stores it.
#[derive(Debug, Clone)]
pub struct CheckRow {
    pub id: String,
    pub service_id: String,
    pub service_name: String,
    pub name: String,
    pub status: String,
    pub output: String,
}

/// The two statements that write a check: its hash, then its row.
pub open spec fn check_upsert_ok(
    a: Statement,
    b: Statement,
    node: Seq<char>,
    check: CheckRow,
    hash: u64,
    updated_at: i64,
) -> bool {
    &&& is_statement(
        a,
        CHECK_HASH_UPSERT@,
        seq![ParamModel::Text(check.id@), ParamModel::Blob(be_bytes(hash))],
    )
    &&& is_statement(
        b,
        CHECK_UPSERT@,
        seq![
            ParamModel::Text(node),
            ParamModel::Text(check.id@),
            ParamModel::Text(check.service_id@),
            ParamModel::Text(check.service_name@),
            ParamModel::Text(check.name@),
            ParamModel::Text(check.status@),
            ParamModel::Text(check.output@),
            ParamModel::Integer(updated_at),
        ],
    )
}

/// The two statements that remove a check: its hash, then its row.
pub open spec fn check_delete_ok(a: Statement, b: Statement, node: Seq<char>, id: Seq<char>) -> bool {
    &&& is_statement(a, CHECK_HASH_DELETE@, seq![ParamModel::Text(id)])
    &&& is_statement(b, CHECK_DELETE@, seq![ParamModel::Text(node), ParamModel::Text(id)])
}

/// Appends the statements that write a check and its hash.
pub fn append_upsert_check_statements(
    statements: &mut Vec<Statement>,
    node: &str,
    check: &CheckRow,
    hash: u64,
    updated_at: i64,
)
    ensures
        final(statements)@.len() == old(statements)@.len() + 2,
        final(statements)@.take(old(statements)@.len() as int) == old(statements)@,
        check_upsert_ok(
            final(statements)@[old(statements)@.len() as int],
            final(statements)@[old(statements)@.len() + 1int],
            node@,
            *check,
            hash,
            updated_at,
        ),
{
    let ghost pre = statements@;
    let first = vec![text(check.id.as_str()), SqliteParam::Blob(hash_blob(hash))];
    assert(params_view(first@) =~= seq![ParamModel::Text(check.id@), ParamModel::Blob(be_bytes(hash))]);
    statements.push(Statement::WithParams(String::from_str(CHECK_HASH_UPSERT), first));
    let second = vec![
        text(node),
        text(check.id.as_str()),
        text(check.service_id.as_str()),
        text(check.service_name.as_str()),
        text(check.name.as_str()),
        text(check.status.as_str()),
        text(check.output.as_str()),
        SqliteParam::Integer(updated_at),
    ];
    assert(params_view(second@) =~= seq![
        ParamModel::Text(node@),
        ParamModel::Text(check.id@),
        ParamModel::Text(check.service_id@),
        ParamModel::Text(check.service_name@),
        ParamModel::Text(check.name@),
        ParamModel::Text(check.status@),
        ParamModel::Text(check.output@),
        ParamModel::Integer(updated_at),
    ]);
    statements.push(Statement::WithParams(String::from_str(CHECK_UPSERT), second));
    assert(statements@.take(pre.len() as int) =~= pre);
}

/// Appends the statements that remove a check and its hash.
pub fn append_delete_check_statements(statements: &mut Vec<Statement>, node: &str, id: &str)
    ensures
        final(statements)@.len() == old(statements)@.len() + 2,
        final(statements)@.take(old(statements)@.len() as int) == old(statements)@,
        check_delete_ok(
            final(statements)@[old(statements)@.len() as int],
            final(statements)@[old(statements)@.len() + 1int],
            node@,
            id@,
        ),
{
    let ghost pre = statements@;
    let first = vec![text(id)];
    assert(params_view(first@) =~= seq![ParamModel::Text(id@)]);
    statements.push(Statement::WithParams(String::from_str(CHECK_HASH_DELETE), first));
    let second = vec![text(node), text(id)];
    assert(params_view(second@) =~= seq![ParamModel::Text(node@), ParamModel::Text(id@)]);
    statements.push(Statement::WithParams(String::from_str(CHECK_DELETE), second));
    assert(statements@.take(pre.len() as int) =~= pre);
}


/// Whether the two statements at `at` in `st` carry out `op` on checks.
pub open spec fn check_op_ok(
    st: Seq<Statement>,
    at: int,
    op: SyncOp,
    node: Seq<char>,
    checks: Seq<CheckRow>,
    updated_at: i64,
) -> bool {
    match op {
        SyncOp::Upsert { index, hash } => check_upsert_ok(
            st[at],
            st[at + 1],
            node,
            checks[index as int],
            hash,
            updated_at,
        ),
        SyncOp::Delete { id } => check_delete_ok(st[at], st[at + 1], node, id@),
    }
}

/// Appends, for each operation in order, the two statements that carry it
/// out on the checks table and the hash table.
pub fn append_check_ops(
    statements: &mut Vec<Statement>,
    node: &str,
    checks: &Vec<CheckRow>,
    ops: &Vec<SyncOp>,
    updated_at: i64,
)
    requires
        forall|k: int|
            0 <= k < ops@.len() ==> (#[trigger] ops@[k] matches SyncOp::Upsert { index, .. }
                ==> index < checks@.len()),
        old(statements)@.len() + 2 * ops@.len() <= usize::MAX,
    ensures
        final(statements)@.len() == old(statements)@.len() + 2 * ops@.len(),
        final(statements)@.take(old(statements)@.len() as int) == old(statements)@,
        forall|k: int|
            0 <= k < ops@.len() ==> check_op_ok(
                final(statements)@,
                old(statements)@.len() + 2 * k,
                #[trigger] ops@[k],
                node@,
                checks@,
                updated_at,
            ),
{
    let ghost pre = statements@;
    let mut k: usize = 0;
    while k < ops.len()
        invariant
            0 <= k <= ops@.len(),
            forall|m: int|
                0 <= m < ops@.len() ==> (#[trigger] ops@[m] matches SyncOp::Upsert { index, .. }
                    ==> index < checks@.len()),
            statements@.len() == pre.len() + 2 * k,
            statements@.take(pre.len() as int) == pre,
            forall|m: int|
                0 <= m < k ==> check_op_ok(
                    statements@,
                    pre.len() + 2 * m,
                    #[trigger] ops@[m],
                    node@,
                    checks@,
                    updated_at,
                ),
        decreases ops@.len() - k,
    {
        let ghost before = statements@;
        match &ops[k] {
            SyncOp::Upsert { index, hash } => {
                append_upsert_check_statements(statements, node, &checks[*index], *hash, updated_at);
            },
            SyncOp::Delete { id } => {
                append_delete_check_statements(statements, node, id.as_str());
            },
        }
        assert forall|m: int| 0 <= m < k implies check_op_ok(
            statements@,
            pre.len() + 2 * m,
            #[trigger] ops@[m],
            node@,
            checks@,
            updated_at,
        ) by {
            assert(statements@[pre.len() + 2 * m] == statements@.take(before.len() as int)[pre.len() + 2 * m]);
            assert(statements@[pre.len() + 2 * m + 1] == statements@.take(before.len() as int)[pre.len() + 2 * m + 1]);
        }
        assert(statements@.take(pre.len() as int) =~= pre) by {
            assert(statements@.take(pre.len() as int) =~= statements@.take(before.len() as int).take(pre.len() as int));
        }
        k = k + 1;
    }
}


/// A field of a check that its notes may ask to be part of its hash.
#[derive(Debug, Clone, Copy, PartialEq, Eq, Structural)]
pub enum CheckField {
    Status,
    Output,
}

/// What SeaHash gives for a sequence of writes, each part written in order.
pub uninterp spec fn sea_hash_of(parts: Seq<Seq<u8>>) -> u64;

/// The contents of some byte slices, in order.
pub open spec fn byte_views(ps: Seq<&[u8]>) -> Seq<Seq<u8>>
    decreases ps.len(),
{
    if ps.len() == 0 {
        seq![]
    } else {
        byte_views(ps.drop_last()).push(ps.last()@)
    }
}

/// Relies on seahash::SeaHasher: a fresh hasher, one `write` per part in
/// order, then `finish`. The result depends on the written bytes alone.
#[verifier::external_body]
fn sea_hash(parts: &Vec<&[u8]>) -> (r: u64)
    ensures
        r == sea_hash_of(byte_views(parts@)),
{
    let mut hasher = seahash::SeaHasher::new();
    for part in parts.iter() {
        std::hash::Hasher::write(&mut hasher, part);
    }
    std::hash::Hasher::finish(&hasher)
}

/// The bytes of one field of a check.
pub open spec fn check_field_bytes(check: CheckRow, f: CheckField) -> Seq<u8> {
    match f {
        CheckField::Status => encode_utf8(check.status@),
        CheckField::Output => encode_utf8(check.output@),
    }
}

/// The bytes of the listed fields of a check, in the order listed.
pub open spec fn field_parts(check: CheckRow, fields: Seq<CheckField>) -> Seq<Seq<u8>>
    decreases fields.len(),
{
    if fields.len() == 0 {
        seq![]
    } else {
        field_parts(check, fields.drop_last()).push(check_field_bytes(check, fields.last()))
    }
}

/// What goes into a check's hash, in order: its service name and service id,
/// then the fields its notes list, or its status when the notes list none.
pub open spec fn check_hash_parts(check: CheckRow, listed: Option<Seq<CheckField>>) -> Seq<Seq<u8>> {
    let head = seq![encode_utf8(check.service_name@), encode_utf8(check.service_id@)];
    match listed {
        None => head.push(encode_utf8(check.status@)),
        Some(fields) => head + field_parts(check, fields),
    }
}

/// Hashes a check's content as the notes' field list (if any) directs.
pub fn hash_check(check: &CheckRow, listed: Option<&Vec<CheckField>>) -> (r: u64)
    ensures
        r == sea_hash_of(
            check_hash_parts(
                *check,
                match listed {
                    Some(v) => Some(v@),
                    None => None,
                },
            ),
        ),
{
    let ghost head = seq![encode_utf8(check.service_name@), encode_utf8(check.service_id@)];
    let mut parts: Vec<&[u8]> = Vec::new();
    parts.push(check.service_name.as_str().as_bytes());
    parts.push(check.service_id.as_str().as_bytes());
    proof {
        let p = parts@;
        assert(p.drop_last().drop_last() =~= Seq::<&[u8]>::empty());
        assert(p.drop_last().last() == p[0]);
        assert(byte_views(p.drop_last().drop_last()) =~= Seq::<Seq<u8>>::empty());
        assert(byte_views(p.drop_last()) =~= seq![p[0]@]);
        assert(byte_views(p) =~= seq![p[0]@, p[1]@]);
        assert(byte_views(p) =~= head);
    }
    match listed {
        None => {
            let ghost before = parts@;
            parts.push(check.status.as_str().as_bytes());
            assert(parts@.drop_last() =~= before);
        },
        Some(fields) => {
            let mut k: usize = 0;
            while k < fields.len()
                invariant
                    0 <= k <= fields@.len(),
                    head == seq![encode_utf8(check.service_name@), encode_utf8(check.service_id@)],
                    byte_views(parts@) == head + field_parts(*check, fields@.take(k as int)),
                decreases fields@.len() - k,
            {
                let ghost before = parts@;
                match fields[k] {
                    CheckField::Status => parts.push(check.status.as_str().as_bytes()),
                    CheckField::Output => parts.push(check.output.as_str().as_bytes()),
                }
                k = k + 1;
                assert(parts@.drop_last() =~= before);
                assert(fields@.take(k as int).drop_last() =~= fields@.take(k - 1));
                assert(byte_views(parts@) =~= head + field_parts(*check, fields@.take(k as int)));
            }
            assert(fields@.take(fields@.len() as int) =~= fields@);
        },
    }
    sea_hash(&parts)
}


/// A column that a table must have, with the types it may be declared with.
#[derive(Debug, Clone)]
pub struct ExpectedColumn {
    pub name: String,
    pub types: Vec<ColumnType>,
}

/// Whether some described column has the expected name and one of its types.
pub open spec fn column_present(actual: Seq<(String, ColumnType)>, expected: ExpectedColumn) -> bool {
    exists|i: int|
        0 <= i < actual.len() && #[trigger] actual[i].0@ == expected.name@ && expected.types@.contains(
            actual[i].1,
        )
}

fn type_allowed(types: &Vec<ColumnType>, t: ColumnType) -> (r: bool)
    ensures
        r == types@.contains(t),
{
    let mut k: usize = 0;
    while k < types.len()
        invariant
            0 <= k <= types@.len(),
            forall|m: int| 0 <= m < k ==> types@[m] != t,
        decreases types@.len() - k,
    {
        if types[k] == t {
            assert(types@[k as int] == t);
            return true;
        }
        k = k + 1;
    }
    false
}

/// The first expected column that the table description lacks, by its
/// position among the expected columns; `None` when all are present.
pub fn first_missing_column(actual: &Vec<(String, ColumnType)>, expected: &Vec<ExpectedColumn>) -> (r: Option<usize>)
    ensures
        r matches Some(k) ==> k < expected@.len() && !column_present(actual@, expected@[k as int])
            && forall|m: int| 0 <= m < k ==> column_present(actual@, #[trigger] expected@[m]),
        r is None ==> forall|m: int| 0 <= m < expected@.len() ==> column_present(actual@, #[trigger] expected@[m]),
{
    let mut k: usize = 0;
    while k < expected.len()
        invariant
            0 <= k <= expected@.len(),
            forall|m: int| 0 <= m < k ==> column_present(actual@, #[trigger] expected@[m]),
        decreases expected@.len() - k,
    {
        let want = &expected[k];
        let mut i: usize = 0;
        let mut found = false;
        while i < actual.len() && !found
            invariant
                0 <= i <= actual@.len(),
                *want == expected@[k as int],
                found ==> column_present(actual@, *want),
                !found ==> forall|j: int| 0 <= j < i ==> !(#[trigger] actual@[j].0@ == want.name@ && want.types@.contains(actual@[j].1)),
            decreases actual@.len() - i + if found { 0int } else { 1int },
        {
            if str_eq(actual[i].0.as_str(), want.name.as_str()) && type_allowed(&want.types, actual[i].1) {
                assert(actual@[i as int].0@ == want.name@);
                found = true;
            } else {
                i = i + 1;
            }
        }
        if !found {
            return Some(k);
        }
        k = k + 1;
    }
    None
}

fn expect(name: &str, types: Vec<ColumnType>) -> (r: ExpectedColumn)
    ensures
        r.name@ == name@,
        r.types@ == types@,
{
    ExpectedColumn { name: String::from_str(name), types }
}

/// The columns that the services table must have.
pub fn expected_service_columns() -> (r: Vec<ExpectedColumn>)
    ensures
        r@.len() == 8,
        r@[0].name@ == "node"@ && r@[0].types@ == seq![ColumnType::Text],
        r@[1].name@ == "id"@ && r@[1].types@ == seq![ColumnType::Text],
        r@[2].name@ == "name"@ && r@[2].types@ == seq![ColumnType::Text],
        r@[3].name@ == "tags"@ && r@[3].types@ == seq![ColumnType::Text, ColumnType::Blob],
        r@[4].name@ == "meta"@ && r@[4].types@ == seq![ColumnType::Text, ColumnType::Blob],
        r@[5].name@ == "port"@ && r@[5].types@ == seq![ColumnType::Integer],
        r@[6].name@ == "address"@ && r@[6].types@ == seq![ColumnType::Text],
        r@[7].name@ == "updated_at"@ && r@[7].types@ == seq![ColumnType::Integer],
{
    let mut r: Vec<ExpectedColumn> = Vec::new();
    r.push(expect("node", vec![ColumnType::Text]));
    r.push(expect("id", vec![ColumnType::Text]));
    r.push(expect("name", vec![ColumnType::Text]));
    r.push(expect("tags", vec![ColumnType::Text, ColumnType::Blob]));
    r.push(expect("meta", vec![ColumnType::Text, ColumnType::Blob]));
    r.push(expect("port", vec![ColumnType::Integer]));
    r.push(expect("address", vec![ColumnType::Text]));
    r.push(expect("updated_at", vec![ColumnType::Integer]));
    r
}

/// The columns that the checks table must have.
pub fn expected_check_columns() -> (r: Vec<ExpectedColumn>)
    ensures
        r@.len() == 8,
        r@[0].name@ == "node"@ && r@[0].types@ == seq![ColumnType::Text],
        r@[1].name@ == "id"@ && r@[1].types@ == seq![ColumnType::Text],
        r@[2].name@ == "service_id"@ && r@[2].types@ == seq![ColumnType::Text],
        r@[3].name@ == "service_name"@ && r@[3].types@ == seq![ColumnType::Text],
        r@[4].name@ == "name"@ && r@[4].types@ == seq![ColumnType::Text],
        r@[5].name@ == "status"@ && r@[5].types@ == seq![ColumnType::Text],
        r@[6].name@ == "output"@ && r@[6].types@ == seq![ColumnType::Text],
        r@[7].name@ == "updated_at"@ && r@[7].types@ == seq![ColumnType::Integer],
{
    let mut r: Vec<ExpectedColumn> = Vec::new();
    r.push(expect("node", vec![ColumnType::Text]));
    r.push(expect("id", vec![ColumnType::Text]));
    r.push(expect("service_id", vec![ColumnType::Text]));
    r.push(expect("service_name", vec![ColumnType::Text]));
    r.push(expect("name", vec![ColumnType::Text]));
    r.push(expect("status", vec![ColumnType::Text]));
    r.push(expect("output", vec![ColumnType::Text]));
    r.push(expect("updated_at", vec![ColumnType::Integer]));
    r
}

} // verus!
