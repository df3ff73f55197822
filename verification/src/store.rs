use vstd::prelude::*;

use crate::models::{
    enriched, row_of, LogEntry, LogEntryV, Logbook, LogbookExt, LogbookExtV, LogbookV,
    OperatorConfig, OperatorConfigV,
};
use crate::timestamp::Timestamp;
use crate::LogbookError;

verus! {

/// `a` may stand at or before `b` in the logbook listing: later contacts
/// first, and among equal timestamps the more recently appended entry
/// (the higher id) first.
pub open spec fn entry_le(a: LogEntryV, b: LogEntryV) -> bool {
    a.timestamp.key() > b.timestamp.key() || (a.timestamp.key() == b.timestamp.key() && a.id
        >= b.id)
}

/// Every earlier element may stand before every later one.
pub open spec fn sorted_desc(s: Seq<LogEntryV>) -> bool {
    forall|i: int, j: int| 0 <= i < j < s.len() ==> #[trigger] entry_le(s[i], s[j])
}

/// Where a listing places one more entry: before the first stored entry it
/// may precede.
pub open spec fn insert_entry(e: LogEntryV, s: Seq<LogEntryV>) -> Seq<LogEntryV>
    decreases s.len(),
{
    if s.len() == 0 {
        seq![e]
    } else if entry_le(e, s[0]) {
        seq![e] + s
    } else {
        seq![s[0]] + insert_entry(e, s.drop_first())
    }
}

/// The listing order of a stored sequence of entries: each entry placed in
/// turn, so that among equal timestamps the later-stored entry stands first.
pub open spec fn sort_entries(s: Seq<LogEntryV>) -> Seq<LogEntryV>
    decreases s.len(),
{
    if s.len() == 0 {
        Seq::empty()
    } else {
        insert_entry(s.last(), sort_entries(s.drop_last()))
    }
}

/// Placing an entry keeps the listing sorted and adds exactly that entry.
proof fn lemma_insert_entry(e: LogEntryV, s: Seq<LogEntryV>)
    requires
        sorted_desc(s),
    ensures
        sorted_desc(insert_entry(e, s)),
        insert_entry(e, s).to_multiset() == s.to_multiset().insert(e),
        insert_entry(e, s).len() == s.len() + 1,
    decreases s.len(),
{
    broadcast use vstd::seq_lib::group_to_multiset_ensures;

    let r = insert_entry(e, s);
    if s.len() == 0 {
        assert(r =~= s.insert(0, e));
    } else if entry_le(e, s[0]) {
        assert(r =~= s.insert(0, e));
        assert forall|j: int| 0 <= j < s.len() implies #[trigger] entry_le(e, s[j]) by {
            if j > 0 {
                assert(entry_le(s[0], s[j]));
            }
        };
    } else {
        let sub = insert_entry(e, s.drop_first());
        assert(sorted_desc(s.drop_first())) by {
            assert forall|i: int, j: int|
                0 <= i < j < s.drop_first().len() implies #[trigger] entry_le(
                s.drop_first()[i],
                s.drop_first()[j],
            ) by {
                assert(entry_le(s[i + 1], s[j + 1]));
            };
        };
        lemma_insert_entry(e, s.drop_first());
        assert(r =~= sub.insert(0, s[0]));
        // the head may stand before e and, through the stored order, before
        // everything placed after it
        assert(entry_le(s[0], e));
        assert forall|i: int, j: int| 0 <= i < j < r.len() implies #[trigger] entry_le(
            r[i],
            r[j],
        ) by {
            if i > 0 {
                assert(entry_le(sub[i - 1], sub[j - 1]));
            } else {
                broadcast use vstd::seq_lib::group_to_multiset_ensures;

                assert(r[j] == sub[j - 1]);
                assert(sub.to_multiset().contains(sub[j - 1]));
                if sub[j - 1] == e {
                } else {
                    assert(s.drop_first().to_multiset().contains(sub[j - 1]));
                    let k = choose|k: int|
                        0 <= k < s.drop_first().len() && s.drop_first()[k] == sub[j - 1];
                    assert(entry_le(s[0], s[k + 1]));
                }
            }
        };
        assert(s =~= s.drop_first().insert(0, s[0]));
        assert(r.to_multiset() =~= s.to_multiset().insert(e));
    }
}

/// The listing of any stored sequence is sorted and holds exactly the stored
/// entries: nothing is lost, nothing is invented, nothing is reordered except
/// into recency order.
pub proof fn lemma_sort_entries(s: Seq<LogEntryV>)
    ensures
        sorted_desc(sort_entries(s)),
        sort_entries(s).to_multiset() == s.to_multiset(),
        sort_entries(s).len() == s.len(),
    decreases s.len(),
{
    broadcast use vstd::seq_lib::group_to_multiset_ensures;

    if s.len() == 0 {
    } else {
        lemma_sort_entries(s.drop_last());
        lemma_insert_entry(s.last(), sort_entries(s.drop_last()));
        assert(s.drop_last().push(s.last()) =~= s);
    }
}

/// No two entries share an id.
pub open spec fn distinct_ids(s: Seq<LogEntryV>) -> bool {
    forall|i: int, j: int| 0 <= i < j < s.len() ==> (#[trigger] s[i]).id != (#[trigger] s[j]).id
}

/// Everything a placement holds is the placed entry or one already stored.
proof fn lemma_insert_entry_origin(e: LogEntryV, s: Seq<LogEntryV>, i: int)
    requires
        0 <= i < insert_entry(e, s).len(),
    ensures
        insert_entry(e, s)[i] == e || s.contains(insert_entry(e, s)[i]),
    decreases s.len(),
{
    let r = insert_entry(e, s);
    if s.len() == 0 {
    } else if entry_le(e, s[0]) {
        assert(r =~= seq![e] + s);
    } else {
        assert(r =~= seq![s[0]] + insert_entry(e, s.drop_first()));
        if i > 0 {
            lemma_insert_entry_origin(e, s.drop_first(), i - 1);
            if insert_entry(e, s.drop_first())[i - 1] != e {
                let k = choose|k: int|
                    0 <= k < s.drop_first().len() && s.drop_first()[k] == insert_entry(
                        e,
                        s.drop_first(),
                    )[i - 1];
                assert(s[k + 1] == r[i]);
            }
        }
    }
}

/// Placing an entry with a fresh id keeps all ids distinct.
proof fn lemma_insert_entry_distinct(e: LogEntryV, s: Seq<LogEntryV>)
    requires
        distinct_ids(s),
        forall|k: int| 0 <= k < s.len() ==> (#[trigger] s[k]).id != e.id,
    ensures
        distinct_ids(insert_entry(e, s)),
    decreases s.len(),
{
    let r = insert_entry(e, s);
    if s.len() == 0 {
    } else if entry_le(e, s[0]) {
        assert(r =~= seq![e] + s);
    } else {
        let sub = insert_entry(e, s.drop_first());
        assert(r =~= seq![s[0]] + sub);
        assert(distinct_ids(s.drop_first())) by {
            assert forall|i: int, j: int|
                0 <= i < j < s.drop_first().len() implies (#[trigger] s.drop_first()[i]).id != (
            #[trigger] s.drop_first()[j]).id by {
                assert(s[i + 1].id != s[j + 1].id);
            };
        };
        lemma_insert_entry_distinct(e, s.drop_first());
        assert forall|i: int, j: int| 0 <= i < j < r.len() implies (#[trigger] r[i]).id != (
        #[trigger] r[j]).id by {
            if i == 0 {
                lemma_insert_entry_origin(e, s.drop_first(), j - 1);
                if sub[j - 1] != e {
                    let k = choose|k: int|
                        0 <= k < s.drop_first().len() && s.drop_first()[k] == sub[j - 1];
                    assert(s[0].id != s[k + 1].id);
                }
            } else {
                assert(sub[i - 1].id != sub[j - 1].id);
            }
        };
    }
}

/// Listing entries with distinct ids keeps their ids distinct.
proof fn lemma_sort_entries_distinct(s: Seq<LogEntryV>)
    requires
        distinct_ids(s),
    ensures
        distinct_ids(sort_entries(s)),
    decreases s.len(),
{
    broadcast use vstd::seq_lib::group_to_multiset_ensures;

    if s.len() > 0 {
        let d = s.drop_last();
        assert(distinct_ids(d)) by {
            assert forall|i: int, j: int| 0 <= i < j < d.len() implies (#[trigger] d[i]).id != (
            #[trigger] d[j]).id by {
                assert(s[i].id != s[j].id);
            };
        };
        lemma_sort_entries_distinct(d);
        lemma_sort_entries(d);
        assert forall|k: int| 0 <= k < sort_entries(d).len() implies (#[trigger] sort_entries(
            d,
        )[k]).id != s.last().id by {
            assert(sort_entries(d).to_multiset().contains(sort_entries(d)[k]));
            assert(d.to_multiset().contains(sort_entries(d)[k]));
            let m = choose|m: int| 0 <= m < d.len() && d[m] == sort_entries(d)[k];
            assert(s[m].id != s[s.len() - 1].id);
        };
        lemma_insert_entry_distinct(s.last(), sort_entries(d));
    }
}

/// The listing order in full: over entries with distinct ids (as every
/// store keeps them) the listing is a permutation of what is stored,
/// strictly descending by timestamp, and among equal timestamps the entry
/// with the higher id — the one appended later — stands first.
pub proof fn lemma_listing_order(s: Seq<LogEntryV>)
    requires
        distinct_ids(s),
    ensures
        sort_entries(s).to_multiset() == s.to_multiset(),
        sort_entries(s).len() == s.len(),
        forall|i: int, j: int|
            0 <= i < j < sort_entries(s).len() ==> ((#[trigger] sort_entries(s)[i]).timestamp.key()
                > (#[trigger] sort_entries(s)[j]).timestamp.key() || (sort_entries(
                s,
            )[i].timestamp.key() == sort_entries(s)[j].timestamp.key() && sort_entries(s)[i].id
                > sort_entries(s)[j].id)),
{
    lemma_sort_entries(s);
    lemma_sort_entries_distinct(s);
    assert forall|i: int, j: int| 0 <= i < j < sort_entries(s).len() implies ((
    #[trigger] sort_entries(s)[i]).timestamp.key() > (#[trigger] sort_entries(s)[j]).timestamp.key()
        || (sort_entries(s)[i].timestamp.key() == sort_entries(s)[j].timestamp.key()
        && sort_entries(s)[i].id > sort_entries(s)[j].id)) by {
        assert(entry_le(sort_entries(s)[i], sort_entries(s)[j]));
        assert(sort_entries(s)[i].id != sort_entries(s)[j].id);
    };
}

/// Filtering a sorted listing leaves it sorted: the export keeps the
/// listing order.
pub proof fn lemma_sorted_filter(s: Seq<LogEntryV>, pred: spec_fn(LogEntryV) -> bool)
    requires
        sorted_desc(s),
    ensures
        sorted_desc(s.filter(pred)),
    decreases s.len(),
{
    reveal(Seq::filter);
    if s.len() > 0 {
        let d = s.drop_last();
        assert(sorted_desc(d)) by {
            assert forall|i: int, j: int| 0 <= i < j < d.len() implies #[trigger] entry_le(
                d[i],
                d[j],
            ) by {
                assert(entry_le(s[i], s[j]));
            };
        };
        lemma_sorted_filter(d, pred);
        let f = s.filter(pred);
        assert forall|i: int, j: int| 0 <= i < j < f.len() implies #[trigger] entry_le(
            f[i],
            f[j],
        ) by {
            if j < d.filter(pred).len() {
                assert(entry_le(d.filter(pred)[i], d.filter(pred)[j]));
            } else {
                assert(f[j] == s.last());
                lemma_filter_origin(d, pred, i);
                let k = choose|k: int| 0 <= k < d.len() && d[k] == d.filter(pred)[i];
                assert(entry_le(s[k], s[s.len() - 1]));
            }
        };
    }
}

/// Placing an entry by `insert_entry` is the same as inserting it at the
/// first position whose occupant it may precede.
proof fn lemma_insert_entry_at(e: LogEntryV, s: Seq<LogEntryV>, p: int)
    requires
        0 <= p <= s.len(),
        forall|j: int| 0 <= j < p ==> !entry_le(e, #[trigger] s[j]),
        p < s.len() ==> entry_le(e, s[p]),
    ensures
        insert_entry(e, s) == s.insert(p, e),
    decreases p,
{
    if p == 0 {
        if s.len() == 0 {
            assert(insert_entry(e, s) =~= s.insert(0, e));
        } else {
            assert(insert_entry(e, s) =~= s.insert(0, e));
        }
    } else {
        assert(!entry_le(e, s[0]));
        lemma_insert_entry_at(e, s.drop_first(), p - 1);
        assert(seq![s[0]] + s.drop_first().insert(p - 1, e) =~= s.insert(p, e));
    }
}

/// The index of the profile with the given id; -1 when there is none.
pub open spec fn profile_index(s: Seq<OperatorConfigV>, id: u64) -> int
    decreases s.len(),
{
    if s.len() == 0 {
        -1
    } else if s[0].id == id {
        0
    } else {
        let r = profile_index(s.drop_first(), id);
        if r == -1 {
            -1
        } else {
            r + 1
        }
    }
}

/// Whether some profile carries the given id.
pub open spec fn has_profile(s: Seq<OperatorConfigV>, id: u64) -> bool {
    profile_index(s, id) >= 0
}

/// The profile with the given id.
pub open spec fn profile_with(s: Seq<OperatorConfigV>, id: u64) -> OperatorConfigV {
    s[profile_index(s, id)]
}

/// `profile_index` finds the first match.
proof fn lemma_profile_index_found(s: Seq<OperatorConfigV>, id: u64, k: int)
    requires
        0 <= k < s.len(),
        forall|j: int| 0 <= j < k ==> #[trigger] s[j].id != id,
        s[k].id == id,
    ensures
        profile_index(s, id) == k,
    decreases k,
{
    if k == 0 {
    } else {
        lemma_profile_index_found(s.drop_first(), id, k - 1);
    }
}

/// `profile_index` misses exactly when no profile carries the id.
proof fn lemma_profile_index_none(s: Seq<OperatorConfigV>, id: u64)
    requires
        forall|j: int| 0 <= j < s.len() ==> #[trigger] s[j].id != id,
    ensures
        profile_index(s, id) == -1,
    decreases s.len(),
{
    if s.len() == 0 {
    } else {
        lemma_profile_index_none(s.drop_first(), id);
    }
}

/// A found index is in range and carries the id.
pub proof fn lemma_profile_index_in_range(s: Seq<OperatorConfigV>, id: u64)
    requires
        has_profile(s, id),
    ensures
        0 <= profile_index(s, id) < s.len(),
        s[profile_index(s, id)].id == id,
    decreases s.len(),
{
    if s.len() == 0 {
    } else if s[0].id == id {
    } else {
        lemma_profile_index_in_range(s.drop_first(), id);
    }
}

/// Filtering only ever keeps elements of the sequence.
proof fn lemma_filter_origin<A>(s: Seq<A>, pred: spec_fn(A) -> bool, i: int)
    requires
        0 <= i < s.filter(pred).len(),
    ensures
        s.contains(s.filter(pred)[i]),
    decreases s.len(),
{
    reveal(Seq::filter);
    if s.len() > 0 {
        let f = s.filter(pred);
        let d = s.drop_last().filter(pred);
        if i < d.len() {
            lemma_filter_origin(s.drop_last(), pred, i);
            assert(s.drop_last()[choose|k: int|
                0 <= k < s.drop_last().len() && s.drop_last()[k] == d[i]] == f[i]);
        } else {
            assert(f[i] == s.last());
        }
    }
}

/// Mathematical models of a sequence of stored profiles.
pub open spec fn profile_views(s: Seq<OperatorConfig>) -> Seq<OperatorConfigV> {
    s.map_values(|p: OperatorConfig| p@)
}

/// Mathematical models of a sequence of stored log entries.
pub open spec fn entry_views(s: Seq<LogEntry>) -> Seq<LogEntryV> {
    s.map_values(|e: LogEntry| e@)
}

/// The profile a fresh row starts from: a placeholder name and empty
/// station attributes.
pub open spec fn placeholder_profile(id: u64) -> OperatorConfigV {
    OperatorConfigV {
        id,
        name: "New Option"@,
        call: Seq::empty(),
        grid: Seq::empty(),
        cqz: Seq::empty(),
        ituz: Seq::empty(),
        dxcc: Seq::empty(),
        cont: Seq::empty(),
    }
}

/// A profile row rebuilt from an id and fresh attribute text.
pub open spec fn profile_record(
    id: u64,
    name: Seq<char>,
    call: Seq<char>,
    grid: Seq<char>,
    cqz: Seq<char>,
    ituz: Seq<char>,
    dxcc: Seq<char>,
    cont: Seq<char>,
) -> OperatorConfigV {
    OperatorConfigV { id, name, call, grid, cqz, ituz, dxcc, cont }
}

/// A log entry row built from an assigned id, a timestamp and field text.
pub open spec fn entry_record(
    id: u64,
    timestamp: Timestamp,
    call: Seq<char>,
    rsttx: Seq<char>,
    rstrx: Seq<char>,
    band: Seq<char>,
    frequency: Seq<char>,
    mode: Seq<char>,
    power: Seq<char>,
    comments: Seq<char>,
    profile_id: u64,
) -> LogEntryV {
    LogEntryV {
        id,
        timestamp,
        call,
        rsttx,
        rstrx,
        band,
        frequency,
        mode,
        power,
        comments,
        profile_id,
    }
}

/// The two record stores: operator profiles and the contact log, with the
/// next id each will assign.
pub struct Store {
    profiles: Vec<OperatorConfig>,
    logs: Vec<LogEntry>,
    next_profile_id: u64,
    next_log_id: u64,
}

/// Mathematical model of a `Store`.
pub ghost struct StoreV {
    pub profiles: Seq<OperatorConfigV>,
    pub logs: Seq<LogEntryV>,
    pub next_profile_id: u64,
    pub next_log_id: u64,
}

impl View for Store {
    type V = StoreV;

    closed spec fn view(&self) -> StoreV {
        StoreV {
            profiles: profile_views(self.profiles@),
            logs: entry_views(self.logs@),
            next_profile_id: self.next_profile_id,
            next_log_id: self.next_log_id,
        }
    }
}

/// Scan stored profiles for the row with the given id.
fn find_profile_slot(profiles: &Vec<OperatorConfig>, id: u64) -> (r: Option<usize>)
    ensures
        match r {
            Some(i) => i < profiles@.len() && profile_index(profile_views(profiles@), id) == i,
            None => !has_profile(profile_views(profiles@), id),
        },
{
    let ghost views = profile_views(profiles@);
    let n = profiles.len();
    for i in 0..n
        invariant
            n == profiles@.len(),
            views == profile_views(profiles@),
            forall|j: int| 0 <= j < i ==> #[trigger] views[j].id != id,
    {
        if profiles[i].id == id {
            proof {
                lemma_profile_index_found(views, id, i as int);
            }
            return Some(i);
        }
    }
    proof {
        lemma_profile_index_none(views, id);
    }
    None
}

impl Store {
    /// Ids are assigned in increasing order, never reused, and every stored
    /// timestamp names a real moment.
    pub open spec fn wf(self) -> bool {
        &&& forall|i: int|
            0 <= i < self@.profiles.len() ==> (#[trigger] self@.profiles[i]).id
                < self@.next_profile_id
        &&& forall|i: int, j: int|
            0 <= i < j < self@.profiles.len() ==> (#[trigger] self@.profiles[i]).id < (
            #[trigger] self@.profiles[j]).id
        &&& forall|i: int|
            0 <= i < self@.logs.len() ==> (#[trigger] self@.logs[i]).id < self@.next_log_id
        &&& forall|i: int, j: int|
            0 <= i < j < self@.logs.len() ==> (#[trigger] self@.logs[i]).id < (
            #[trigger] self@.logs[j]).id
        &&& forall|i: int| 0 <= i < self@.logs.len() ==> (#[trigger] self@.logs[i]).timestamp.valid()
    }

    /// A fresh, empty store; the first row of each table gets id 1.
    pub fn new() -> (r: Store)
        ensures
            r.wf(),
            r@.profiles == Seq::<OperatorConfigV>::empty(),
            r@.logs == Seq::<LogEntryV>::empty(),
            r@.next_profile_id == 1,
            r@.next_log_id == 1,
    {
        let r = Store { profiles: Vec::new(), logs: Vec::new(), next_profile_id: 1, next_log_id: 1 };
        proof {
            assert(r@.profiles =~= Seq::<OperatorConfigV>::empty());
            assert(r@.logs =~= Seq::<LogEntryV>::empty());
        }
        r
    }

    /// Insert a placeholder profile under a fresh id and hand the id back;
    /// fails only when the id counter is exhausted.
    pub fn create_profile(&mut self) -> (r: Result<u64, LogbookError>)
        requires
            old(self).wf(),
        ensures
            final(self).wf(),
            old(self)@.next_profile_id == u64::MAX ==> r == Err::<u64, LogbookError>(
                LogbookError::StoreFull,
            ) && final(self)@ == old(self)@,
            old(self)@.next_profile_id < u64::MAX ==> {
                &&& r == Ok::<u64, LogbookError>(old(self)@.next_profile_id)
                &&& final(self)@.profiles == old(self)@.profiles.push(
                    placeholder_profile(old(self)@.next_profile_id),
                )
                &&& final(self)@.logs == old(self)@.logs
                &&& final(self)@.next_profile_id == old(self)@.next_profile_id + 1
                &&& final(self)@.next_log_id == old(self)@.next_log_id
            },
    {
        if self.next_profile_id == u64::MAX {
            return Err(LogbookError::StoreFull);
        }
        let id = self.next_profile_id;
        self.next_profile_id = id + 1;
        let row = OperatorConfig {
            id,
            name: String::from_str("New Option"),
            call: String::new(),
            grid: String::new(),
            cqz: String::new(),
            ituz: String::new(),
            dxcc: String::new(),
            cont: String::new(),
        };
        self.profiles.push(row);
        proof {
            assert(final(self)@.profiles =~= old(self)@.profiles.push(placeholder_profile(id)));
            assert(final(self)@.logs =~= old(self)@.logs);
        }
        Ok(id)
    }

    /// All profiles, ascending by id (the order they were created in).
    pub fn list_profiles(&self) -> (r: Vec<OperatorConfig>)
        ensures
            profile_views(r@) == self@.profiles,
    {
        let mut out: Vec<OperatorConfig> = Vec::new();
        let n = self.profiles.len();
        for i in 0..n
            invariant
                n == self.profiles@.len(),
                out@.len() == i,
                forall|j: int| 0 <= j < i ==> (#[trigger] out@[j])@ == self@.profiles[j],
        {
            let d = self.profiles[i].duplicate();
            proof {
                assert(d@ == self@.profiles[i as int]);
            }
            out.push(d);
        }
        proof {
            assert(profile_views(out@) =~= self@.profiles);
        }
        out
    }

    /// Replace every attribute of the profile with the given id; report
    /// `ProfileNotFound` when no row carries that id.
    pub fn update_profile(
        &mut self,
        id: u64,
        name: String,
        call: String,
        grid: String,
        cqz: String,
        ituz: String,
        dxcc: String,
        cont: String,
    ) -> (r: Result<(), LogbookError>)
        requires
            old(self).wf(),
        ensures
            final(self).wf(),
            r is Ok <==> has_profile(old(self)@.profiles, id),
            r is Ok ==> final(self)@ == (StoreV {
                profiles: old(self)@.profiles.update(
                    profile_index(old(self)@.profiles, id),
                    profile_record(id, name@, call@, grid@, cqz@, ituz@, dxcc@, cont@),
                ),
                ..old(self)@
            }),
            r is Err ==> r == Err::<(), LogbookError>(LogbookError::ProfileNotFound) && final(self)@
                == old(self)@,
    {
        match find_profile_slot(&self.profiles, id) {
            Some(i) => {
                let row = OperatorConfig { id, name, call, grid, cqz, ituz, dxcc, cont };
                proof {
                    lemma_profile_index_in_range(old(self)@.profiles, id);
                }
                self.profiles.remove(i);
                self.profiles.insert(i, row);
                proof {
                    assert(final(self)@.profiles =~= old(self)@.profiles.update(
                        i as int,
                        profile_record(id, name@, call@, grid@, cqz@, ituz@, dxcc@, cont@),
                    ));
                    assert(final(self)@.logs =~= old(self)@.logs);
                }
                Ok(())
            },
            None => Err(LogbookError::ProfileNotFound),
        }
    }

    /// Remove the profile with the given id, if any. Log entries recorded
    /// under it stay; only the export join will no longer resolve them.
    pub fn delete_profile(&mut self, id: u64)
        requires
            old(self).wf(),
        ensures
            final(self).wf(),
            final(self)@.profiles == old(self)@.profiles.filter(
                |p: OperatorConfigV| p.id != id,
            ),
            final(self)@.logs == old(self)@.logs,
            final(self)@.next_profile_id == old(self)@.next_profile_id,
            final(self)@.next_log_id == old(self)@.next_log_id,
    {
        let ghost pred = |p: OperatorConfigV| p.id != id;
        let ghost orig = self@.profiles;
        let mut kept: Vec<OperatorConfig> = Vec::new();
        proof {
            lemma_filter_empty(pred);
            assert(orig.subrange(0, 0) =~= Seq::<OperatorConfigV>::empty());
            assert(profile_views(kept@) =~= Seq::<OperatorConfigV>::empty());
        }
        let n = self.profiles.len();
        for i in 0..n
            invariant
                n == self.profiles@.len(),
                orig == profile_views(self.profiles@),
                pred == (|p: OperatorConfigV| p.id != id),
                profile_views(kept@) == orig.subrange(0, i as int).filter(pred),
        {
            let ghost prefix = orig.subrange(0, i as int);
            proof {
                lemma_filter_push(prefix, orig[i as int], pred);
                assert(prefix.push(orig[i as int]) =~= orig.subrange(0, i + 1));
            }
            let p = self.profiles[i].duplicate();
            proof {
                assert(p@ == orig[i as int]);
            }
            if p.id != id {
                kept.push(p);
                proof {
                    assert(profile_views(kept@) =~= prefix.filter(pred).push(orig[i as int]));
                }
            } else {
                proof {
                    assert(!pred(orig[i as int]));
                    assert(orig.subrange(0, i + 1).filter(pred) == prefix.filter(pred));
                }
            }
        }
        self.profiles = kept;
        proof {
            assert(orig.subrange(0, orig.len() as int) =~= orig);
            assert(final(self)@.logs =~= old(self)@.logs);
            let f = orig.filter(pred);
            assert forall|a: int, b: int| 0 <= a < b < f.len() implies (#[trigger] f[a]).id < (
            #[trigger] f[b]).id by {
                lemma_filter_ascending_ids(orig, pred, a, b);
            };
            assert forall|a: int| 0 <= a < f.len() implies (#[trigger] f[a]).id < final(self)@.next_profile_id by {
                lemma_filter_origin(orig, pred, a);
            };
        }
    }

    /// Append a log entry under the given timestamp; the entry gets a fresh
    /// id. Fails with `ProfileNotFound` when the profile id does not resolve,
    /// and with `StoreFull` when the id counter is exhausted; nothing is
    /// written in either case.
    pub fn append(
        &mut self,
        timestamp: Timestamp,
        call: String,
        rsttx: String,
        rstrx: String,
        band: String,
        frequency: String,
        mode: String,
        power: String,
        comments: String,
        profile_id: u64,
    ) -> (r: Result<u64, LogbookError>)
        requires
            old(self).wf(),
            timestamp.valid(),
        ensures
            final(self).wf(),
            !has_profile(old(self)@.profiles, profile_id) ==> r == Err::<u64, LogbookError>(
                LogbookError::ProfileNotFound,
            ) && final(self)@ == old(self)@,
            has_profile(old(self)@.profiles, profile_id) && old(self)@.next_log_id == u64::MAX
                ==> r == Err::<u64, LogbookError>(LogbookError::StoreFull) && final(self)@ == old(
                self,
            )@,
            has_profile(old(self)@.profiles, profile_id) && old(self)@.next_log_id < u64::MAX
                ==> {
                &&& r == Ok::<u64, LogbookError>(old(self)@.next_log_id)
                &&& final(self)@.logs == old(self)@.logs.push(
                    entry_record(
                        old(self)@.next_log_id,
                        timestamp,
                        call@,
                        rsttx@,
                        rstrx@,
                        band@,
                        frequency@,
                        mode@,
                        power@,
                        comments@,
                        profile_id,
                    ),
                )
                &&& final(self)@.profiles == old(self)@.profiles
                &&& final(self)@.next_log_id == old(self)@.next_log_id + 1
                &&& final(self)@.next_profile_id == old(self)@.next_profile_id
            },
    {
        if find_profile_slot(&self.profiles, profile_id).is_none() {
            return Err(LogbookError::ProfileNotFound);
        }
        if self.next_log_id == u64::MAX {
            return Err(LogbookError::StoreFull);
        }
        let id = self.next_log_id;
        self.next_log_id = id + 1;
        let row = LogEntry {
            id,
            timestamp,
            call,
            rsttx,
            rstrx,
            band,
            frequency,
            mode,
            power,
            comments,
            profile_id,
        };
        self.logs.push(row);
        proof {
            assert(final(self)@.logs =~= old(self)@.logs.push(
                entry_record(
                    id,
                    timestamp,
                    call@,
                    rsttx@,
                    rstrx@,
                    band@,
                    frequency@,
                    mode@,
                    power@,
                    comments@,
                    profile_id,
                ),
            ));
            assert(final(self)@.profiles =~= old(self)@.profiles);
        }
        Ok(id)
    }
}

/// Mathematical models of a sequence of logbook rows.
pub open spec fn row_views(s: Seq<Logbook>) -> Seq<LogbookV> {
    s.map_values(|l: Logbook| l@)
}

/// Whether `a` may stand at or before `b`, decided executably.
fn goes_at_or_before(a: &LogEntry, b: &LogEntry) -> (r: bool)
    requires
        a.timestamp.valid(),
        b.timestamp.valid(),
    ensures
        r == entry_le(a@, b@),
{
    let ka = a.timestamp.key_u64();
    let kb = b.timestamp.key_u64();
    ka > kb || (ka == kb && a.id >= b.id)
}

/// The position a listing gives a new entry: just before the first stored
/// entry it may precede.
fn insert_position(out: &Vec<LogEntry>, e: &LogEntry) -> (p: usize)
    requires
        e.timestamp.valid(),
        forall|j: int| 0 <= j < out@.len() ==> (#[trigger] out@[j])@.timestamp.valid(),
    ensures
        p <= out@.len(),
        forall|j: int| 0 <= j < p ==> !entry_le(e@, (#[trigger] out@[j])@),
        p < out@.len() ==> entry_le(e@, out@[p as int]@),
{
    let n = out.len();
    for p in 0..n
        invariant
            n == out@.len(),
            e.timestamp.valid(),
            forall|j: int| 0 <= j < out@.len() ==> (#[trigger] out@[j])@.timestamp.valid(),
            forall|j: int| 0 <= j < p ==> !entry_le(e@, (#[trigger] out@[j])@),
    {
        if goes_at_or_before(e, &out[p]) {
            return p;
        }
    }
    n
}

impl Store {
    /// All stored log entries in listing order: most recent timestamp first,
    /// ties most recently appended first.
    fn sorted_entries(&self) -> (r: Vec<LogEntry>)
        requires
            self.wf(),
        ensures
            entry_views(r@) == sort_entries(self@.logs),
            forall|i: int| 0 <= i < r@.len() ==> (#[trigger] r@[i])@.timestamp.valid(),
    {
        let mut out: Vec<LogEntry> = Vec::new();
        proof {
            assert(self@.logs.subrange(0, 0) =~= Seq::<LogEntryV>::empty());
            assert(entry_views(out@) =~= sort_entries(self@.logs.subrange(0, 0)));
        }
        let n = self.logs.len();
        for i in 0..n
            invariant
                self.wf(),
                n == self.logs@.len(),
                entry_views(out@) == sort_entries(self@.logs.subrange(0, i as int)),
                forall|j: int| 0 <= j < out@.len() ==> (#[trigger] out@[j])@.timestamp.valid(),
        {
            let e = self.logs[i].duplicate();
            proof {
                assert(e@ == self@.logs[i as int]);
                assert(e@.timestamp.valid());
            }
            let ghost views = entry_views(out@);
            let pos = insert_position(&out, &e);
            proof {
                assert forall|j: int| 0 <= j < pos implies !entry_le(e@, #[trigger] views[j]) by {
                    assert(!entry_le(e@, out@[j]@));
                };
                if (pos as int) < views.len() {
                    assert(entry_le(e@, views[pos as int]));
                }
                lemma_insert_entry_at(e@, views, pos as int);
            }
            out.insert(pos, e);
            proof {
                assert(entry_views(out@) =~= views.insert(pos as int, e@));
                let sub = self@.logs.subrange(0, i + 1);
                assert(sub.drop_last() =~= self@.logs.subrange(0, i as int));
                assert(sub.last() == self@.logs[i as int]);
                assert(entry_views(out@) == sort_entries(sub));
            }
        }
        proof {
            assert(self@.logs.subrange(0, self@.logs.len() as int) =~= self@.logs);
        }
        out
    }

    /// The canonical read path for display: every stored entry as a logbook
    /// row, most recent first.
    pub fn list_logs(&self) -> (r: Vec<Logbook>)
        requires
            self.wf(),
        ensures
            row_views(r@) == sort_entries(self@.logs).map_values(|e: LogEntryV| row_of(e)),
    {
        let sorted = self.sorted_entries();
        let mut out: Vec<Logbook> = Vec::new();
        let n = sorted.len();
        for i in 0..n
            invariant
                n == sorted@.len(),
                entry_views(sorted@) == sort_entries(self@.logs),
                out@.len() == i,
                forall|j: int|
                    0 <= j < i ==> (#[trigger] out@[j])@ == row_of(entry_views(sorted@)[j]),
        {
            let e = &sorted[i];
            let row = Logbook {
                timestamp: e.timestamp,
                call: e.call.clone(),
                rsttx: e.rsttx.clone(),
                rstrx: e.rstrx.clone(),
                band: e.band.clone(),
                frequency: e.frequency.clone(),
                mode: e.mode.clone(),
                comments: e.comments.clone(),
            };
            proof {
                assert(row@ == row_of(entry_views(sorted@)[i as int]));
            }
            out.push(row);
        }
        proof {
            assert(row_views(out@) =~= sort_entries(self@.logs).map_values(|e: LogEntryV| row_of(e)));
        }
        out
    }
}

/// Mathematical models of a sequence of enriched rows.
pub open spec fn ext_views(s: Seq<LogbookExt>) -> Seq<LogbookExtV> {
    s.map_values(|x: LogbookExt| x@)
}

/// Whether an optional bound text is either absent or well-formed.
pub open spec fn bound_ok(o: Option<&str>) -> bool {
    o matches Some(s) ==> crate::timestamp::parse_spec(s@) is Some
}

/// The timestamp an optional bound text names, if any.
pub open spec fn bound_ts(o: Option<&str>) -> Option<Timestamp> {
    match o {
        None => None,
        Some(s) => crate::timestamp::parse_spec(s@),
    }
}

/// Whether a moment lies within the inclusive bounds; an absent bound
/// excludes nothing.
pub open spec fn within_bounds(t: Timestamp, sb: Option<Timestamp>, eb: Option<Timestamp>) -> bool {
    &&& (sb matches Some(b) ==> t.key() >= b.key())
    &&& (eb matches Some(b) ==> t.key() <= b.key())
}

/// What the export keeps of a stored entry: its timestamp lies within the
/// bounds and its profile still exists (the inner join).
pub open spec fn export_filter(
    profiles: Seq<OperatorConfigV>,
    sb: Option<Timestamp>,
    eb: Option<Timestamp>,
) -> spec_fn(LogEntryV) -> bool {
    |e: LogEntryV| within_bounds(e.timestamp, sb, eb) && has_profile(profiles, e.profile_id)
}

/// How the export enriches a kept entry: joined with its own profile.
pub open spec fn export_join(profiles: Seq<OperatorConfigV>) -> spec_fn(LogEntryV) -> LogbookExtV {
    |e: LogEntryV| enriched(e, profile_with(profiles, e.profile_id))
}

/// Whether a moment lies within the inclusive bounds, decided executably.
fn ts_within(t: &Timestamp, sb: &Option<Timestamp>, eb: &Option<Timestamp>) -> (r: bool)
    requires
        t.valid(),
        *sb matches Some(b) ==> b.valid(),
        *eb matches Some(b) ==> b.valid(),
    ensures
        r == within_bounds(*t, *sb, *eb),
{
    let k = t.key_u64();
    let low_ok = match sb {
        Some(b) => k >= b.key_u64(),
        None => true,
    };
    let high_ok = match eb {
        Some(b) => k <= b.key_u64(),
        None => true,
    };
    low_ok && high_ok
}

impl Store {
    /// Every entry whose timestamp lies within the inclusive bounds and whose
    /// profile still exists, joined with that profile, in listing order.
    /// A malformed bound text fails the whole export with `InvalidTimestamp`
    /// before anything is read.
    pub fn export_range(&self, start: Option<&str>, end: Option<&str>) -> (r: Result<
        Vec<LogbookExt>,
        LogbookError,
    >)
        requires
            self.wf(),
        ensures
            r is Ok <==> bound_ok(start) && bound_ok(end),
            r is Err ==> r == Err::<Vec<LogbookExt>, LogbookError>(LogbookError::InvalidTimestamp),
            r matches Ok(v) ==> ext_views(v@) == sort_entries(self@.logs).filter(
                export_filter(self@.profiles, bound_ts(start), bound_ts(end)),
            ).map_values(export_join(self@.profiles)),
            r matches Ok(v) ==> forall|i: int|
                0 <= i < v@.len() ==> (#[trigger] v@[i])@.timestamp.valid(),
    {
        let sb: Option<Timestamp> = match start {
            Some(s) => match crate::timestamp::parse_timestamp(s) {
                Some(t) => Some(t),
                None => {
                    return Err(LogbookError::InvalidTimestamp);
                },
            },
            None => None,
        };
        let eb: Option<Timestamp> = match end {
            Some(s) => match crate::timestamp::parse_timestamp(s) {
                Some(t) => Some(t),
                None => {
                    return Err(LogbookError::InvalidTimestamp);
                },
            },
            None => None,
        };
        proof {
            assert(sb == bound_ts(start));
            assert(eb == bound_ts(end));
        }
        let ghost pred = export_filter(self@.profiles, bound_ts(start), bound_ts(end));
        let ghost join = export_join(self@.profiles);
        let sorted = self.sorted_entries();
        let ghost all = sort_entries(self@.logs);
        let mut out: Vec<LogbookExt> = Vec::new();
        proof {
            lemma_filter_empty(pred);
            assert(all.subrange(0, 0) =~= Seq::<LogEntryV>::empty());
            assert(Seq::<LogEntryV>::empty().map_values(join) =~= Seq::<LogbookExtV>::empty());
            assert(ext_views(out@) =~= Seq::<LogbookExtV>::empty());
        }
        let n = sorted.len();
        for i in 0..n
            invariant
                self.wf(),
                n == sorted@.len(),
                entry_views(sorted@) == all,
                all == sort_entries(self@.logs),
                forall|j: int| 0 <= j < sorted@.len() ==> (#[trigger] sorted@[j])@.timestamp.valid(),
                sb == bound_ts(start),
                eb == bound_ts(end),
                sb matches Some(b) ==> b.valid(),
                eb matches Some(b) ==> b.valid(),
                pred == export_filter(self@.profiles, bound_ts(start), bound_ts(end)),
                join == export_join(self@.profiles),
                ext_views(out@) == all.subrange(0, i as int).filter(pred).map_values(join),
                forall|j: int| 0 <= j < out@.len() ==> (#[trigger] out@[j])@.timestamp.valid(),
        {
            let e = &sorted[i];
            let ghost prefix = all.subrange(0, i as int);
            proof {
                lemma_filter_push(prefix, all[i as int], pred);
                assert(prefix.push(all[i as int]) =~= all.subrange(0, i + 1));
                assert(e@ == all[i as int]);
            }
            let in_range = ts_within(&e.timestamp, &sb, &eb);
            let slot = find_profile_slot(&self.profiles, e.profile_id);
            match slot {
                Some(p) if in_range => {
                    proof {
                        assert(pred(all[i as int]));
                    }
                    let row = LogbookExt {
                        timestamp: e.timestamp,
                        call: e.call.clone(),
                        rsttx: e.rsttx.clone(),
                        rstrx: e.rstrx.clone(),
                        band: e.band.clone(),
                        frequency: e.frequency.clone(),
                        mode: e.mode.clone(),
                        power: e.power.clone(),
                        comments: e.comments.clone(),
                        operator: self.profiles[p].duplicate(),
                    };
                    proof {
                        assert(row@.operator == profile_with(self@.profiles, e@.profile_id));
                        assert(row@ == join(all[i as int]));
                    }
                    out.push(row);
                    proof {
                        assert(ext_views(out@) =~= prefix.filter(pred).map_values(join).push(
                            join(all[i as int]),
                        ));
                        assert(prefix.filter(pred).push(all[i as int]).map_values(join) =~= prefix
                            .filter(pred).map_values(join).push(join(all[i as int])));
                    }
                },
                _ => {
                    proof {
                        assert(!pred(all[i as int]));
                        assert(all.subrange(0, i + 1).filter(pred) == prefix.filter(pred));
                    }
                },
            }
        }
        proof {
            assert(all.subrange(0, all.len() as int) =~= all);
        }
        Ok(out)
    }
}

/// Relies on `chrono::Utc::now` and chrono's `Datelike` / `Timelike`
/// accessors for the current UTC calendar fields. chrono documents the month
/// as 1 to 12, the day of month as 1 to 31, the hour as at most 23, and the
/// minute and second as at most 59; nothing else is assumed of the clock.
#[verifier::external_body]
fn clock_now() -> (r: (i32, u32, u32, u32, u32, u32))
    ensures
        1 <= r.1 <= 12,
        1 <= r.2 <= 31,
        r.3 <= 23,
        r.4 <= 59,
        r.5 <= 59,
{
    let now = chrono::Utc::now().naive_utc();
    (
        chrono::Datelike::year(&now),
        chrono::Datelike::month(&now),
        chrono::Datelike::day(&now),
        chrono::Timelike::hour(&now),
        chrono::Timelike::minute(&now),
        chrono::Timelike::second(&now),
    )
}

impl Store {
    /// Append a log entry stamped with the moment of the call, read from the
    /// system clock. The entry is rejected with `ProfileNotFound` when the
    /// profile id does not resolve; whatever moment the clock reports, the
    /// store either gains exactly this one entry under some valid timestamp
    /// or reports why it gained none.
    pub fn append_log(
        &mut self,
        call: String,
        rsttx: String,
        rstrx: String,
        band: String,
        frequency: String,
        mode: String,
        power: String,
        comments: String,
        profile_id: u64,
    ) -> (r: Result<u64, LogbookError>)
        requires
            old(self).wf(),
        ensures
            final(self).wf(),
            r == Err::<u64, LogbookError>(LogbookError::ProfileNotFound) <==> !has_profile(
                old(self)@.profiles,
                profile_id,
            ),
            r is Err ==> final(self)@ == old(self)@,
            r matches Ok(id) ==> {
                &&& id == old(self)@.next_log_id
                &&& old(self)@.next_log_id < u64::MAX
                &&& exists|ts: Timestamp|
                    #[trigger] ts.valid() && final(self)@.logs == old(self)@.logs.push(
                        entry_record(
                            old(self)@.next_log_id,
                            ts,
                            call@,
                            rsttx@,
                            rstrx@,
                            band@,
                            frequency@,
                            mode@,
                            power@,
                            comments@,
                            profile_id,
                        ),
                    )
                &&& final(self)@.profiles == old(self)@.profiles
                &&& final(self)@.next_log_id == old(self)@.next_log_id + 1
                &&& final(self)@.next_profile_id == old(self)@.next_profile_id
            },
            r == Err::<u64, LogbookError>(LogbookError::StoreFull) ==> old(self)@.next_log_id
                == u64::MAX,
            r is Ok || r == Err::<u64, LogbookError>(LogbookError::ProfileNotFound) || r == Err::<
                u64,
                LogbookError,
            >(LogbookError::StoreFull) || r == Err::<u64, LogbookError>(LogbookError::ClockRange),
    {
        if find_profile_slot(&self.profiles, profile_id).is_none() {
            return Err(LogbookError::ProfileNotFound);
        }
        let (year, month, day, hour, minute, second) = clock_now();
        if year < 0 || year > 9999 {
            return Err(LogbookError::ClockRange);
        }
        let ts = Timestamp { year: year as u32, month, day, hour, minute, second };
        if !ts.is_valid() {
            return Err(LogbookError::ClockRange);
        }
        self.append(ts, call, rsttx, rstrx, band, frequency, mode, power, comments, profile_id)
    }
}

/// What loaded rows must look like: ids strictly increasing with room for
/// the next one, and every timestamp a real moment.
pub open spec fn rows_wf(ps: Seq<OperatorConfigV>, ls: Seq<LogEntryV>) -> bool {
    &&& forall|i: int| 0 <= i < ps.len() - 1 ==> (#[trigger] ps[i]).id < ps[i + 1].id
    &&& ps.len() > 0 ==> ps.last().id < u64::MAX
    &&& forall|i: int| 0 <= i < ls.len() - 1 ==> (#[trigger] ls[i]).id < ls[i + 1].id
    &&& ls.len() > 0 ==> ls.last().id < u64::MAX
    &&& forall|i: int| 0 <= i < ls.len() ==> (#[trigger] ls[i]).timestamp.valid()
}

/// In a chain of strictly increasing profile ids, every earlier id is below
/// every later one.
proof fn lemma_profile_chain(s: Seq<OperatorConfigV>, i: int, j: int)
    requires
        forall|k: int| 0 <= k < s.len() - 1 ==> (#[trigger] s[k]).id < s[k + 1].id,
        0 <= i < j < s.len(),
    ensures
        s[i].id < s[j].id,
    decreases j - i,
{
    if j == i + 1 {
    } else {
        lemma_profile_chain(s, i, j - 1);
    }
}

/// In a chain of strictly increasing entry ids, every earlier id is below
/// every later one.
proof fn lemma_entry_chain(s: Seq<LogEntryV>, i: int, j: int)
    requires
        forall|k: int| 0 <= k < s.len() - 1 ==> (#[trigger] s[k]).id < s[k + 1].id,
        0 <= i < j < s.len(),
    ensures
        s[i].id < s[j].id,
    decreases j - i,
{
    if j == i + 1 {
    } else {
        lemma_entry_chain(s, i, j - 1);
    }
}

impl Store {
    /// Rebuild a store from persisted rows, each table in id order. `None`
    /// exactly when the rows could not have come from a store: ids not
    /// strictly increasing, an id counter already exhausted, or a timestamp
    /// naming no real moment.
    #[verifier::rlimit(50)]
    pub fn restore(profiles: Vec<OperatorConfig>, logs: Vec<LogEntry>) -> (r: Option<Store>)
        ensures
            r matches Some(st) ==> st.wf() && st@.profiles == profile_views(profiles@)
                && st@.logs == entry_views(logs@),
            r is Some <==> rows_wf(profile_views(profiles@), entry_views(logs@)),
    {
        let ghost ps = profile_views(profiles@);
        let ghost ls = entry_views(logs@);
        let np = profiles.len();
        for i in 0..np
            invariant
                np == profiles@.len(),
                ps == profile_views(profiles@),
                forall|k: int| 0 <= k < i - 1 ==> (#[trigger] ps[k]).id < ps[k + 1].id,
        {
            if i > 0 && profiles[i - 1].id >= profiles[i].id {
                proof {
                    assert(ps[i - 1].id >= ps[i as int].id);
                    assert(!rows_wf(ps, ls));
                }
                return None;
            }
        }
        if np > 0 && profiles[np - 1].id == u64::MAX {
            proof {
                assert(ps.last().id == u64::MAX);
                assert(!rows_wf(ps, ls));
            }
            return None;
        }
        let nl = logs.len();
        for i in 0..nl
            invariant
                nl == logs@.len(),
                ls == entry_views(logs@),
                forall|k: int| 0 <= k < i - 1 ==> (#[trigger] ls[k]).id < ls[k + 1].id,
                forall|k: int| 0 <= k < i ==> (#[trigger] ls[k]).timestamp.valid(),
        {
            if i > 0 && logs[i - 1].id >= logs[i].id {
                proof {
                    assert(ls[i - 1].id >= ls[i as int].id);
                    assert(!rows_wf(ps, ls));
                }
                return None;
            }
            if !logs[i].timestamp.is_valid() {
                proof {
                    assert(!ls[i as int].timestamp.valid());
                    assert(!rows_wf(ps, ls));
                }
                return None;
            }
        }
        if nl > 0 && logs[nl - 1].id == u64::MAX {
            proof {
                assert(ls.last().id == u64::MAX);
                assert(!rows_wf(ps, ls));
            }
            return None;
        }
        let next_profile_id = if np > 0 {
            profiles[np - 1].id + 1
        } else {
            1
        };
        let next_log_id = if nl > 0 {
            logs[nl - 1].id + 1
        } else {
            1
        };
        let st = Store { profiles, logs, next_profile_id, next_log_id };
        proof {
            assert forall|i: int, j: int| 0 <= i < j < ps.len() implies (#[trigger] ps[i]).id < (
            #[trigger] ps[j]).id by {
                lemma_profile_chain(ps, i, j);
            };
            assert forall|i: int| 0 <= i < ps.len() implies (#[trigger] ps[i]).id
                < st.next_profile_id by {
                if i < ps.len() - 1 {
                    lemma_profile_chain(ps, i, ps.len() - 1);
                }
            };
            assert forall|i: int, j: int| 0 <= i < j < ls.len() implies (#[trigger] ls[i]).id < (
            #[trigger] ls[j]).id by {
                lemma_entry_chain(ls, i, j);
            };
            assert forall|i: int| 0 <= i < ls.len() implies (#[trigger] ls[i]).id
                < st.next_log_id by {
                if i < ls.len() - 1 {
                    lemma_entry_chain(ls, i, ls.len() - 1);
                }
            };
        }
        Some(st)
    }
}

/// Narrowing either export bound never adds an entry: whatever the narrower
/// export lists, the wider one lists too, and it lists no more entries in
/// all.
pub proof fn lemma_export_monotonic(
    logs: Seq<LogEntryV>,
    profiles: Seq<OperatorConfigV>,
    wide_start: Option<Timestamp>,
    wide_end: Option<Timestamp>,
    narrow_start: Option<Timestamp>,
    narrow_end: Option<Timestamp>,
)
    requires
        wide_start matches Some(b) ==> narrow_start matches Some(n) && n.key() >= b.key(),
        wide_end matches Some(b) ==> narrow_end matches Some(n) && n.key() <= b.key(),
    ensures
        sort_entries(logs).filter(export_filter(profiles, narrow_start, narrow_end)).len()
            <= sort_entries(logs).filter(export_filter(profiles, wide_start, wide_end)).len(),
        forall|e: LogEntryV|
            sort_entries(logs).filter(export_filter(profiles, narrow_start, narrow_end)).contains(
                e,
            ) ==> sort_entries(logs).filter(export_filter(profiles, wide_start, wide_end)).contains(
                e,
            ),
{
    let narrow = export_filter(profiles, narrow_start, narrow_end);
    let wide = export_filter(profiles, wide_start, wide_end);
    assert forall|e: LogEntryV| #[trigger] narrow(e) implies wide(e) by {
        assert(within_bounds(e.timestamp, narrow_start, narrow_end) ==> within_bounds(
            e.timestamp,
            wide_start,
            wide_end,
        ));
    };
    lemma_filter_monotonic(sort_entries(logs), narrow, wide);
}

/// A weaker predicate never keeps more, and everything it keeps the stronger
/// filtering keeps too.
proof fn lemma_filter_monotonic<A>(s: Seq<A>, p: spec_fn(A) -> bool, q: spec_fn(A) -> bool)
    requires
        forall|a: A| #[trigger] p(a) ==> q(a),
    ensures
        s.filter(p).len() <= s.filter(q).len(),
        forall|a: A| s.filter(p).contains(a) ==> s.filter(q).contains(a),
    decreases s.len(),
{
    reveal(Seq::filter);
    if s.len() > 0 {
        lemma_filter_monotonic(s.drop_last(), p, q);
    }
    assert forall|a: A| s.filter(p).contains(a) implies s.filter(q).contains(a) by {
        let i = choose|i: int| 0 <= i < s.filter(p).len() && s.filter(p)[i] == a;
        lemma_filter_origin(s, p, i);
        let k = choose|k: int| 0 <= k < s.len() && s[k] == a;
        s.lemma_filter_pred(p, i);
        s.lemma_filter_contains(q, k);
    };
}

/// Once a profile is deleted, the export lists nothing recorded under it:
/// when no remaining profile carries an id, the join resolves no entry
/// against it, whatever the bounds. After `delete_profile(id)` the remaining
/// profiles are exactly such a sequence.
pub proof fn lemma_deleted_profile_excluded(
    logs: Seq<LogEntryV>,
    remaining: Seq<OperatorConfigV>,
    id: u64,
    sb: Option<Timestamp>,
    eb: Option<Timestamp>,
)
    requires
        forall|i: int| 0 <= i < remaining.len() ==> (#[trigger] remaining[i]).id != id,
    ensures
        forall|k: int|
            0 <= k < sort_entries(logs).filter(export_filter(remaining, sb, eb)).len() ==> (
            #[trigger] sort_entries(logs).filter(export_filter(remaining, sb, eb))[k]).profile_id
                != id,
{
    let kept = sort_entries(logs).filter(export_filter(remaining, sb, eb));
    assert forall|k: int| 0 <= k < kept.len() implies (#[trigger] kept[k]).profile_id != id by {
        sort_entries(logs).lemma_filter_pred(export_filter(remaining, sb, eb), k);
        if kept[k].profile_id == id {
            assert(has_profile(remaining, id));
            lemma_profile_index_in_range(remaining, id);
        }
    };
}

/// Filtering an empty sequence keeps nothing.
proof fn lemma_filter_empty<A>(pred: spec_fn(A) -> bool)
    ensures
        Seq::<A>::empty().filter(pred) == Seq::<A>::empty(),
{
    reveal(Seq::filter);
}

/// Filtering looks at one more element at a time.
proof fn lemma_filter_push<A>(s: Seq<A>, x: A, pred: spec_fn(A) -> bool)
    ensures
        s.push(x).filter(pred) == if pred(x) {
            s.filter(pred).push(x)
        } else {
            s.filter(pred)
        },
{
    reveal(Seq::filter);
    assert(s.push(x).drop_last() =~= s);
}

/// Filtering an id-ascending profile sequence keeps it id-ascending.
proof fn lemma_filter_ascending_ids(
    s: Seq<OperatorConfigV>,
    pred: spec_fn(OperatorConfigV) -> bool,
    a: int,
    b: int,
)
    requires
        forall|i: int, j: int|
            0 <= i < j < s.len() ==> (#[trigger] s[i]).id < (#[trigger] s[j]).id,
        0 <= a < b < s.filter(pred).len(),
    ensures
        s.filter(pred)[a].id < s.filter(pred)[b].id,
    decreases s.len(),
{
    reveal(Seq::filter);
    let f = s.filter(pred);
    let d = s.drop_last().filter(pred);
    assert(s.len() > 0);
    assert forall|i: int, j: int|
        0 <= i < j < s.drop_last().len() implies (#[trigger] s.drop_last()[i]).id < (
    #[trigger] s.drop_last()[j]).id by {
        assert(s[i].id < s[j].id);
    };
    if b < d.len() {
        lemma_filter_ascending_ids(s.drop_last(), pred, a, b);
    } else {
        // b names the freshly kept last element
        assert(f[b] == s.last());
        lemma_filter_origin(s.drop_last(), pred, a);
        let k = choose|k: int| 0 <= k < s.drop_last().len() && s.drop_last()[k] == d[a];
        assert(s[k].id < s.last().id);
    }
}

} // verus!
