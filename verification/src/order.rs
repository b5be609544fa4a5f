//! The deterministic orderer: sorts surviving records by the documented
//! collation on country name (case-folded transliterated bytes), breaks ties
//! by original fetch order, and assigns dense zero-based record identifiers.

use vstd::prelude::*;

use crate::country::{AssetsView, CompiledCountryRecord, Country, CountryView, RecordView,
    RenderedFlagAssets, record_views};
use crate::textops::{collation_key, collation_key_of};

verus! {

/// Strict lexicographic order on byte strings.
pub open spec fn lex_lt(a: Seq<u8>, b: Seq<u8>) -> bool
    decreases a.len(),
{
    if b.len() == 0 {
        false
    } else if a.len() == 0 {
        true
    } else if a.first() < b.first() {
        true
    } else if a.first() > b.first() {
        false
    } else {
        lex_lt(a.drop_first(), b.drop_first())
    }
}

/// Decide the strict lexicographic order on byte strings.
pub fn bytes_lex_lt(a: &Vec<u8>, b: &Vec<u8>) -> (r: bool)
    ensures
        r == lex_lt(a@, b@),
{
    let mut i: usize = 0;
    proof {
        assert(a@.skip(0) =~= a@);
        assert(b@.skip(0) =~= b@);
    }
    while i < a.len() && i < b.len()
        invariant
            0 <= i <= a@.len(),
            0 <= i <= b@.len(),
            lex_lt(a@, b@) == lex_lt(a@.skip(i as int), b@.skip(i as int)),
        decreases a@.len() - i,
    {
        let x = a[i];
        let y = b[i];
        if x < y {
            proof {
                assert(a@.skip(i as int).first() == x && b@.skip(i as int).first() == y);
            }
            return true;
        }
        if x > y {
            proof {
                assert(a@.skip(i as int).first() == x && b@.skip(i as int).first() == y);
            }
            return false;
        }
        i = i + 1;
        proof {
            assert(a@.skip(i - 1).first() == x && b@.skip(i - 1).first() == y);
            assert(a@.skip(i - 1).drop_first() =~= a@.skip(i as int));
            assert(b@.skip(i - 1).drop_first() =~= b@.skip(i as int));
        }
    }
    // One side is exhausted: the shorter string comes first.
    let r = a.len() < b.len();
    proof {
        if a@.len() <= i {
            assert(a@.skip(i as int).len() == 0);
        } else {
            assert(b@.skip(i as int).len() == 0);
        }
    }
    r
}

/// One surviving record waiting to be ordered: its collation key, its
/// original fetch position, and its data.
pub struct OrderedEntry {
    pub key: Vec<u8>,
    pub idx: u32,
    pub country: Country,
    pub assets: RenderedFlagAssets,
}

/// Mathematical view of an entry awaiting ordering.
pub ghost struct EntryView {
    pub key: Seq<u8>,
    pub idx: u32,
    pub country: CountryView,
    pub assets: AssetsView,
}

impl View for OrderedEntry {
    type V = EntryView;

    open spec fn view(&self) -> EntryView {
        EntryView { key: self.key@, idx: self.idx, country: self.country@, assets: self.assets@ }
    }
}

/// The canonical order of entries: collation key first, then original fetch
/// position, which is unique, so the order is total and strict.
pub open spec fn entry_lt(a: EntryView, b: EntryView) -> bool {
    lex_lt(a.key, b.key) || (a.key == b.key && a.idx < b.idx)
}

pub open spec fn entry_le(a: EntryView, b: EntryView) -> bool {
    entry_lt(a, b) || (a.key == b.key && a.idx == b.idx)
}

/// Decide the strict canonical order on entries.
fn entry_before(a: &OrderedEntry, b: &OrderedEntry) -> (r: bool)
    ensures
        r == entry_lt(a@, b@),
{
    if bytes_lex_lt(&a.key, &b.key) {
        return true;
    }
    if crate::strutil::bytes_eq(&a.key, &b.key) {
        a.idx < b.idx
    } else {
        false
    }
}

/// Views of a sequence of entries.
pub open spec fn entry_views(s: Seq<OrderedEntry>) -> Seq<EntryView> {
    s.map_values(|e: OrderedEntry| e@)
}

/// Insert an entry into a sequence from the right, stopping at the first
/// element that does not come strictly after it: the insertion step of a
/// stable insertion sort.
pub open spec fn insert_entry(s: Seq<EntryView>, x: EntryView) -> Seq<EntryView>
    decreases s.len(),
{
    if s.len() == 0 {
        seq![x]
    } else if entry_lt(x, s.last()) {
        insert_entry(s.drop_last(), x).push(s.last())
    } else {
        s.push(x)
    }
}

/// The canonical insertion sort of entries: a function of the input
/// sequence, so re-running the orderer on the same input yields the same
/// order.
pub open spec fn sort_entries(s: Seq<EntryView>) -> Seq<EntryView>
    decreases s.len(),
{
    if s.len() == 0 {
        Seq::empty()
    } else {
        insert_entry(sort_entries(s.drop_last()), s.last())
    }
}

proof fn lemma_insert_entry_ensures(s: Seq<EntryView>, x: EntryView)
    requires
        vstd::relations::sorted_by(s, |a: EntryView, b: EntryView| entry_le(a, b)),
    ensures
        vstd::relations::sorted_by(
            insert_entry(s, x),
            |a: EntryView, b: EntryView| entry_le(a, b),
        ),
        insert_entry(s, x).to_multiset() == s.push(x).to_multiset(),
        insert_entry(s, x).len() == s.len() + 1,
    decreases s.len(),
{
    broadcast use vstd::seq_lib::group_to_multiset_ensures;

    let leq = |a: EntryView, b: EntryView| entry_le(a, b);
    if s.len() == 0 {
        assert(insert_entry(s, x) =~= seq![x]);
        assert(seq![x].to_multiset() =~= s.push(x).to_multiset());
    } else if entry_lt(x, s.last()) {
        assert(vstd::relations::sorted_by(s.drop_last(), leq)) by {
            assert forall|i: int, j: int| 0 <= i < j < s.drop_last().len() implies #[trigger] leq(
                s.drop_last()[i],
                s.drop_last()[j],
            ) by {
                assert(leq(s[i], s[j]));
            }
        }
        lemma_insert_entry_ensures(s.drop_last(), x);
        let inner = insert_entry(s.drop_last(), x);
        let res = inner.push(s.last());
        assert forall|i: int, j: int| 0 <= i < j < res.len() implies #[trigger] leq(
            res[i],
            res[j],
        ) by {
            if j < res.len() - 1 {
                assert(leq(inner[i], inner[j]));
            } else {
                assert(inner.to_multiset().contains(res[i])) by {
                    assert(inner[i] == res[i]);
                }
                assert(s.drop_last().push(x).to_multiset().contains(res[i]));
                if exists|k: int| 0 <= k < s.drop_last().len() && s.drop_last()[k] == res[i] {
                    let k = choose|k: int|
                        0 <= k < s.drop_last().len() && s.drop_last()[k] == res[i];
                    assert(leq(s[k], s[s.len() - 1]));
                } else {
                    assert(res[i] == x);
                    lemma_lex_lt_connected_helper(x, s.last());
                }
            }
        }
        assert(res.to_multiset() =~= s.push(x).to_multiset()) by {
            assert(inner.to_multiset() =~= s.drop_last().push(x).to_multiset());
            assert(res.to_multiset() =~= inner.to_multiset().insert(s.last()));
            assert(s.push(x).to_multiset() =~= s.drop_last().push(s.last()).push(
                x,
            ).to_multiset()) by {
                assert(s.drop_last().push(s.last()) =~= s);
            }
            assert(s.drop_last().push(s.last()).push(x).to_multiset() =~= s.drop_last().push(
                x,
            ).push(s.last()).to_multiset()) by {
                assert(s.drop_last().push(s.last()).push(x).to_multiset()
                    =~= s.drop_last().to_multiset().insert(s.last()).insert(x));
                assert(s.drop_last().push(x).push(s.last()).to_multiset()
                    =~= s.drop_last().to_multiset().insert(x).insert(s.last()));
                assert(s.drop_last().to_multiset().insert(s.last()).insert(x)
                    =~= s.drop_last().to_multiset().insert(x).insert(s.last()));
            }
        }
    } else {
        let res = s.push(x);
        assert forall|i: int, j: int| 0 <= i < j < res.len() implies #[trigger] leq(
            res[i],
            res[j],
        ) by {
            if j < res.len() - 1 {
                assert(leq(s[i], s[j]));
            } else {
                lemma_lex_lt_connected_helper(x, s.last());
                if i < s.len() - 1 {
                    assert(leq(s[i], s[s.len() - 1]));
                    lemma_entry_le_transitive(s[i], s[s.len() - 1], x);
                }
            }
        }
    }
}

/// The entry order relates every pair of entries one way or the other.
proof fn lemma_lex_lt_connected_helper(x: EntryView, y: EntryView)
    ensures
        entry_lt(x, y) || entry_le(y, x),
{
    lemma_lex_lt_connected(x.key, y.key);
}

/// Lexicographic byte order is connected: for any two strings, one is
/// strictly below the other or they are equal.
pub proof fn lemma_lex_lt_connected(a: Seq<u8>, b: Seq<u8>)
    ensures
        lex_lt(a, b) || lex_lt(b, a) || a == b,
    decreases a.len(),
{
    if b.len() == 0 {
        if a.len() == 0 {
            assert(a =~= b);
        }
    } else if a.len() == 0 {
    } else if a.first() == b.first() {
        lemma_lex_lt_connected(a.drop_first(), b.drop_first());
        if !lex_lt(a, b) && !lex_lt(b, a) {
            assert(a.drop_first() =~= b.drop_first());
            assert(a =~= b) by {
                assert forall|i: int| 0 <= i < a.len() implies a[i] == b[i] by {
                    if i > 0 {
                        assert(a.drop_first()[i - 1] == a[i]);
                        assert(b.drop_first()[i - 1] == b[i]);
                    }
                }
            }
        }
    }
}

/// Lexicographic byte order is irreflexive.
pub proof fn lemma_lex_lt_irreflexive(a: Seq<u8>)
    ensures
        !lex_lt(a, a),
    decreases a.len(),
{
    if a.len() > 0 {
        lemma_lex_lt_irreflexive(a.drop_first());
    }
}

/// Lexicographic byte order is transitive.
pub proof fn lemma_lex_lt_transitive(a: Seq<u8>, b: Seq<u8>, c: Seq<u8>)
    requires
        lex_lt(a, b),
        lex_lt(b, c),
    ensures
        lex_lt(a, c),
    decreases a.len() + b.len() + c.len(),
{
    if b.len() == 0 {
    } else if a.len() == 0 {
        assert(c.len() > 0);
    } else {
        assert(c.len() > 0);
        if a.first() == c.first() {
            assert(a.first() == b.first() && b.first() == c.first());
            lemma_lex_lt_transitive(a.drop_first(), b.drop_first(), c.drop_first());
        }
    }
}

/// The entry order is transitive.
pub proof fn lemma_entry_le_transitive(a: EntryView, b: EntryView, c: EntryView)
    requires
        entry_le(a, b),
        entry_le(b, c),
    ensures
        entry_le(a, c),
{
    if lex_lt(a.key, b.key) && lex_lt(b.key, c.key) {
        lemma_lex_lt_transitive(a.key, b.key, c.key);
    }
}

/// The canonical sort is sorted and preserves the multiset of entries.
pub proof fn lemma_sort_entries_ensures(s: Seq<EntryView>)
    ensures
        vstd::relations::sorted_by(sort_entries(s), |a: EntryView, b: EntryView| entry_le(a, b)),
        sort_entries(s).to_multiset() == s.to_multiset(),
        sort_entries(s).len() == s.len(),
    decreases s.len(),
{
    broadcast use vstd::seq_lib::group_to_multiset_ensures;

    if s.len() == 0 {
    } else {
        lemma_sort_entries_ensures(s.drop_last());
        lemma_insert_entry_ensures(sort_entries(s.drop_last()), s.last());
        assert(s.drop_last().push(s.last()) =~= s);
        assert(sort_entries(s.drop_last()).push(s.last()).to_multiset() =~= sort_entries(
            s.drop_last(),
        ).to_multiset().insert(s.last()));
        assert(s.to_multiset() =~= s.drop_last().to_multiset().insert(s.last()));
    }
}

/// Helper: when every element from position `j` on comes strictly after `x`
/// and the element before `j` (if any) does not, inserting `x` lands exactly
/// at position `j`.
proof fn lemma_insert_entry_at(s: Seq<EntryView>, x: EntryView, j: int)
    requires
        0 <= j <= s.len(),
        forall|m: int| j <= m < s.len() ==> entry_lt(x, #[trigger] s[m]),
        j > 0 ==> !entry_lt(x, s[j - 1]),
    ensures
        insert_entry(s, x) == s.take(j).push(x) + s.skip(j),
    decreases s.len(),
{
    if j == s.len() {
        if s.len() == 0 {
            assert(insert_entry(s, x) =~= s.take(j).push(x) + s.skip(j));
        } else {
            assert(insert_entry(s, x) =~= s.push(x));
            assert(s.take(j) =~= s);
            assert(s.skip(j) =~= Seq::<EntryView>::empty());
            assert(s.push(x) =~= s.take(j).push(x) + s.skip(j));
        }
    } else {
        assert(entry_lt(x, s.last()));
        lemma_insert_entry_at(s.drop_last(), x, j);
        assert(s.drop_last().take(j) =~= s.take(j));
        assert(insert_entry(s, x) =~= (s.drop_last().take(j).push(x) + s.drop_last().skip(
            j,
        )).push(s.last()));
        assert((s.take(j).push(x) + s.drop_last().skip(j)).push(s.last()) =~= s.take(j).push(x)
            + s.skip(j));
    }
}

/// Position from the right at which the canonical insert places `x`.
fn entry_insert_pos(out: &Vec<OrderedEntry>, x: &OrderedEntry) -> (j: usize)
    ensures
        0 <= j <= out@.len(),
        forall|m: int| j <= m < out@.len() ==> entry_lt(x@, #[trigger] entry_views(out@)[m]),
        j > 0 ==> !entry_lt(x@, entry_views(out@)[j - 1]),
{
    let mut j: usize = out.len();
    while j > 0
        invariant
            0 <= j <= out@.len(),
            forall|m: int| j <= m < out@.len() ==> entry_lt(x@, #[trigger] entry_views(out@)[m]),
        decreases j,
    {
        if entry_before(x, &out[j - 1]) {
            proof {
                assert(entry_views(out@)[j - 1] == out@[j - 1]@);
            }
            j = j - 1;
        } else {
            proof {
                assert(entry_views(out@)[j - 1] == out@[j - 1]@);
            }
            return j;
        }
    }
    j
}

/// Sort entries into the canonical order: ascending collation key, ties
/// broken by original fetch position.
pub fn sort_by_collation(entries: Vec<OrderedEntry>) -> (sorted: Vec<OrderedEntry>)
    ensures
        entry_views(sorted@) == sort_entries(entry_views(entries@)),
        vstd::relations::sorted_by(
            entry_views(sorted@),
            |a: EntryView, b: EntryView| entry_le(a, b),
        ),
        entry_views(sorted@).to_multiset() == entry_views(entries@).to_multiset(),
        sorted@.len() == entries@.len(),
{
    proof {
        lemma_sort_entries_ensures(entry_views(entries@));
    }
    let ghost evs = entry_views(entries@);
    let mut rest = entries;
    let total = rest.len();
    let mut out: Vec<OrderedEntry> = Vec::new();
    let mut i: usize = 0;
    proof {
        assert(evs.len() == total);
        assert(entry_views(out@) =~= sort_entries(evs.take(0)));
        assert(entry_views(rest@) =~= evs.skip(0));
    }
    while rest.len() > 0
        invariant
            0 <= i <= evs.len(),
            evs.len() <= usize::MAX,
            evs.len() == i + rest@.len(),
            entry_views(out@) == sort_entries(evs.take(i as int)),
            entry_views(rest@) == evs.skip(i as int),
        decreases rest@.len(),
    {
        let ghost out_old = entry_views(out@);
        let ghost rest_old = rest@;
        let x = rest.remove(0);
        proof {
            assert(entry_views(rest_old)[0] == rest_old[0]@);
            assert(evs.skip(i as int)[0] == evs[i as int]);
            assert(x@ == evs[i as int]);
            assert(rest@ =~= rest_old.skip(1));
        }
        let j = entry_insert_pos(&out, &x);
        proof {
            lemma_insert_entry_at(entry_views(out@), x@, j as int);
        }
        out.insert(j, x);
        i = i + 1;
        proof {
            assert forall|m: int| 0 <= m < out@.len() implies entry_views(out@)[m] == (
            out_old.take(j as int).push(evs[i - 1]) + out_old.skip(j as int))[m] by {
                assert(entry_views(out@)[m] == out@[m]@);
            }
            assert(entry_views(out@) =~= out_old.take(j as int).push(evs[i - 1]) + out_old.skip(
                j as int,
            ));
            let prev = evs.take(i - 1);
            let cur = evs.take(i as int);
            assert(cur.drop_last() =~= prev);
            assert(cur.last() == evs[i - 1]);
            assert(sort_entries(cur) == insert_entry(sort_entries(prev), evs[i - 1]));
            assert forall|m: int| 0 <= m < rest@.len() implies entry_views(rest@)[m] == evs.skip(
                i as int,
            )[m] by {
                assert(entry_views(rest@)[m] == rest@[m]@);
                assert(rest@[m] == rest_old.skip(1)[m]);
                assert(rest_old.skip(1)[m] == rest_old[m + 1]);
                assert(entry_views(rest_old)[m + 1] == rest_old[m + 1]@);
                assert(entry_views(rest_old)[m + 1] == evs.skip(i - 1)[m + 1]);
                assert(evs.skip(i - 1)[m + 1] == evs[i + m]);
                assert(evs.skip(i as int)[m] == evs[i + m]);
            }
            assert(entry_views(rest@) =~= evs.skip(i as int));
        }
    }
    proof {
        assert(evs.take(evs.len() as int) =~= evs);
    }
    out
}

/// Dense identifiers in canonical order: the compiled records of a sorted
/// entry sequence.
pub open spec fn compiled_of(s: Seq<EntryView>) -> Seq<RecordView> {
    Seq::new(s.len(), |i: int| RecordView {
        country: s[i].country,
        assets: s[i].assets,
        record_id: i as u32,
    })
}

/// The canonical ordering of surviving records, as record views: sort the
/// entries, then assign each its position.
pub open spec fn ordering_spec(s: Seq<EntryView>) -> Seq<RecordView> {
    compiled_of(sort_entries(s))
}

/// Attach collation keys and fetch positions to surviving records.
pub fn make_entries(pairs: Vec<(Country, RenderedFlagAssets)>) -> (entries: Vec<OrderedEntry>)
    requires
        pairs@.len() < 0x1_0000_0000,
    ensures
        entries@.len() == pairs@.len(),
        forall|i: int| 0 <= i < pairs@.len() ==> #[trigger] entry_views(entries@)[i] == (EntryView {
            key: collation_key_of(pairs@[i].0@.name),
            idx: i as u32,
            country: pairs@[i].0@,
            assets: pairs@[i].1@,
        }),
{
    let mut rest = pairs;
    let mut out: Vec<OrderedEntry> = Vec::new();
    let ghost pvs = rest@;
    let mut i: usize = 0;
    while rest.len() > 0
        invariant
            0 <= i <= pvs.len(),
            pvs.len() < 0x1_0000_0000,
            pvs.len() == i + rest@.len(),
            rest@ == pvs.skip(i as int),
            out@.len() == i,
            forall|m: int| 0 <= m < i ==> #[trigger] entry_views(out@)[m] == (EntryView {
                key: collation_key_of(pvs[m].0@.name),
                idx: m as u32,
                country: pvs[m].0@,
                assets: pvs[m].1@,
            }),
        decreases rest@.len(),
    {
        let ghost rest_old = rest@;
        let ghost out_old = out@;
        let (country, assets) = rest.remove(0);
        proof {
            assert(pvs.skip(i as int)[0] == pvs[i as int]);
            assert(country == pvs[i as int].0 && assets == pvs[i as int].1);
            assert(rest@ =~= rest_old.skip(1));
        }
        let key = collation_key(country.country_name.common.as_str());
        out.push(OrderedEntry { key, idx: i as u32, country, assets });
        i = i + 1;
        proof {
            assert forall|m: int| 0 <= m < rest@.len() implies rest@[m] == pvs.skip(
                i as int,
            )[m] by {
                assert(rest@[m] == rest_old.skip(1)[m]);
                assert(rest_old.skip(1)[m] == rest_old[m + 1]);
                assert(rest_old[m + 1] == pvs.skip(i - 1)[m + 1]);
                assert(pvs.skip(i - 1)[m + 1] == pvs[i + m]);
                assert(pvs.skip(i as int)[m] == pvs[i + m]);
            }
            assert(rest@ =~= pvs.skip(i as int));
            assert(out@[i - 1]@ == (EntryView {
                key: collation_key_of(pvs[i - 1].0@.name),
                idx: (i - 1) as u32,
                country: pvs[i - 1].0@,
                assets: pvs[i - 1].1@,
            }));
            assert forall|m: int| 0 <= m < i implies #[trigger] entry_views(out@)[m] == (EntryView {
                key: collation_key_of(pvs[m].0@.name),
                idx: m as u32,
                country: pvs[m].0@,
                assets: pvs[m].1@,
            }) by {
                assert(entry_views(out@)[m] == out@[m]@);
                if m < i - 1 {
                    assert(out@[m] == out_old[m]);
                    assert(entry_views(out_old)[m] == out_old[m]@);
                }
            }
        }
    }
    out
}

/// Assign each sorted entry its dense zero-based record identifier.
pub fn assign_ids(sorted: Vec<OrderedEntry>) -> (records: Vec<CompiledCountryRecord>)
    requires
        sorted@.len() < 0x1_0000_0000,
    ensures
        record_views(records@) == compiled_of(entry_views(sorted@)),
        records@.len() == sorted@.len(),
{
    let ghost evs = entry_views(sorted@);
    let mut rest = sorted;
    let mut out: Vec<CompiledCountryRecord> = Vec::new();
    let mut i: usize = 0;
    while rest.len() > 0
        invariant
            0 <= i <= evs.len(),
            evs.len() < 0x1_0000_0000,
            evs.len() == i + rest@.len(),
            entry_views(rest@) == evs.skip(i as int),
            out@.len() == i,
            forall|m: int| 0 <= m < i ==> #[trigger] record_views(out@)[m] == compiled_of(evs)[m],
        decreases rest@.len(),
    {
        let ghost rest_old = rest@;
        let ghost out_old = out@;
        let e = rest.remove(0);
        proof {
            assert(entry_views(rest_old)[0] == rest_old[0]@);
            assert(evs.skip(i as int)[0] == evs[i as int]);
            assert(e@ == evs[i as int]);
            assert(rest@ =~= rest_old.skip(1));
        }
        out.push(CompiledCountryRecord {
            country: e.country,
            assets: e.assets,
            record_id: i as u32,
        });
        i = i + 1;
        proof {
            assert forall|m: int| 0 <= m < rest@.len() implies entry_views(rest@)[m] == evs.skip(
                i as int,
            )[m] by {
                assert(entry_views(rest@)[m] == rest@[m]@);
                assert(rest@[m] == rest_old.skip(1)[m]);
                assert(rest_old.skip(1)[m] == rest_old[m + 1]);
                assert(entry_views(rest_old)[m + 1] == rest_old[m + 1]@);
                assert(entry_views(rest_old)[m + 1] == evs.skip(i - 1)[m + 1]);
                assert(evs.skip(i - 1)[m + 1] == evs[i + m]);
                assert(evs.skip(i as int)[m] == evs[i + m]);
            }
            assert(entry_views(rest@) =~= evs.skip(i as int));
            assert(out@[i - 1]@ == (RecordView {
                country: evs[i - 1].country,
                assets: evs[i - 1].assets,
                record_id: (i - 1) as u32,
            }));
            assert(compiled_of(evs)[i - 1] == (RecordView {
                country: evs[i - 1].country,
                assets: evs[i - 1].assets,
                record_id: (i - 1) as u32,
            }));
            assert forall|m: int| 0 <= m < i implies #[trigger] record_views(out@)[m]
                == compiled_of(evs)[m] by {
                assert(record_views(out@)[m] == out@[m]@);
                if m < i - 1 {
                    assert(out@[m] == out_old[m]);
                    assert(record_views(out_old)[m] == out_old[m]@);
                }
            }
        }
    }
    proof {
        assert(record_views(out@) =~= compiled_of(evs));
    }
    out
}

/// Record identifiers assigned by the orderer are exactly the dense
/// positions `0 .. N`, with no gaps and no duplicates.
pub proof fn lemma_ordering_contiguous(s: Seq<EntryView>)
    requires
        s.len() < 0x1_0000_0000,
    ensures
        ordering_spec(s).len() == s.len(),
        forall|i: int| 0 <= i < s.len() ==> (#[trigger] ordering_spec(s)[i].record_id) as int == i,
{
    lemma_sort_entries_ensures(s);
}

/// The canonical order is the only sorted arrangement: any two sequences
/// that are sorted by the entry order, hold the same entries, and never
/// repeat a fetch position are equal.  Re-running the orderer on an
/// unchanged input set therefore reproduces the identical ordering and the
/// identical identifier assignment.
pub proof fn lemma_ordering_unique(x: Seq<EntryView>, y: Seq<EntryView>)
    requires
        vstd::relations::sorted_by(x, |a: EntryView, b: EntryView| entry_le(a, b)),
        vstd::relations::sorted_by(y, |a: EntryView, b: EntryView| entry_le(a, b)),
        x.to_multiset() == y.to_multiset(),
        forall|i: int, j: int| 0 <= i < j < x.len() ==> (#[trigger] x[i]).idx != (
        #[trigger] x[j]).idx,
    ensures
        x == y,
    decreases x.len(),
{
    broadcast use vstd::seq_lib::group_to_multiset_ensures;
    broadcast use vstd::multiset::group_multiset_axioms;

    if x.len() == 0 {
        assert(x.to_multiset().len() == 0);
        assert(y.to_multiset().len() == 0);
        assert(x =~= y);
    } else {
        assert(x.to_multiset().contains(x[0]));
        assert(y.to_multiset().contains(x[0]));
        assert(x.to_multiset().contains(y[0]));
        let i = choose|i: int| 0 <= i < x.len() && x[i] == y[0];
        let leq = |a: EntryView, b: EntryView| entry_le(a, b);
        if i > 0 {
            assert(leq(x[0], x[i]));
        }
        let j = choose|j: int| 0 <= j < y.len() && y[j] == x[0];
        if j > 0 {
            assert(leq(y[0], y[j]));
        }
        // x[0] <= y[0] and y[0] <= x[0], so their keys and positions agree;
        // positions are unique within x, so they are the same entry.
        assert(leq(x[0], y[0]) && leq(y[0], x[0]));
        assert(x[0].key == y[0].key && x[0].idx == y[0].idx) by {
            lemma_lex_lt_irreflexive(x[0].key);
            if lex_lt(x[0].key, y[0].key) && lex_lt(y[0].key, x[0].key) {
                lemma_lex_lt_transitive(x[0].key, y[0].key, x[0].key);
            }
        }
        assert(x[0] == y[0]) by {
            if i > 0 {
                assert(leq(x[0], x[i]) && x[i] == y[0]);
                assert(x[0].idx != x[i].idx);
                lemma_lex_lt_irreflexive(x[0].key);
            }
        }
        vstd::seq_lib::to_multiset_remove(x, 0);
        vstd::seq_lib::to_multiset_remove(y, 0);
        assert(x.drop_first() =~= x.remove(0));
        assert(y.drop_first() =~= y.remove(0));
        assert(x.drop_first().to_multiset() =~= x.to_multiset().remove(x[0]));
        assert(y.drop_first().to_multiset() =~= y.to_multiset().remove(y[0]));
        assert(vstd::relations::sorted_by(x.drop_first(), leq)) by {
            assert forall|a: int, b: int| 0 <= a < b < x.drop_first().len() implies #[trigger] leq(
                x.drop_first()[a],
                x.drop_first()[b],
            ) by {
                assert(leq(x[a + 1], x[b + 1]));
            }
        }
        assert(vstd::relations::sorted_by(y.drop_first(), leq)) by {
            assert forall|a: int, b: int| 0 <= a < b < y.drop_first().len() implies #[trigger] leq(
                y.drop_first()[a],
                y.drop_first()[b],
            ) by {
                assert(leq(y[a + 1], y[b + 1]));
            }
        }
        assert(forall|a: int, b: int|
            0 <= a < b < x.drop_first().len() ==> (#[trigger] x.drop_first()[a]).idx != (
            #[trigger] x.drop_first()[b]).idx) by {
            assert forall|a: int, b: int|
                0 <= a < b < x.drop_first().len() implies (#[trigger] x.drop_first()[a]).idx != (
            #[trigger] x.drop_first()[b]).idx by {
                assert(x[a + 1].idx != x[b + 1].idx);
            }
        }
        lemma_ordering_unique(x.drop_first(), y.drop_first());
        assert(x =~= y) by {
            assert forall|m: int| 0 <= m < x.len() implies x[m] == y[m] by {
                if m > 0 {
                    assert(x.drop_first()[m - 1] == x[m]);
                    assert(y.drop_first()[m - 1] == y[m]);
                }
            }
        }
    }
}

} // verus!
