use vstd::prelude::*;
use vstd::seq_lib::group_to_multiset_ensures;
use vstd::seq_lib::to_multiset_update;
use crate::order::{
    lex_le, str_lex_le, score_lt, score_eq, score_cross, score_input,
    lemma_lex_le_total, lemma_lex_le_trans, lemma_score_lt_trans, lemma_score_lt_trans_left,
    lemma_score_eq_trans,
};
use crate::model::{StoreModel, RankingRowModel};

verus! {

// ---------------------------------------------------------------------------
// The aggregate: group all ranking rows by song, score each song, and
// order by score descending with ties broken by name ascending.
// ---------------------------------------------------------------------------

/// One scored song of the aggregate.
pub struct AggRow {
    pub uri: String,
    pub name: String,
    pub count: u64,
    pub sum: u64,
}

/// Ghost image of an `AggRow`.
#[verifier::ext_equal]
pub struct AggRowModel {
    pub uri: Seq<char>,
    pub name: Seq<char>,
    pub count: int,
    pub sum: int,
}

impl View for AggRow {
    type V = AggRowModel;

    open spec fn view(&self) -> AggRowModel {
        AggRowModel {
            uri: self.uri@,
            name: self.name@,
            count: self.count as int,
            sum: self.sum as int,
        }
    }
}

pub open spec fn rows_view(rows: Seq<AggRow>) -> Seq<AggRowModel> {
    rows.map_values(|a: AggRow| a@)
}

/// A row the store can produce: at least one ranking, within capacity,
/// ranks between 1 and 10.
pub open spec fn agg_valid(a: AggRowModel) -> bool {
    score_input(a.count, a.sum)
}

/// `a` comes no later than `b` in the aggregate: a strictly higher score,
/// or an equal score and a name lexicographically no greater.
pub open spec fn agg_le(a: AggRowModel, b: AggRowModel) -> bool {
    ||| score_lt(b.count, b.sum, a.count, a.sum)
    ||| (score_eq(a.count, a.sum, b.count, b.sum) && lex_le(a.name, b.name))
}

pub open spec fn agg_sorted(s: Seq<AggRowModel>) -> bool {
    forall|i: int, j: int| 0 <= i < j < s.len() ==> agg_le(#[trigger] s[i], #[trigger] s[j])
}

pub proof fn lemma_agg_le_total(a: AggRowModel, b: AggRowModel)
    requires
        agg_valid(a),
        agg_valid(b),
    ensures
        agg_le(a, b) || agg_le(b, a),
{
    lemma_lex_le_total(a.name, b.name);
}

pub proof fn lemma_agg_le_trans(a: AggRowModel, b: AggRowModel, c: AggRowModel)
    requires
        agg_valid(a),
        agg_valid(b),
        agg_valid(c),
        agg_le(a, b),
        agg_le(b, c),
    ensures
        agg_le(a, c),
{
    if score_lt(b.count, b.sum, a.count, a.sum) {
        if score_lt(c.count, c.sum, b.count, b.sum) {
            lemma_score_lt_trans(c.count, c.sum, b.count, b.sum, a.count, a.sum);
        } else {
            // the scores of b and c are equal
            lemma_score_lt_trans_left(c.count, c.sum, b.count, b.sum, a.count, a.sum);
        }
    } else {
        // the scores of a and b are equal
        if score_lt(c.count, c.sum, b.count, b.sum) {
            lemma_score_lt_trans(c.count, c.sum, b.count, b.sum, a.count, a.sum);
        } else {
            lemma_score_eq_trans(a.count, a.sum, b.count, b.sum, c.count, c.sum);
            lemma_lex_le_trans(a.name, b.name, c.name);
        }
    }
}

/// Compares two aggregate rows.
fn agg_le_exec(a: &AggRow, b: &AggRow) -> (r: bool)
    requires
        agg_valid(a@),
        agg_valid(b@),
    ensures
        r == agg_le(a@, b@),
{
    let (pa, pb) = score_cross(a.count, a.sum, b.count, b.sum);
    if pb < pa {
        true
    } else if pa < pb {
        false
    } else {
        str_lex_le(a.name.as_str(), b.name.as_str())
    }
}

// ---------------------------------------------------------------------------
// Sorting by insertion, preserving the multiset of rows.
// ---------------------------------------------------------------------------

proof fn lemma_swap_multiset<A>(s: Seq<A>, i: int, j: int)
    requires
        0 <= i < j < s.len(),
    ensures
        s.update(i, s[j]).update(j, s[i]).to_multiset() == s.to_multiset(),
{
    broadcast use group_to_multiset_ensures;
    broadcast use to_multiset_update;

    let s1 = s.update(i, s[j]);
    let s2 = s1.update(j, s[i]);
    assert(s.contains(s[i]));
    assert(s.contains(s[j]));
    assert(s1[j] == s[j]);
    assert(s1.to_multiset() =~= s.to_multiset().insert(s[j]).remove(s[i]));
    assert(s2.to_multiset() =~= s1.to_multiset().insert(s[i]).remove(s1[j]));
    assert(s2.to_multiset() =~= s.to_multiset());
}

/// Sorts the rows: score descending, ties by name ascending.
pub(crate) fn sort_rows(v: &mut Vec<AggRow>)
    requires
        forall|k: int| 0 <= k < old(v)@.len() ==> agg_valid(#[trigger] rows_view(old(v)@)[k]),
    ensures
        final(v)@.len() == old(v)@.len(),
        rows_view(final(v)@).to_multiset() == rows_view(old(v)@).to_multiset(),
        agg_sorted(rows_view(final(v)@)),
        forall|k: int| 0 <= k < final(v)@.len() ==> agg_valid(#[trigger] rows_view(final(v)@)[k]),
{
    let n = v.len();
    if n <= 1 {
        return;
    }
    let ghost orig = rows_view(old(v)@);
    let mut i: usize = 1;
    while i < n
        invariant
            1 <= i <= n,
            n == v.len(),
            forall|k: int| 0 <= k < n ==> agg_valid(#[trigger] rows_view(v@)[k]),
            rows_view(v@).to_multiset() == orig.to_multiset(),
            forall|a: int, b: int|
                0 <= a < b < i ==> agg_le(
                    #[trigger] rows_view(v@)[a],
                    #[trigger] rows_view(v@)[b],
                ),
        decreases n - i,
    {
        let mut j: usize = i;
        loop
            invariant
                0 <= j <= i < n,
                n == v.len(),
                forall|k: int| 0 <= k < n ==> agg_valid(#[trigger] rows_view(v@)[k]),
                rows_view(v@).to_multiset() == orig.to_multiset(),
                forall|a: int, b: int|
                    0 <= a < b <= i && b != j ==> agg_le(
                        #[trigger] rows_view(v@)[a],
                        #[trigger] rows_view(v@)[b],
                    ),
            ensures
                n == v.len(),
                forall|k: int| 0 <= k < n ==> agg_valid(#[trigger] rows_view(v@)[k]),
                rows_view(v@).to_multiset() == orig.to_multiset(),
                forall|a: int, b: int|
                    0 <= a < b <= i ==> agg_le(
                        #[trigger] rows_view(v@)[a],
                        #[trigger] rows_view(v@)[b],
                    ),
            decreases j,
        {
            if j == 0 {
                break;
            }
            proof {
                assert(rows_view(v@)[j as int - 1] == v@[j as int - 1]@);
                assert(rows_view(v@)[j as int] == v@[j as int]@);
            }
            if agg_le_exec(&v[j - 1], &v[j]) {
                proof {
                    let rv = rows_view(v@);
                    assert forall|a: int, b: int| 0 <= a < b <= i implies agg_le(
                        #[trigger] rv[a],
                        #[trigger] rv[b],
                    ) by {
                        if b == j && a < j - 1 {
                            assert(agg_le(rv[a], rv[j as int - 1]));
                            lemma_agg_le_trans(rv[a], rv[j as int - 1], rv[j as int]);
                        }
                    }
                }
                break;
            }
            let ghost pre = rows_view(v@);
            let x = v.remove(j);
            v.insert(j - 1, x);
            proof {
                let rv = rows_view(v@);
                assert(rv =~= pre.update(j - 1, pre[j as int]).update(j as int, pre[j - 1]));
                lemma_swap_multiset(pre, j - 1, j as int);
                lemma_agg_le_total(pre[j - 1], pre[j as int]);
                assert forall|a: int, b: int| 0 <= a < b <= i && b != j - 1 implies agg_le(
                    #[trigger] rv[a],
                    #[trigger] rv[b],
                ) by {
                    if b == j {
                        if a < j - 1 {
                            assert(rv[a] == pre[a] && rv[b] == pre[j - 1]);
                            assert(agg_le(pre[a], pre[j - 1]));
                        } else {
                            assert(rv[a] == pre[j as int] && rv[b] == pre[j - 1]);
                        }
                    } else if b > j {
                        if a == j - 1 {
                            assert(rv[a] == pre[j as int] && rv[b] == pre[b]);
                            assert(agg_le(pre[j as int], pre[b]));
                        } else if a == j {
                            assert(rv[a] == pre[j - 1] && rv[b] == pre[b]);
                            assert(agg_le(pre[j - 1], pre[b]));
                        } else {
                            assert(rv[a] == pre[a] && rv[b] == pre[b]);
                        }
                    } else {
                        assert(rv[a] == pre[a] && rv[b] == pre[b]);
                    }
                }
            }
            j = j - 1;
        }
        i = i + 1;
    }
}

// ---------------------------------------------------------------------------
// Grouping: the count and rank sum of each song's ranking rows.
// ---------------------------------------------------------------------------

/// How many ranking rows point at this song.
pub open spec fn count_for(rankings: Seq<RankingRowModel>, song_id: int) -> int
    decreases rankings.len(),
{
    if rankings.len() == 0 {
        0
    } else {
        (if rankings[0].song_id == song_id {
            1int
        } else {
            0int
        }) + count_for(rankings.drop_first(), song_id)
    }
}

/// The sum of the ranks this song was given.
pub open spec fn sum_for(rankings: Seq<RankingRowModel>, song_id: int) -> int
    decreases rankings.len(),
{
    if rankings.len() == 0 {
        0
    } else {
        (if rankings[0].song_id == song_id {
            rankings[0].rank
        } else {
            0int
        }) + sum_for(rankings.drop_first(), song_id)
    }
}

pub(crate) proof fn lemma_count_sum_bounds(rankings: Seq<RankingRowModel>, song_id: int)
    requires
        forall|i: int| 0 <= i < rankings.len() ==> 1 <= (#[trigger] rankings[i]).rank <= 10,
    ensures
        0 <= count_for(rankings, song_id) <= rankings.len(),
        count_for(rankings, song_id) <= sum_for(rankings, song_id) <= 10 * count_for(
            rankings,
            song_id,
        ),
    decreases rankings.len(),
{
    if rankings.len() > 0 {
        assert(forall|i: int|
            0 <= i < rankings.drop_first().len() ==> rankings.drop_first()[i]
                == #[trigger] rankings[i + 1]);
        lemma_count_sum_bounds(rankings.drop_first(), song_id);
    }
}

// ---------------------------------------------------------------------------
// The rows of the aggregate, in catalog order: every song with at least
// one ranking, with its count and sum.
// ---------------------------------------------------------------------------

pub open spec fn agg_rows_from(m: StoreModel, i: int) -> Seq<AggRowModel>
    decreases m.songs.len() - i,
{
    if i < 0 || i >= m.songs.len() {
        Seq::empty()
    } else {
        let c = count_for(m.rankings, m.songs[i].id);
        let rest = agg_rows_from(m, i + 1);
        if c > 0 {
            seq![
                AggRowModel {
                    uri: m.songs[i].uri,
                    name: m.songs[i].name,
                    count: c,
                    sum: sum_for(m.rankings, m.songs[i].id),
                }
            ] + rest
        } else {
            rest
        }
    }
}

/// The unsorted aggregate rows of the store.
pub open spec fn agg_rows_m(m: StoreModel) -> Seq<AggRowModel> {
    agg_rows_from(m, 0)
}

pub(crate) proof fn lemma_agg_rows_empty(m: StoreModel, i: int)
    requires
        m.rankings.len() == 0,
    ensures
        agg_rows_from(m, i).len() == 0,
    decreases m.songs.len() - i,
{
    if 0 <= i < m.songs.len() {
        lemma_agg_rows_empty(m, i + 1);
    }
}

/// The aggregate output: some ordering of the scored songs that is sorted
/// by score descending, ties by name ascending, projected to the uris.
pub open spec fn is_global_order(m: StoreModel, out: Seq<Seq<char>>) -> bool {
    exists|rows: Seq<AggRowModel>|
        {
            &&& #[trigger] rows.to_multiset() == agg_rows_m(m).to_multiset()
            &&& agg_sorted(rows)
            &&& out == rows.map_values(|a: AggRowModel| a.uri)
        }
}

} // verus!
