use vstd::prelude::*;
use crate::order::{score_eq, lex_le, spec_ranking_capacity};
use crate::model::{
    StoreModel, EntryModel, store_wf, has_user, find_song, find_slot, find_user, apply_entry_m,
    apply_entries_m, upsert_song_m, get_or_create_m, submit_m, entries_valid,
    entry_valid, lemma_find_song_props, lemma_find_slot_props,
};
use crate::invariants::{
    lemma_apply_entry_wf, lemma_apply_entries_wf, lemma_upsert_song_wf, lemma_get_or_create_wf,
};
use crate::aggregate::{AggRowModel, agg_sorted, agg_le};

verus! {

// ---------------------------------------------------------------------------
// The laws of the store, stated on their own.  Each holds of every
// well-formed store, and every operation's contract says that it keeps the
// store well-formed.
// ---------------------------------------------------------------------------

/// Slot uniqueness: for every user and every rank, at most one ranking row
/// occupies the slot.  Every operation's contract keeps the store
/// well-formed, so this holds after any sequence of submissions.
pub proof fn lemma_slot_uniqueness(m: StoreModel)
    requires
        store_wf(m),
    ensures
        forall|i: int, j: int|
            #![trigger m.rankings[i], m.rankings[j]]
            0 <= i < j < m.rankings.len() ==> !(m.rankings[i].user_id == m.rankings[j].user_id
                && m.rankings[i].rank == m.rankings[j].rank),
{
}

/// Catalog dedup: for every (name, artist) pair, at most one catalog row
/// exists, however many users or submissions reference it; preserved the
/// same way as slot uniqueness.
pub proof fn lemma_catalog_dedup(m: StoreModel)
    requires
        store_wf(m),
    ensures
        forall|i: int, j: int|
            #![trigger m.songs[i], m.songs[j]]
            0 <= i < j < m.songs.len() ==> !(m.songs[i].name == m.songs[j].name
                && m.songs[i].artist == m.songs[j].artist),
{
}

/// Tie-break: in a sorted aggregate, two songs with an equal score stand
/// in order of name ascending.
pub proof fn lemma_tie_break(rows: Seq<AggRowModel>, i: int, j: int)
    requires
        agg_sorted(rows),
        0 <= i < j < rows.len(),
        score_eq(rows[i].count, rows[i].sum, rows[j].count, rows[j].sum),
    ensures
        lex_le(rows[i].name, rows[j].name),
{
    assert(agg_le(rows[i], rows[j]));
}

// ---------------------------------------------------------------------------
// Idempotent replace.  A submission is a sequence of catalog and slot
// upserts, so the state it leaves is the state where, for every pair and
// every rank it names, the last entry naming it has won.  Replaying the
// same submission reproduces exactly that state.
// ---------------------------------------------------------------------------

/// The last entry of the submission naming this (name, artist) pair.
pub open spec fn last_for_pair(es: Seq<EntryModel>, name: Seq<char>, artist: Seq<char>) -> Option<
    EntryModel,
>
    decreases es.len(),
{
    if es.len() == 0 {
        None
    } else {
        match last_for_pair(es.drop_first(), name, artist) {
            Some(e) => Some(e),
            None => if es[0].name == name && es[0].artist == artist {
                Some(es[0])
            } else {
                None
            },
        }
    }
}

/// The last entry of the submission naming this rank slot.
pub open spec fn last_for_rank(es: Seq<EntryModel>, rank: int) -> Option<EntryModel>
    decreases es.len(),
{
    if es.len() == 0 {
        None
    } else {
        match last_for_rank(es.drop_first(), rank) {
            Some(e) => Some(e),
            None => if es[0].rank == rank {
                Some(es[0])
            } else {
                None
            },
        }
    }
}

/// What one submission leaves behind: users untouched; catalog and slot
/// rows keep their identities and positions; every pair and rank the
/// submission names has a row, holding the values of the last entry that
/// named it; everything else is exactly as before.
pub proof fn lemma_apply_entries_post(m: StoreModel, uid: int, es: Seq<EntryModel>)
    requires
        store_wf(m),
        has_user(m.users, uid),
        entries_valid(es),
        m.rankings.len() + es.len() <= spec_ranking_capacity() || forall|k: int|
            0 <= k < es.len() ==> find_slot(m.rankings, uid, (#[trigger] es[k]).rank) is Some,
    ensures
        ({
            let m1 = apply_entries_m(m, uid, es);
            &&& store_wf(m1)
            &&& m1.users == m.users
            &&& m1.next_user_id == m.next_user_id
            &&& m1.songs.len() >= m.songs.len()
            &&& forall|i: int|
                0 <= i < m.songs.len() ==> (#[trigger] m1.songs[i]).id == m.songs[i].id
                    && m1.songs[i].name == m.songs[i].name && m1.songs[i].artist
                    == m.songs[i].artist
            &&& forall|k: int|
                0 <= k < es.len() ==> find_song(
                    m1.songs,
                    (#[trigger] es[k]).name,
                    es[k].artist,
                ) is Some
            &&& (forall|k: int|
                0 <= k < es.len() ==> find_song(
                    m.songs,
                    (#[trigger] es[k]).name,
                    es[k].artist,
                ) is Some) ==> m1.songs.len() == m.songs.len() && m1.next_song_id
                == m.next_song_id
            &&& forall|i: int|
                0 <= i < m1.songs.len() ==> match last_for_pair(
                    es,
                    (#[trigger] m1.songs[i]).name,
                    m1.songs[i].artist,
                ) {
                    Some(e) => m1.songs[i].uri == e.uri && m1.songs[i].album_cover_url
                        == e.album_cover_url,
                    None => i < m.songs.len() && m1.songs[i] == m.songs[i],
                }
            &&& m1.rankings.len() >= m.rankings.len()
            &&& forall|i: int|
                0 <= i < m.rankings.len() ==> (#[trigger] m1.rankings[i]).user_id
                    == m.rankings[i].user_id && m1.rankings[i].rank == m.rankings[i].rank
            &&& forall|k: int|
                0 <= k < es.len() ==> find_slot(m1.rankings, uid, (#[trigger] es[k]).rank) is Some
            &&& (forall|k: int|
                0 <= k < es.len() ==> find_slot(
                    m.rankings,
                    uid,
                    (#[trigger] es[k]).rank,
                ) is Some) ==> m1.rankings.len() == m.rankings.len()
            &&& forall|i: int|
                0 <= i < m1.rankings.len() ==> {
                    let row = #[trigger] m1.rankings[i];
                    if row.user_id == uid && last_for_rank(es, row.rank) is Some {
                        let e = last_for_rank(es, row.rank)->Some_0;
                        &&& find_song(m1.songs, e.name, e.artist) is Some
                        &&& row.song_id == m1.songs[find_song(
                            m1.songs,
                            e.name,
                            e.artist,
                        )->Some_0].id
                    } else {
                        i < m.rankings.len() && m1.rankings[i] == m.rankings[i]
                    }
                }
        }),
    decreases es.len(),
{
    lemma_apply_entries_wf(m, uid, es);
    let m1 = apply_entries_m(m, uid, es);
    if es.len() == 0 {
    } else {
        let e0 = es[0];
        let es1 = es.drop_first();
        assert(entry_valid(e0));
        assert(entries_valid(es1)) by {
            assert forall|i: int| 0 <= i < es1.len() implies entry_valid(#[trigger] es1[i]) by {
                assert(es1[i] == es[i + 1]);
            }
        }
        assert(forall|k: int| 0 <= k < es1.len() ==> #[trigger] es1[k] == es[k + 1]);
        lemma_apply_entry_wf(m, uid, e0);
        lemma_upsert_song_wf(m, e0);
        let ma = apply_entry_m(m, uid, e0);
        let mu = upsert_song_m(m, e0).0;
        let sid0 = upsert_song_m(m, e0).1;
        lemma_find_song_props(m.songs, e0.name, e0.artist);
        lemma_find_slot_props(m.rankings, uid, e0.rank);

        // the one catalog row the entry wrote
        let su: int = if find_song(m.songs, e0.name, e0.artist) is Some {
            find_song(m.songs, e0.name, e0.artist)->Some_0
        } else {
            m.songs.len() as int
        };
        assert(0 <= su < ma.songs.len());
        assert(ma.songs[su].name == e0.name && ma.songs[su].artist == e0.artist
            && ma.songs[su].uri == e0.uri && ma.songs[su].album_cover_url == e0.album_cover_url);
        assert(ma.songs[su].id == sid0);
        assert(forall|i: int|
            0 <= i < ma.songs.len() && i != su ==> i < m.songs.len() && #[trigger] ma.songs[i]
                == m.songs[i]);
        assert(ma.songs.len() <= m.songs.len() + 1);
        lemma_find_song_props(ma.songs, e0.name, e0.artist);
        assert(find_song(ma.songs, e0.name, e0.artist) == Some(su)) by {
            match find_song(ma.songs, e0.name, e0.artist) {
                None => {
                    assert(false);
                },
                Some(j) => {
                    if j != su {
                        assert(ma.songs[j].name == e0.name && ma.songs[j].artist == e0.artist);
                        assert(false);
                    }
                },
            }
        }

        // the one ranking row the entry wrote
        let ru: int = if find_slot(m.rankings, uid, e0.rank) is Some {
            find_slot(m.rankings, uid, e0.rank)->Some_0
        } else {
            m.rankings.len() as int
        };
        assert(mu.rankings == m.rankings);
        assert(0 <= ru < ma.rankings.len());
        assert(ma.rankings[ru].user_id == uid && ma.rankings[ru].rank == e0.rank
            && ma.rankings[ru].song_id == sid0);
        assert(forall|i: int|
            0 <= i < ma.rankings.len() && i != ru ==> i < m.rankings.len()
                && #[trigger] ma.rankings[i] == m.rankings[i]);
        assert(ma.rankings.len() <= m.rankings.len() + 1);

        // the induction hypothesis on the rest of the submission
        if !(ma.rankings.len() + es1.len() <= spec_ranking_capacity()) {
            assert forall|k: int| 0 <= k < es1.len() implies find_slot(
                ma.rankings,
                uid,
                (#[trigger] es1[k]).rank,
            ) is Some by {
                assert(es1[k] == es[k + 1]);
                assert(find_slot(m.rankings, uid, es[k + 1].rank) is Some);
                lemma_find_slot_props(m.rankings, uid, es[k + 1].rank);
                let f = find_slot(m.rankings, uid, es[k + 1].rank)->Some_0;
                assert(ma.rankings[f].user_id == uid && ma.rankings[f].rank == es[k + 1].rank);
                lemma_find_slot_props(ma.rankings, uid, es[k + 1].rank);
                if find_slot(ma.rankings, uid, es[k + 1].rank) is None {
                    assert(false);
                }
            }
        }
        lemma_apply_entries_post(ma, uid, es1);
        assert(m1 == apply_entries_m(ma, uid, es1));
        lemma_apply_entries_wf(ma, uid, es1);

        // catalog: every submitted pair has a row afterwards
        assert forall|k: int| 0 <= k < es.len() implies find_song(
            m1.songs,
            (#[trigger] es[k]).name,
            es[k].artist,
        ) is Some by {
            if k == 0 {
                assert(m1.songs[su].name == e0.name && m1.songs[su].artist == e0.artist);
                lemma_find_song_props(m1.songs, e0.name, e0.artist);
                if find_song(m1.songs, e0.name, e0.artist) is None {
                    assert(false);
                }
            } else {
                assert(es1[k - 1] == es[k]);
            }
        }

        // catalog: a submission over known pairs adds nothing
        if forall|k: int|
            0 <= k < es.len() ==> find_song(m.songs, (#[trigger] es[k]).name, es[k].artist) is Some {
            assert(ma.songs.len() == m.songs.len() && ma.next_song_id == m.next_song_id);
            assert forall|k: int| 0 <= k < es1.len() implies find_song(
                ma.songs,
                (#[trigger] es1[k]).name,
                es1[k].artist,
            ) is Some by {
                assert(es1[k] == es[k + 1]);
                lemma_find_song_props(m.songs, es[k + 1].name, es[k + 1].artist);
                let f = find_song(m.songs, es[k + 1].name, es[k + 1].artist)->Some_0;
                assert(ma.songs[f].name == es[k + 1].name && ma.songs[f].artist == es[k
                    + 1].artist);
                lemma_find_song_props(ma.songs, es[k + 1].name, es[k + 1].artist);
                if find_song(ma.songs, es[k + 1].name, es[k + 1].artist) is None {
                    assert(false);
                }
            }
        }

        // catalog: the last entry naming a pair decides its metadata
        assert forall|i: int| 0 <= i < m1.songs.len() implies match last_for_pair(
            es,
            (#[trigger] m1.songs[i]).name,
            m1.songs[i].artist,
        ) {
            Some(e) => m1.songs[i].uri == e.uri && m1.songs[i].album_cover_url
                == e.album_cover_url,
            None => i < m.songs.len() && m1.songs[i] == m.songs[i],
        } by {
            let nm = m1.songs[i].name;
            let ar = m1.songs[i].artist;
            assert(es.drop_first() == es1);
            match last_for_pair(es1, nm, ar) {
                Some(e) => {},
                None => {
                    if e0.name == nm && e0.artist == ar {
                        // the head entry wrote this row last
                        assert(i < ma.songs.len() && m1.songs[i] == ma.songs[i]);
                        if i != su {
                            assert(ma.songs[i] == m.songs[i]);
                            assert(ma.songs[su].name == nm && ma.songs[su].artist == ar);
                            assert(false);
                        }
                    } else {
                        assert(i < ma.songs.len() && m1.songs[i] == ma.songs[i]);
                        if i == su {
                            assert(false);
                        }
                    }
                },
            }
        }

        // slots: every submitted rank is occupied afterwards
        assert forall|k: int| 0 <= k < es.len() implies find_slot(
            m1.rankings,
            uid,
            (#[trigger] es[k]).rank,
        ) is Some by {
            if k == 0 {
                assert(m1.rankings[ru].user_id == uid && m1.rankings[ru].rank == e0.rank);
                lemma_find_slot_props(m1.rankings, uid, e0.rank);
                if find_slot(m1.rankings, uid, e0.rank) is None {
                    assert(false);
                }
            } else {
                assert(es1[k - 1] == es[k]);
            }
        }

        // slots: a submission over occupied ranks adds nothing
        if forall|k: int|
            0 <= k < es.len() ==> find_slot(m.rankings, uid, (#[trigger] es[k]).rank) is Some {
            assert(ma.rankings.len() == m.rankings.len());
            assert forall|k: int| 0 <= k < es1.len() implies find_slot(
                ma.rankings,
                uid,
                (#[trigger] es1[k]).rank,
            ) is Some by {
                assert(es1[k] == es[k + 1]);
                lemma_find_slot_props(m.rankings, uid, es[k + 1].rank);
                let f = find_slot(m.rankings, uid, es[k + 1].rank)->Some_0;
                assert(ma.rankings[f].user_id == uid && ma.rankings[f].rank == es[k + 1].rank);
                lemma_find_slot_props(ma.rankings, uid, es[k + 1].rank);
                if find_slot(ma.rankings, uid, es[k + 1].rank) is None {
                    assert(false);
                }
            }
        }

        // slots: the last entry naming a rank decides its song
        assert forall|i: int| 0 <= i < m1.rankings.len() implies {
            let row = #[trigger] m1.rankings[i];
            if row.user_id == uid && last_for_rank(es, row.rank) is Some {
                let e = last_for_rank(es, row.rank)->Some_0;
                &&& find_song(m1.songs, e.name, e.artist) is Some
                &&& row.song_id == m1.songs[find_song(m1.songs, e.name, e.artist)->Some_0].id
            } else {
                i < m.rankings.len() && m1.rankings[i] == m.rankings[i]
            }
        } by {
            let row = m1.rankings[i];
            assert(es.drop_first() == es1);
            if row.user_id == uid && last_for_rank(es, row.rank) is Some {
                match last_for_rank(es1, row.rank) {
                    Some(e) => {},
                    None => {
                        // the head entry wrote this slot last
                        assert(last_for_rank(es, row.rank)->Some_0 == e0);
                        assert(row.rank == e0.rank);
                        assert(i < ma.rankings.len() && m1.rankings[i] == ma.rankings[i]);
                        if i != ru {
                            assert(ma.rankings[i] == m.rankings[i]);
                            assert(ma.rankings[ru].user_id == uid && ma.rankings[ru].rank
                                == row.rank);
                            assert(false);
                        }
                        assert(row.song_id == sid0);
                        // the id of the pair the head entry named is stable
                        assert(m1.songs[su].name == e0.name && m1.songs[su].artist == e0.artist
                            && m1.songs[su].id == sid0);
                        lemma_find_song_props(m1.songs, e0.name, e0.artist);
                        match find_song(m1.songs, e0.name, e0.artist) {
                            None => {
                                assert(false);
                            },
                            Some(j) => {
                                if j != su {
                                    assert(m1.songs[j].name == e0.name && m1.songs[j].artist
                                        == e0.artist);
                                    assert(false);
                                }
                            },
                        }
                    },
                }
            } else {
                if row.user_id == uid {
                    // no entry named this rank
                    assert(last_for_rank(es1, row.rank) is None);
                    assert(i < ma.rankings.len() && m1.rankings[i] == ma.rankings[i]);
                    if i == ru {
                        assert(e0.rank == row.rank);
                        assert(false);
                    }
                } else {
                    assert(i < ma.rankings.len() && m1.rankings[i] == ma.rankings[i]);
                    if i == ru {
                        assert(false);
                    }
                }
            }
        }
    }
}

/// Idempotent replace: submitting the same ordered list twice leaves the
/// same catalog and the same ranking rows as submitting it once.  The
/// store must have room for the submission, and the second pass adds
/// nothing: every slot it names is occupied by then.
pub proof fn lemma_submit_idempotent(m: StoreModel, name: Seq<char>, es: Seq<EntryModel>)
    requires
        store_wf(m),
        entries_valid(es),
        m.rankings.len() + es.len() <= spec_ranking_capacity(),
    ensures
        submit_m(submit_m(m, name, es), name, es) == submit_m(m, name, es),
{
    lemma_get_or_create_wf(m, name);
    let (ma, uid) = get_or_create_m(m, name);
    lemma_apply_entries_post(ma, uid, es);
    let r1 = apply_entries_m(ma, uid, es);
    assert(submit_m(m, name, es) == r1);

    // the second pass resolves the same user without creating one
    assert(r1.users == ma.users);
    assert(find_user(r1.users, name) is Some);
    lemma_get_or_create_wf(r1, name);
    assert(get_or_create_m(r1, name).0 == r1);
    let uid2 = get_or_create_m(r1, name).1;
    assert(uid2 == r1.users[find_user(r1.users, name)->Some_0].id);
    assert(uid2 == uid);

    lemma_apply_entries_wf(ma, uid, es);
    assert(ma.rankings == m.rankings);
    assert(r1.rankings.len() <= m.rankings.len() + es.len());
    assert(has_user(r1.users, uid));
    lemma_apply_entries_post(r1, uid, es);
    let r2 = apply_entries_m(r1, uid, es);
    assert(submit_m(submit_m(m, name, es), name, es) == r2);

    // the catalog is reproduced row for row
    assert(r2.songs.len() == r1.songs.len() && r2.next_song_id == r1.next_song_id);
    assert(r2.songs =~= r1.songs) by {
        assert forall|i: int| 0 <= i < r1.songs.len() implies r2.songs[i] == r1.songs[i] by {
            assert(r2.songs[i].id == r1.songs[i].id && r2.songs[i].name == r1.songs[i].name
                && r2.songs[i].artist == r1.songs[i].artist);
            match last_for_pair(es, r1.songs[i].name, r1.songs[i].artist) {
                Some(e) => {
                    assert(r1.songs[i].uri == e.uri && r1.songs[i].album_cover_url
                        == e.album_cover_url);
                    assert(r2.songs[i].uri == e.uri && r2.songs[i].album_cover_url
                        == e.album_cover_url);
                },
                None => {},
            }
        }
    }

    // the ranking rows are reproduced row for row
    assert(r2.rankings.len() == r1.rankings.len());
    assert(r2.rankings =~= r1.rankings) by {
        assert forall|i: int| 0 <= i < r1.rankings.len() implies r2.rankings[i]
            == r1.rankings[i] by {
            let row2 = r2.rankings[i];
            let row1 = r1.rankings[i];
            assert(row2.user_id == row1.user_id && row2.rank == row1.rank);
            if row1.user_id == uid && last_for_rank(es, row1.rank) is Some {
                let e = last_for_rank(es, row1.rank)->Some_0;
                assert(row1.song_id == r1.songs[find_song(r1.songs, e.name, e.artist)->Some_0].id);
                assert(row2.song_id == r2.songs[find_song(r2.songs, e.name, e.artist)->Some_0].id);
                assert(r2.songs == r1.songs);
            }
        }
    }

    assert(r2 =~= r1);
}

} // verus!
