use vstd::prelude::*;
use crate::order::spec_ranking_capacity;
use crate::model::{
    StoreModel, EntryModel, store_wf, users_wf, songs_wf, rankings_wf, has_user,
    has_song, find_song, find_slot, find_user, upsert_song_m, set_slot_m, apply_entry_m,
    apply_entries_m, get_or_create_m, submit_m, entry_valid, entries_valid,
    lemma_find_song_props, lemma_find_slot_props, lemma_find_user_props,
};

verus! {

// ---------------------------------------------------------------------------
// Every transition preserves the store invariant.  These lemmas also pin
// down which parts of the store a transition can touch, which the
// executable store and the laws both lean on.
// ---------------------------------------------------------------------------

/// A catalog upsert keeps the store well-formed; it touches nothing but
/// the songs and their counter, and the returned identity names a row.
pub proof fn lemma_upsert_song_wf(m: StoreModel, e: EntryModel)
    requires
        store_wf(m),
    ensures
        ({
            let (m1, sid) = upsert_song_m(m, e);
            &&& store_wf(m1)
            &&& m1.users == m.users
            &&& m1.rankings == m.rankings
            &&& m1.next_user_id == m.next_user_id
            &&& m.next_song_id <= m1.next_song_id <= m.next_song_id + 1
            &&& m.songs.len() <= m1.songs.len() <= m.songs.len() + 1
            &&& has_song(m1.songs, sid)
            &&& 1 <= sid < m1.next_song_id
            &&& forall|id: int| has_song(m.songs, id) ==> has_song(m1.songs, id)
        }),
{
    lemma_find_song_props(m.songs, e.name, e.artist);
    let (m1, sid) = upsert_song_m(m, e);
    match find_song(m.songs, e.name, e.artist) {
        Some(i) => {
            assert forall|a: int, b: int| 0 <= a < b < m1.songs.len() implies m1.songs[a].id
                != m1.songs[b].id by {
                assert(m1.songs[a].id == m.songs[a].id);
                assert(m1.songs[b].id == m.songs[b].id);
            }
            assert forall|a: int, b: int| 0 <= a < b < m1.songs.len() implies !(m1.songs[a].name
                == m1.songs[b].name && m1.songs[a].artist == m1.songs[b].artist) by {
                assert(m1.songs[a].name == m.songs[a].name && m1.songs[a].artist
                    == m.songs[a].artist);
                assert(m1.songs[b].name == m.songs[b].name && m1.songs[b].artist
                    == m.songs[b].artist);
            }
            assert forall|k: int| 0 <= k < m1.songs.len() implies 1 <= (#[trigger] m1.songs[k]).id
                < m1.next_song_id by {
                assert(m1.songs[k].id == m.songs[k].id);
            }
            assert forall|id: int| has_song(m.songs, id) implies has_song(m1.songs, id) by {
                let k = choose|k: int| 0 <= k < m.songs.len() && (#[trigger] m.songs[k]).id == id;
                assert(m1.songs[k].id == id);
            }
            assert(m1.songs[i].id == sid);
            assert(has_song(m1.songs, sid));
            assert(rankings_wf(m1));
        },
        None => {
            let n = m.songs.len() as int;
            assert forall|a: int, b: int| 0 <= a < b < m1.songs.len() implies m1.songs[a].id
                != m1.songs[b].id by {
                if b < n {
                    assert(m1.songs[a] == m.songs[a]);
                    assert(m1.songs[b] == m.songs[b]);
                } else {
                    assert(m1.songs[a] == m.songs[a]);
                    assert(m1.songs[b].id == m.next_song_id);
                }
            }
            assert forall|a: int, b: int| 0 <= a < b < m1.songs.len() implies !(m1.songs[a].name
                == m1.songs[b].name && m1.songs[a].artist == m1.songs[b].artist) by {
                if b < n {
                    assert(m1.songs[a] == m.songs[a]);
                    assert(m1.songs[b] == m.songs[b]);
                } else {
                    assert(m1.songs[a] == m.songs[a]);
                    assert(m1.songs[b].name == e.name && m1.songs[b].artist == e.artist);
                }
            }
            assert forall|k: int| 0 <= k < m1.songs.len() implies 1 <= (#[trigger] m1.songs[k]).id
                < m1.next_song_id by {
                if k < n {
                    assert(m1.songs[k] == m.songs[k]);
                }
            }
            assert forall|id: int| has_song(m.songs, id) implies has_song(m1.songs, id) by {
                let k = choose|k: int| 0 <= k < m.songs.len() && (#[trigger] m.songs[k]).id == id;
                assert(m1.songs[k].id == id);
            }
            assert(m1.songs[n].id == sid);
            assert(has_song(m1.songs, sid));
            assert(rankings_wf(m1));
        },
    }
}

/// A slot upsert keeps the store well-formed and touches nothing but the
/// ranking rows.
pub proof fn lemma_set_slot_wf(m: StoreModel, user_id: int, rank: int, song_id: int)
    requires
        store_wf(m),
        has_user(m.users, user_id),
        has_song(m.songs, song_id),
        1 <= rank <= 10,
        m.rankings.len() < spec_ranking_capacity() || find_slot(m.rankings, user_id, rank) is Some,
    ensures
        ({
            let m1 = set_slot_m(m, user_id, rank, song_id);
            &&& store_wf(m1)
            &&& m1.users == m.users
            &&& m1.songs == m.songs
            &&& m1.next_user_id == m.next_user_id
            &&& m1.next_song_id == m.next_song_id
            &&& m.rankings.len() <= m1.rankings.len() <= m.rankings.len() + 1
        }),
{
    lemma_find_slot_props(m.rankings, user_id, rank);
    let m1 = set_slot_m(m, user_id, rank, song_id);
    match find_slot(m.rankings, user_id, rank) {
        Some(i) => {
            assert forall|a: int, b: int| 0 <= a < b < m1.rankings.len() implies !(
            m1.rankings[a].user_id == m1.rankings[b].user_id && m1.rankings[a].rank
                == m1.rankings[b].rank) by {
                assert(m1.rankings[a].user_id == m.rankings[a].user_id && m1.rankings[a].rank
                    == m.rankings[a].rank);
                assert(m1.rankings[b].user_id == m.rankings[b].user_id && m1.rankings[b].rank
                    == m.rankings[b].rank);
            }
            assert forall|k: int| 0 <= k < m1.rankings.len() implies 1 <= (
            #[trigger] m1.rankings[k]).rank <= 10 && has_user(m1.users, m1.rankings[k].user_id)
                && has_song(m1.songs, m1.rankings[k].song_id) by {
                if k != i {
                    assert(m1.rankings[k] == m.rankings[k]);
                }
            }
        },
        None => {
            let n = m.rankings.len() as int;
            assert forall|a: int, b: int| 0 <= a < b < m1.rankings.len() implies !(
            m1.rankings[a].user_id == m1.rankings[b].user_id && m1.rankings[a].rank
                == m1.rankings[b].rank) by {
                if b < n {
                    assert(m1.rankings[a] == m.rankings[a]);
                    assert(m1.rankings[b] == m.rankings[b]);
                } else {
                    assert(m1.rankings[a] == m.rankings[a]);
                    assert(m1.rankings[b].user_id == user_id && m1.rankings[b].rank == rank);
                }
            }
            assert forall|k: int| 0 <= k < m1.rankings.len() implies 1 <= (
            #[trigger] m1.rankings[k]).rank <= 10 && has_user(m1.users, m1.rankings[k].user_id)
                && has_song(m1.songs, m1.rankings[k].song_id) by {
                if k < n {
                    assert(m1.rankings[k] == m.rankings[k]);
                }
            }
        },
    }
}

/// One submission entry keeps the store well-formed and leaves the users
/// alone.
pub proof fn lemma_apply_entry_wf(m: StoreModel, user_id: int, e: EntryModel)
    requires
        store_wf(m),
        has_user(m.users, user_id),
        entry_valid(e),
        m.rankings.len() < spec_ranking_capacity() || find_slot(
            m.rankings,
            user_id,
            e.rank,
        ) is Some,
    ensures
        ({
            let m1 = apply_entry_m(m, user_id, e);
            &&& store_wf(m1)
            &&& m1.users == m.users
            &&& m1.next_user_id == m.next_user_id
            &&& m.next_song_id <= m1.next_song_id <= m.next_song_id + 1
            &&& m.rankings.len() <= m1.rankings.len() <= m.rankings.len() + 1
            &&& forall|u: int, r: int|
                find_slot(m.rankings, u, r) is Some ==> #[trigger] find_slot(
                    m1.rankings,
                    u,
                    r,
                ) is Some
        }),
{
    lemma_upsert_song_wf(m, e);
    let (mu, sid) = upsert_song_m(m, e);
    lemma_set_slot_wf(mu, user_id, e.rank, sid);
    let m1 = apply_entry_m(m, user_id, e);
    assert forall|u: int, r: int| find_slot(m.rankings, u, r) is Some implies #[trigger] find_slot(
        m1.rankings,
        u,
        r,
    ) is Some by {
        lemma_find_slot_props(m.rankings, u, r);
        let f = find_slot(m.rankings, u, r)->Some_0;
        assert(m1.rankings[f].user_id == u && m1.rankings[f].rank == r) by {
            lemma_find_slot_props(mu.rankings, user_id, e.rank);
        }
        lemma_find_slot_props(m1.rankings, u, r);
        if find_slot(m1.rankings, u, r) is None {
            assert(false);
        }
    }
}

/// A whole submission keeps the store well-formed, growing each table by
/// at most one row per entry.
pub proof fn lemma_apply_entries_wf(m: StoreModel, user_id: int, es: Seq<EntryModel>)
    requires
        store_wf(m),
        has_user(m.users, user_id),
        entries_valid(es),
        m.rankings.len() + es.len() <= spec_ranking_capacity() || forall|k: int|
            0 <= k < es.len() ==> find_slot(m.rankings, user_id, (#[trigger] es[k]).rank) is Some,
    ensures
        ({
            let m1 = apply_entries_m(m, user_id, es);
            &&& store_wf(m1)
            &&& m1.users == m.users
            &&& m1.next_user_id == m.next_user_id
            &&& m.next_song_id <= m1.next_song_id <= m.next_song_id + es.len()
            &&& m.rankings.len() <= m1.rankings.len() <= m.rankings.len() + es.len()
        }),
    decreases es.len(),
{
    if es.len() > 0 {
        assert(entry_valid(es[0]));
        lemma_apply_entry_wf(m, user_id, es[0]);
        let ma = apply_entry_m(m, user_id, es[0]);
        let es1 = es.drop_first();
        assert(entries_valid(es1)) by {
            assert forall|i: int| 0 <= i < es1.len() implies entry_valid(#[trigger] es1[i]) by {
                assert(es1[i] == es[i + 1]);
            }
        }
        if !(m.rankings.len() + es.len() <= spec_ranking_capacity()) {
            assert forall|k: int| 0 <= k < es1.len() implies find_slot(
                ma.rankings,
                user_id,
                (#[trigger] es1[k]).rank,
            ) is Some by {
                assert(es1[k] == es[k + 1]);
                assert(find_slot(m.rankings, user_id, es[k + 1].rank) is Some);
            }
        }
        lemma_apply_entries_wf(ma, user_id, es1);
    }
}

/// Resolving a user keeps the store well-formed, touches no songs or
/// rankings, and yields an identity the user table holds, under exactly
/// this name.
pub proof fn lemma_get_or_create_wf(m: StoreModel, name: Seq<char>)
    requires
        store_wf(m),
    ensures
        ({
            let (m1, uid) = get_or_create_m(m, name);
            &&& store_wf(m1)
            &&& has_user(m1.users, uid)
            &&& m1.songs == m.songs
            &&& m1.rankings == m.rankings
            &&& m1.next_song_id == m.next_song_id
            &&& m.next_user_id <= m1.next_user_id <= m.next_user_id + 1
            &&& find_user(m1.users, name) is Some
            &&& uid == m1.users[find_user(m1.users, name)->Some_0].id
        }),
{
    lemma_find_user_props(m.users, name);
    let (m1, uid) = get_or_create_m(m, name);
    match find_user(m.users, name) {
        Some(i) => {
            assert(m.users[i].id == uid);
            assert(has_user(m1.users, uid));
        },
        None => {
            let n = m.users.len() as int;
            assert forall|a: int, b: int|
                #![trigger m1.users[a].id, m1.users[b].id]
                0 <= a < b < m1.users.len() implies m1.users[a].id != m1.users[b].id by {
                if b < n {
                    assert(m1.users[a] == m.users[a]);
                    assert(m1.users[b] == m.users[b]);
                } else {
                    assert(m1.users[a] == m.users[a]);
                    assert(m1.users[b].id == m.next_user_id);
                }
            }
            assert forall|a: int, b: int|
                #![trigger m1.users[a].name, m1.users[b].name]
                0 <= a < b < m1.users.len() implies m1.users[a].name != m1.users[b].name by {
                if b < n {
                    assert(m1.users[a] == m.users[a]);
                    assert(m1.users[b] == m.users[b]);
                } else {
                    assert(m1.users[a] == m.users[a]);
                    assert(m1.users[b].name == name);
                }
            }
            assert forall|k: int| 0 <= k < m1.users.len() implies 1 <= (#[trigger] m1.users[k]).id
                < m1.next_user_id by {
                if k < n {
                    assert(m1.users[k] == m.users[k]);
                }
            }
            assert(m1.users[n].id == uid);
            assert(has_user(m1.users, uid));
            assert forall|k: int| 0 <= k < m1.rankings.len() implies has_user(
                m1.users,
                (#[trigger] m1.rankings[k]).user_id,
            ) by {
                assert(has_user(m.users, m.rankings[k].user_id));
                let w = choose|w: int|
                    0 <= w < m.users.len() && (#[trigger] m.users[w]).id == m.rankings[k].user_id;
                assert(m1.users[w].id == m.rankings[k].user_id);
            }
            assert(rankings_wf(m1));
            // the created user is the first and only row under this name
            lemma_find_user_props(m1.users, name);
            if find_user(m1.users, name) is None {
                assert(m1.users[n].name == name);
                assert(false);
            }
            let f = find_user(m1.users, name)->Some_0;
            if f < n {
                assert(m.users[f] == m1.users[f]);
                assert(false);
            }
            assert(f == n);
        },
    }
}

/// Every submission keeps the store well-formed: with the uniqueness laws
/// this gives slot uniqueness and catalog dedup after any sequence of
/// submissions.
pub proof fn lemma_submit_wf(m: StoreModel, name: Seq<char>, es: Seq<EntryModel>)
    requires
        store_wf(m),
        entries_valid(es),
        m.rankings.len() + es.len() <= spec_ranking_capacity(),
    ensures
        ({
            let m1 = submit_m(m, name, es);
            &&& store_wf(m1)
            &&& m.rankings.len() <= m1.rankings.len() <= m.rankings.len() + es.len()
            &&& m.next_song_id <= m1.next_song_id <= m.next_song_id + es.len()
            &&& m.next_user_id <= m1.next_user_id <= m.next_user_id + 1
        }),
{
    lemma_get_or_create_wf(m, name);
    let (mu, uid) = get_or_create_m(m, name);
    lemma_apply_entries_wf(mu, uid, es);
}

} // verus!
