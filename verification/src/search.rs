use vstd::prelude::*;
use vstd::string::StringExecFns;
use crate::types::{Song, SongView};

verus! {

// ---------------------------------------------------------------------------
// Candidate handling for the track search: the external service returns a
// list of candidate songs; the library keeps the first candidate of each
// (name, artist) identity, decorates it with its key and the requested
// rank slot, and preserves the order of first occurrences.
// ---------------------------------------------------------------------------

/// The candidate at `i` is the first of its (name, artist) identity.
pub open spec fn first_of_pair(songs: Seq<SongView>, i: int) -> bool {
    forall|j: int|
        0 <= j < i ==> !((#[trigger] songs[j]).name == songs[i].name && songs[j].artist
            == songs[i].artist)
}

/// A kept candidate, decorated: the key is name and artist concatenated,
/// the rank is the requested slot.
pub open spec fn decorated(s: SongView, rank: int) -> SongView {
    SongView {
        key: Some(s.name + s.artist),
        name: s.name,
        uri: s.uri,
        artist: s.artist,
        album_cover_url: s.album_cover_url,
        rank: Some(rank),
    }
}

/// The deduplicated tail of the candidate list from index `i` on.
pub open spec fn dedup_from(songs: Seq<SongView>, rank: int, i: int) -> Seq<SongView>
    decreases songs.len() - i,
{
    if i < 0 || i >= songs.len() {
        Seq::empty()
    } else {
        let rest = dedup_from(songs, rank, i + 1);
        if first_of_pair(songs, i) {
            seq![decorated(songs[i], rank)] + rest
        } else {
            rest
        }
    }
}

/// The whole deduplicated candidate list.
pub open spec fn dedup_candidates_m(songs: Seq<SongView>, rank: int) -> Seq<SongView> {
    dedup_from(songs, rank, 0)
}

/// Keeps the first candidate of each (name, artist) identity, in order of
/// first occurrence, each with its key set and the requested rank slot.
pub fn dedup_candidates(candidates: &Vec<Song>, rank: i32) -> (r: Vec<Song>)
    ensures
        r@.map_values(|s: Song| s@) == dedup_candidates_m(
            candidates@.map_values(|s: Song| s@),
            rank as int,
        ),
{
    let ghost cv = candidates@.map_values(|s: Song| s@);
    let n = candidates.len();
    let mut out: Vec<Song> = Vec::new();
    proof {
        assert(out@.map_values(|s: Song| s@) + dedup_from(cv, rank as int, 0) =~= dedup_from(
            cv,
            rank as int,
            0,
        ));
    }
    let mut i: usize = 0;
    while i < n
        invariant
            i <= n,
            n == candidates.len(),
            cv == candidates@.map_values(|s: Song| s@),
            cv.len() == n,
            out@.map_values(|s: Song| s@) + dedup_from(cv, rank as int, i as int)
                == dedup_candidates_m(cv, rank as int),
        decreases n - i,
    {
        proof {
            assert(cv[i as int] == candidates@[i as int]@);
        }
        let mut seen = false;
        let mut j: usize = 0;
        while j < i
            invariant
                j <= i < n,
                n == candidates.len(),
                cv == candidates@.map_values(|s: Song| s@),
                cv.len() == n,
                seen ==> !first_of_pair(cv, i as int),
                !seen ==> forall|k: int|
                    0 <= k < j ==> !((#[trigger] cv[k]).name == cv[i as int].name && cv[k].artist
                        == cv[i as int].artist),
            decreases i - j,
        {
            proof {
                assert(cv[j as int] == candidates@[j as int]@);
            }
            if !seen && candidates[j].name == candidates[i].name && candidates[j].artist
                == candidates[i].artist {
                seen = true;
            }
            j = j + 1;
        }
        if !seen {
            assert(first_of_pair(cv, i as int));
            let mut key = candidates[i].name.clone();
            key.append(candidates[i].artist.as_str());
            let song = Song {
                key: Some(key),
                name: candidates[i].name.clone(),
                uri: candidates[i].uri.clone(),
                artist: candidates[i].artist.clone(),
                album_cover_url: candidates[i].album_cover_url.clone(),
                rank: Some(rank),
            };
            let ghost prev = out@;
            proof {
                assert(song@ =~= decorated(cv[i as int], rank as int));
            }
            out.push(song);
            proof {
                assert(out@.map_values(|s: Song| s@) =~= prev.map_values(|s: Song| s@).push(
                    decorated(cv[i as int], rank as int),
                ));
                assert(prev.map_values(|s: Song| s@).push(decorated(cv[i as int], rank as int))
                    + dedup_from(cv, rank as int, i as int + 1) =~= prev.map_values(|s: Song| s@)
                    + dedup_from(cv, rank as int, i as int));
            }
        } else {
            proof {
                assert(dedup_from(cv, rank as int, i as int) == dedup_from(
                    cv,
                    rank as int,
                    i as int + 1,
                ));
            }
        }
        i = i + 1;
    }
    proof {
        assert(dedup_from(cv, rank as int, n as int) =~= Seq::<SongView>::empty());
        assert(out@.map_values(|s: Song| s@) + Seq::<SongView>::empty() =~= out@.map_values(
            |s: Song| s@,
        ));
    }
    out
}

} // verus!
