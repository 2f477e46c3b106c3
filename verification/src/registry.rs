//! The registry's mathematical model: the vector of (id, game) entries that
//! the contract stores, read as a finite map from identifiers to games.

use vstd::prelude::*;

verus! {

use crate::game::{Game, GameId};

/// No two entries carry the same identifier.
pub open spec fn keys_distinct(s: Seq<(GameId, Game)>) -> bool {
    forall|i: int, j: int| 0 <= i < j < s.len() ==> s[i].0 != s[j].0
}

/// Some entry carries the identifier `k`.
pub open spec fn has_key(s: Seq<(GameId, Game)>, k: GameId) -> bool {
    exists|i: int| 0 <= i < s.len() && s[i].0 == k
}

/// The position of the entry carrying `k`; meaningful when keys are
/// distinct and `has_key(s, k)` holds.
pub open spec fn idx_of(s: Seq<(GameId, Game)>, k: GameId) -> int {
    choose|i: int| 0 <= i < s.len() && s[i].0 == k
}

/// The entries read as a map from identifier to game.
pub open spec fn map_of(s: Seq<(GameId, Game)>) -> Map<GameId, Game> {
    Map::new(|k: GameId| has_key(s, k), |k: GameId| s[idx_of(s, k)].1)
}

/// With distinct keys, the entry carrying `k` sits at exactly one
/// position, and `idx_of` names it.
pub proof fn lemma_idx_of(s: Seq<(GameId, Game)>, k: GameId)
    requires
        keys_distinct(s),
        has_key(s, k),
    ensures
        0 <= idx_of(s, k) < s.len(),
        s[idx_of(s, k)].0 == k,
        forall|i: int| 0 <= i < s.len() && s[i].0 == k ==> i == idx_of(s, k),
{
    let x = idx_of(s, k);
    assert(0 <= x < s.len() && s[x].0 == k);
    assert forall|i: int| 0 <= i < s.len() && s[i].0 == k implies i == x by {
        if i < x {
            assert(s[i].0 != s[x].0);
        } else if x < i {
            assert(s[x].0 != s[i].0);
        }
    }
}

/// Appending an entry with a fresh key inserts it into the map.
pub proof fn lemma_map_of_push(s: Seq<(GameId, Game)>, k: GameId, g: Game)
    requires
        keys_distinct(s),
        !has_key(s, k),
    ensures
        keys_distinct(s.push((k, g))),
        map_of(s.push((k, g))) == map_of(s).insert(k, g),
{
    let s2 = s.push((k, g));
    assert forall|i: int, j: int| 0 <= i < j < s2.len() implies s2[i].0 != s2[j].0 by {
        if j < s.len() {
            assert(s[i].0 != s[j].0);
        } else {
            if s2[i].0 == k {
                assert(has_key(s, k));
            }
        }
    }
    assert forall|k2: GameId| #[trigger] map_of(s2).contains_key(k2) <==> map_of(s).insert(
        k,
        g,
    ).contains_key(k2) by {
        if k2 == k {
            assert(s2[s.len() as int].0 == k);
            assert(has_key(s2, k));
        } else {
            if has_key(s, k2) {
                let i = idx_of(s, k2);
                lemma_idx_of(s, k2);
                assert(s2[i].0 == k2);
                assert(has_key(s2, k2));
            }
            if has_key(s2, k2) {
                let i = choose|i: int| 0 <= i < s2.len() && s2[i].0 == k2;
                assert(i < s.len());
                assert(s[i].0 == k2);
                assert(has_key(s, k2));
            }
        }
    }
    assert forall|k2: GameId| map_of(s2).contains_key(k2) implies #[trigger] map_of(s2)[k2]
        == map_of(s).insert(k, g)[k2] by {
        lemma_idx_of(s2, k2);
        let i = idx_of(s2, k2);
        if k2 == k {
            assert(s2[s.len() as int].0 == k);
            assert(i == s.len());
        } else {
            assert(i < s.len());
            assert(has_key(s, k2));
            lemma_idx_of(s, k2);
            assert(idx_of(s, k2) == i);
        }
    }
    assert(map_of(s2) =~= map_of(s).insert(k, g));
}

/// Replacing the game of the entry at position `i` updates the map at
/// that entry's key and touches nothing else.
pub proof fn lemma_map_of_update(s: Seq<(GameId, Game)>, i: int, g: Game)
    requires
        keys_distinct(s),
        0 <= i < s.len(),
    ensures
        keys_distinct(s.update(i, (s[i].0, g))),
        map_of(s.update(i, (s[i].0, g))) == map_of(s).insert(s[i].0, g),
{
    let k = s[i].0;
    let s2 = s.update(i, (k, g));
    assert(forall|j: int| 0 <= j < s.len() ==> s2[j].0 == s[j].0);
    assert forall|k2: GameId| has_key(s2, k2) <==> has_key(s, k2) by {
        if has_key(s2, k2) {
            let j = choose|j: int| 0 <= j < s2.len() && s2[j].0 == k2;
            assert(s[j].0 == k2);
        }
        if has_key(s, k2) {
            let j = choose|j: int| 0 <= j < s.len() && s[j].0 == k2;
            assert(s2[j].0 == k2);
        }
    }
    assert forall|k2: GameId| map_of(s2).contains_key(k2) implies #[trigger] map_of(s2)[k2]
        == map_of(s).insert(k, g)[k2] by {
        lemma_idx_of(s2, k2);
        lemma_idx_of(s, k2);
        let j = idx_of(s2, k2);
        assert(s[j].0 == k2);
        assert(idx_of(s, k2) == j);
        if k2 == k {
            assert(j == i);
        } else {
            assert(j != i);
        }
    }
    assert(map_of(s2) =~= map_of(s).insert(k, g));
}

} // verus!
