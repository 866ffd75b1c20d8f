//! The merge engine: union of strokes by line id, first writer wins.

use vstd::prelude::*;
use vstd::std_specs::iter::IteratorSpec;
use crate::model::{Drawing, Flag, SPos2, SendLines};

verus! {

/// The strokes after `incoming` was merged into `local`: every line of
/// `local` as it stands, and each line of `incoming` whose id `local` lacks.
pub open spec fn merged(
    local: Map<usize, Seq<SPos2>>,
    incoming: Map<usize, Seq<SPos2>>,
) -> Map<usize, Seq<SPos2>> {
    incoming.union_prefer_right(local)
}

/// A client's strokes after it took in the server's `state`.
pub open spec fn applied(own: Map<usize, Seq<SPos2>>, state: Drawing) -> Map<usize, Seq<SPos2>> {
    match state.flag {
        Flag::Clear => Map::empty(),
        Flag::Unset => merged(own, state.lines),
    }
}

/// Merging a batch a second time changes nothing.
pub proof fn lemma_merge_idempotent(state: Map<usize, Seq<SPos2>>, batch: Map<usize, Seq<SPos2>>)
    ensures
        merged(merged(state, batch), batch) == merged(state, batch),
{
    assert(merged(merged(state, batch), batch) =~= merged(state, batch));
}

/// Two batches merged in either order leave the same line ids behind.
pub proof fn lemma_merge_ids_commute(
    state: Map<usize, Seq<SPos2>>,
    first: Map<usize, Seq<SPos2>>,
    second: Map<usize, Seq<SPos2>>,
)
    ensures
        merged(merged(state, first), second).dom() == merged(merged(state, second), first).dom(),
{
    assert(merged(merged(state, first), second).dom() =~= merged(
        merged(state, second),
        first,
    ).dom());
}

/// Two batches merged in either order give the same strokes, where the
/// batches agree on every line id that both hold and the state lacks. (On
/// such an id the batch that is merged first wins, so batches that differ
/// there do not commute.)
pub proof fn lemma_merge_commutes(
    state: Map<usize, Seq<SPos2>>,
    first: Map<usize, Seq<SPos2>>,
    second: Map<usize, Seq<SPos2>>,
)
    requires
        forall|id: usize|
            first.contains_key(id) && second.contains_key(id) && !state.contains_key(id)
                ==> first[id] == second[id],
    ensures
        merged(merged(state, first), second) == merged(merged(state, second), first),
{
    assert(merged(merged(state, first), second) =~= merged(merged(state, second), first));
}

/// First writer wins: a line id that the state holds keeps its stroke,
/// whatever the batch holds under that id.
pub proof fn lemma_first_writer_wins(
    state: Map<usize, Seq<SPos2>>,
    batch: Map<usize, Seq<SPos2>>,
    id: usize,
)
    requires
        state.contains_key(id),
    ensures
        merged(state, batch).contains_key(id),
        merged(state, batch)[id] == state[id],
{
}

/// A merge deletes nothing and adds exactly the batch's new line ids.
pub proof fn lemma_merge_grows(state: Map<usize, Seq<SPos2>>, batch: Map<usize, Seq<SPos2>>)
    ensures
        merged(state, batch).dom() == state.dom().union(batch.dom()),
        forall|id: usize|
            batch.contains_key(id) && !state.contains_key(id) ==> merged(state, batch)[id]
                == batch[id],
{
    assert(merged(state, batch).dom() =~= state.dom().union(batch.dom()));
}

/// `id` is among the first `n` ids of `walk`.
spec fn walked(walk: Seq<(&usize, &Vec<SPos2>)>, n: int, id: usize) -> bool {
    exists|j: int| 0 <= j < n && *(#[trigger] walk[j]).0 == id
}

impl SendLines {
    /// Merges the strokes of `other` into these. A line id that is already
    /// here keeps its stroke; the flag stays as it is.
    pub fn merge(&mut self, other: Self)
        ensures
            final(self)@.lines == merged(old(self)@.lines, other@.lines),
            final(self)@.flag == old(self)@.flag,
    {
        let ghost before = self@.lines;
        let ghost walk = other.lines.iter().remaining();
        let ghost mut done: int = 0;
        for entry in it: other.lines.iter()
            invariant
                it.seq() == walk,
                done == it.index(),
                walk == other.lines.iter().remaining(),
                self.flag == old(self).flag,
                forall|id: usize|
                    self@.lines.contains_key(id) <==> before.contains_key(id) || walked(
                        walk,
                        it.index(),
                        id,
                    ),
                forall|id: usize|
                    self@.lines.contains_key(id) ==> #[trigger] self@.lines[id] == if before.contains_key(
                        id,
                    ) {
                        before[id]
                    } else {
                        other@.lines[id]
                    },
        {
            let (line_id, line) = entry;
            let ghost n = it.index();
            let ghost earlier = self@.lines;
            assert(entry == walk[n]);
            assert(other.lines@.contains_key(*line_id) && other.lines@[*line_id] == *line);
            if !self.lines.contains_key(line_id) {
                let copy = line.clone();
                assert(copy@ =~= line@);
                self.lines.insert(*line_id, copy);
            }
            assert forall|id: usize|
                self@.lines.contains_key(id) <==> before.contains_key(id) || walked(
                    walk,
                    n + 1,
                    id,
                ) by {
                assert(earlier.contains_key(id) <==> before.contains_key(id) || walked(walk, n, id));
                if id == *line_id {
                    assert(*walk[n].0 == id);
                    assert(walked(walk, n + 1, id));
                    assert(self@.lines.contains_key(id));
                } else {
                    assert(self@.lines.contains_key(id) == earlier.contains_key(id));
                    if walked(walk, n + 1, id) {
                        let j = choose|j: int| 0 <= j < n + 1 && *(#[trigger] walk[j]).0 == id;
                        assert(j < n);
                        assert(walked(walk, n, id));
                    }
                    if walked(walk, n, id) {
                        let j = choose|j: int| 0 <= j < n && *(#[trigger] walk[j]).0 == id;
                        assert(0 <= j < n + 1 && *walk[j].0 == id);
                        assert(walked(walk, n + 1, id));
                    }
                }
            }
            proof {
                done = n + 1;
            }
            assert forall|id: usize| self@.lines.contains_key(id) implies #[trigger] self@.lines[id]
                == if before.contains_key(id) {
                before[id]
            } else {
                other@.lines[id]
            } by {
                if id != *line_id {
                    assert(earlier.contains_key(id));
                    assert(self@.lines[id] == earlier[id]);
                }
            }
        }
        assert(done == walk.len());
        assert forall|id: usize| other@.lines.contains_key(id) implies walked(
            walk,
            walk.len() as int,
            id,
        ) by {
            let pair = (&id, &other.lines@[id]);
            assert(walk.contains(pair));
            let j = choose|j: int| 0 <= j < walk.len() && walk[j] == pair;
            assert(*walk[j].0 == id);
        }
        assert forall|id: usize| walked(walk, walk.len() as int, id) implies other@.lines.contains_key(
            id,
        ) by {
            let j = choose|j: int| 0 <= j < walk.len() && *(#[trigger] walk[j]).0 == id;
            assert(other.lines@.contains_key(*walk[j].0));
        }
        let ghost goal = merged(before, other@.lines);
        assert forall|id: usize| self@.lines.contains_key(id) <==> goal.contains_key(id) by {
            assert(self@.lines.contains_key(id) <==> before.contains_key(id) || walked(
                walk,
                done,
                id,
            ));
        }
        assert forall|id: usize| self@.lines.contains_key(id) implies self@.lines[id]
            == goal[id] by {}
        assert(self@.lines =~= goal);
    }

    /// What a client does with the state that the server sent: under the
    /// flag `Clear` it drops its own strokes, otherwise it merges the
    /// server's into them. Its own flag stays as it is.
    pub fn apply_state(&mut self, state: Self)
        ensures
            final(self)@.lines == applied(old(self)@.lines, state@),
            final(self)@.flag == old(self)@.flag,
    {
        match state.flag {
            Flag::Clear => {
                self.lines.clear();
                assert(self@.lines =~= Map::<usize, Seq<SPos2>>::empty());
            },
            Flag::Unset => {
                self.merge(state);
            },
        }
    }
}

} // verus!
