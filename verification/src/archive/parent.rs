//! Parent windows and the chunks in them.

use crate::error::Error;
use crate::text::order::{le, lt, text_lt};
use crate::text::same;
use crate::text::split::views;
use crate::types::ParentChunk;
use vstd::prelude::*;

verus! {

/// A chunk in a parent window.
#[derive(Debug, Clone)]
pub struct ChildRow {
    pub parent_id: String,
    pub chunk_id: String,
}

/// The place of the last window with the given id before `n`, or -1.
pub open spec fn window_index(windows: Seq<ParentChunk>, id: Seq<char>, n: int) -> int
    decreases n,
{
    if n <= 0 {
        -1
    } else if windows[n - 1].parent_id@ == id {
        n - 1
    } else {
        window_index(windows, id, n - 1)
    }
}

/// The chunk ids of `children` that belong to the window at place `at`, in order.
pub open spec fn children_of(
    windows: Seq<ParentChunk>,
    children: Seq<ChildRow>,
    at: int,
) -> Seq<Seq<char>>
    decreases children.len(),
{
    if children.len() == 0 {
        seq![]
    } else {
        let front = children_of(windows, children.drop_last(), at);
        let row = children.last();
        if window_index(windows, row.parent_id@, windows.len() as int) == at {
            front.push(row.chunk_id@)
        } else {
            front
        }
    }
}

/// Whether every child belongs to a window.
pub open spec fn all_owned(windows: Seq<ParentChunk>, children: Seq<ChildRow>) -> bool {
    forall|i: int|
        0 <= i < children.len() ==> window_index(
            windows,
            (#[trigger] children[i]).parent_id@,
            windows.len() as int,
        ) >= 0
}

/// Whether `after` is `before` but for the list of chunks.
pub open spec fn same_window(before: ParentChunk, after: ParentChunk) -> bool {
    &&& after.parent_id == before.parent_id
    &&& after.chat_id == before.chat_id
    &&& after.chat_name == before.chat_name
    &&& after.started_at == before.started_at
    &&& after.ended_at == before.ended_at
    &&& after.text == before.text
    &&& after.message_count == before.message_count
}

/// Whether `after` holds the windows of `before`, each with the children of `rows` appended.
pub open spec fn with_children(
    before: Seq<ParentChunk>,
    after: Seq<ParentChunk>,
    rows: Seq<ChildRow>,
) -> bool {
    &&& after.len() == before.len()
    &&& forall|i: int|
        0 <= i < after.len() ==> same_window(before[i], #[trigger] after[i]) && views(
            after[i].child_chunk_ids@,
        ) == views(before[i].child_chunk_ids@) + children_of(before, rows, i)
}

/// Exec form of [`window_index`].
fn find_window(windows: &Vec<ParentChunk>, id: &str) -> (r: Option<usize>)
    ensures
        match r {
            Some(i) => i < windows@.len() && window_index(windows@, id@, windows@.len() as int)
                == i,
            None => window_index(windows@, id@, windows@.len() as int) == -1,
        },
{
    let mut n: usize = windows.len();
    while n > 0
        invariant
            n <= windows@.len(),
            window_index(windows@, id@, windows@.len() as int) == window_index(
                windows@,
                id@,
                n as int,
            ),
        decreases n,
    {
        if same(windows[n - 1].parent_id.as_str(), id) {
            return Some(n - 1);
        }
        n = n - 1;
    }
    None
}

/// The place of a window depends on the ids alone.
proof fn lemma_window_index_ids(a: Seq<ParentChunk>, b: Seq<ParentChunk>, id: Seq<char>, n: int)
    requires
        a.len() == b.len(),
        forall|i: int| 0 <= i < a.len() ==> (#[trigger] a[i]).parent_id == b[i].parent_id,
        n <= a.len(),
    ensures
        window_index(a, id, n) == window_index(b, id, n),
    decreases n,
{
    if n > 0 {
        assert(a[n - 1].parent_id == b[n - 1].parent_id);
        lemma_window_index_ids(a, b, id, n - 1);
    }
}

/// Appends each child to its window, in order. A child whose window is missing
/// ends the work: those before it stay appended.
pub fn attach_parent_children(parents: &mut Vec<ParentChunk>, children: &[ChildRow]) -> (r: Result<
    (),
    Error,
>)
    ensures
        match r {
            Ok(_) => all_owned(old(parents)@, children@) && with_children(
                old(parents)@,
                final(parents)@,
                children@,
            ),
            Err(error) => exists|k: int|
                0 <= k < children@.len() && all_owned(old(parents)@, #[trigger] children@.take(k))
                    && window_index(
                    old(parents)@,
                    children@[k].parent_id@,
                    old(parents)@.len() as int,
                ) == -1 && error is MissingChunk && error->MissingChunk_0@
                    == children@[k].parent_id@ && with_children(
                    old(parents)@,
                    final(parents)@,
                    children@.take(k),
                ),
        },
{
    let ghost before = parents@;
    proof {
        assert forall|i: int| 0 <= i < before.len() implies same_window(
            before[i],
            #[trigger] before[i],
        ) && views(before[i].child_chunk_ids@) == views(before[i].child_chunk_ids@) + children_of(
            before,
            children@.take(0),
            i,
        ) by {
            assert(children_of(before, children@.take(0), i) =~= Seq::<Seq<char>>::empty());
            assert(views(before[i].child_chunk_ids@) + Seq::<Seq<char>>::empty() =~= views(
                before[i].child_chunk_ids@,
            ));
        }
    }
    for k in 0..children.len()
        invariant
            before == old(parents)@,
            all_owned(before, children@.take(k as int)),
            with_children(before, parents@, children@.take(k as int)),
    {
        let row: &ChildRow = &children[k];
        let ghost seen = children@.take(k as int);
        let ghost now = children@.take(k + 1);
        proof {
            assert(now.drop_last() =~= seen);
            assert(now.last() == *row);
            assert forall|i: int| 0 <= i < before.len() implies (#[trigger] before[i]).parent_id
                == parents@[i].parent_id by {
                assert(same_window(before[i], parents@[i]));
            }
            lemma_window_index_ids(before, parents@, row.parent_id@, before.len() as int);
        }
        let at: usize = match find_window(parents, row.parent_id.as_str()) {
            Some(at) => at,
            None => {
                return Err(Error::MissingChunk(row.parent_id.clone()));
            },
        };
        let ghost held = parents@;
        let child = row.chunk_id.clone();
        let ghost child_view = child@;
        parents[at].child_chunk_ids.push(child);
        proof {
            assert forall|i: int| 0 <= i < parents@.len() implies same_window(
                before[i],
                #[trigger] parents@[i],
            ) && views(parents@[i].child_chunk_ids@) == views(before[i].child_chunk_ids@)
                + children_of(before, now, i) by {
                assert(same_window(before[i], held[i]));
                if i == at {
                    assert(views(parents@[i].child_chunk_ids@) =~= views(
                        held[i].child_chunk_ids@,
                    ).push(child_view));
                    assert(views(before[i].child_chunk_ids@) + children_of(
                        before,
                        seen,
                        i,
                    ).push(child_view) =~= (views(before[i].child_chunk_ids@) + children_of(
                        before,
                        seen,
                        i,
                    )).push(child_view));
                } else {
                    assert(parents@[i] == held[i]);
                }
            }
            assert forall|i: int| 0 <= i < now.len() implies window_index(
                before,
                (#[trigger] now[i]).parent_id@,
                before.len() as int,
            ) >= 0 by {
                if i < seen.len() {
                    assert(now[i] == seen[i]);
                }
            }
        }
    }
    proof {
        assert(children@.take(children@.len() as int) =~= children@);
    }
    Ok(())
}

/// Which neighbour of a chunk is wanted.
#[derive(Debug, Clone, Copy, PartialEq, Eq, Structural)]
pub enum Neighbor {
    Previous,
    Next,
}

/// Where a chunk stands in its chat.
#[derive(Debug, Clone)]
pub struct ChunkKey {
    pub chat_id: String,
    pub started_at: String,
    pub chunk_id: String,
}

/// Whether `a` stands before `b`: by start, then by id.
pub open spec fn stands_before(a: ChunkKey, b: ChunkKey) -> bool {
    lt(a.started_at@, b.started_at@) || (a.started_at@ == b.started_at@ && lt(
        a.chunk_id@,
        b.chunk_id@,
    ))
}

/// Whether `a` lies on the wanted side of `chunk`, in its chat.
pub open spec fn on_side(chunk: ChunkKey, a: ChunkKey, side: Neighbor) -> bool {
    a.chat_id@ == chunk.chat_id@ && match side {
        Neighbor::Previous => stands_before(a, chunk),
        Neighbor::Next => stands_before(chunk, a),
    }
}

/// Whether `a` is closer to `chunk` than `b`, both on the wanted side.
pub open spec fn closer(a: ChunkKey, b: ChunkKey, side: Neighbor) -> bool {
    match side {
        Neighbor::Previous => stands_before(b, a),
        Neighbor::Next => stands_before(a, b),
    }
}

/// Exec form of [`stands_before`].
fn is_before(a: &ChunkKey, b: &ChunkKey) -> (r: bool)
    ensures
        r == stands_before(*a, *b),
{
    text_lt(a.started_at.as_str(), b.started_at.as_str()) || (same(
        a.started_at.as_str(),
        b.started_at.as_str(),
    ) && text_lt(a.chunk_id.as_str(), b.chunk_id.as_str()))
}

/// The order of chunks is transitive.
proof fn lemma_stands_before_transitive(a: ChunkKey, b: ChunkKey, c: ChunkKey)
    requires
        stands_before(a, b),
        !stands_before(c, b),
    ensures
        !stands_before(c, a),
{
    broadcast use {lemma_order_total, lemma_order_transitive};

    if stands_before(c, a) {
        crate::text::order::lemma_le_total(a.started_at@, b.started_at@);
        crate::text::order::lemma_le_total(c.started_at@, a.started_at@);
        crate::text::order::lemma_le_total(c.started_at@, b.started_at@);
        crate::text::order::lemma_le_total(a.chunk_id@, b.chunk_id@);
        crate::text::order::lemma_le_total(c.chunk_id@, a.chunk_id@);
        crate::text::order::lemma_le_total(c.chunk_id@, b.chunk_id@);
        if le(b.started_at@, c.started_at@) {
            if le(c.started_at@, a.started_at@) {
                crate::text::order::lemma_le_transitive(
                    b.started_at@,
                    c.started_at@,
                    a.started_at@,
                );
                if le(a.started_at@, b.started_at@) {
                    crate::text::order::lemma_le_antisymmetric(a.started_at@, b.started_at@);
                    crate::text::order::lemma_le_antisymmetric(a.started_at@, c.started_at@);
                }
            }
        }
        if le(b.chunk_id@, c.chunk_id@) && le(c.chunk_id@, a.chunk_id@) {
            crate::text::order::lemma_le_transitive(b.chunk_id@, c.chunk_id@, a.chunk_id@);
        }
    }
}

broadcast proof fn lemma_order_total(a: Seq<char>, b: Seq<char>)
    ensures
        #[trigger] le(a, b) || le(b, a),
{
    crate::text::order::lemma_le_total(a, b);
}

broadcast proof fn lemma_order_transitive(a: Seq<char>, b: Seq<char>, c: Seq<char>)
    requires
        #[trigger] le(a, b),
        #[trigger] le(b, c),
    ensures
        le(a, c),
{
    crate::text::order::lemma_le_transitive(a, b, c);
}

/// The place of the neighbour of `chunk` on the wanted side among `chunks`.
pub fn neighbor_chunk(chunk: &ChunkKey, chunks: &[ChunkKey], side: Neighbor) -> (r: Option<usize>)
    ensures
        match r {
            Some(i) => i < chunks@.len() && on_side(*chunk, chunks@[i as int], side) && (forall|
                k: int,
            |
                0 <= k < chunks@.len() && on_side(*chunk, #[trigger] chunks@[k], side)
                    ==> !closer(chunks@[k], chunks@[i as int], side)),
            None => forall|k: int|
                0 <= k < chunks@.len() ==> !on_side(*chunk, #[trigger] chunks@[k], side),
        },
{
    let mut best: Option<usize> = None;
    for i in 0..chunks.len()
        invariant
            match best {
                Some(b) => b < i && on_side(*chunk, chunks@[b as int], side) && (forall|k: int|
                    0 <= k < i && on_side(*chunk, #[trigger] chunks@[k], side) ==> !closer(
                        chunks@[k],
                        chunks@[b as int],
                        side,
                    )),
                None => forall|k: int|
                    0 <= k < i ==> !on_side(*chunk, #[trigger] chunks@[k], side),
            },
    {
        let candidate: &ChunkKey = &chunks[i];
        let fits = same(candidate.chat_id.as_str(), chunk.chat_id.as_str()) && match side {
            Neighbor::Previous => is_before(candidate, chunk),
            Neighbor::Next => is_before(chunk, candidate),
        };
        proof {
            lemma_not_before_itself(*candidate);
        }
        if fits {
            let better = match best {
                None => true,
                Some(b) => match side {
                    Neighbor::Previous => is_before(&chunks[b], candidate),
                    Neighbor::Next => is_before(candidate, &chunks[b]),
                },
            };
            if better {
                proof {
                    if let Some(b) = best {
                        assert forall|k: int| 0 <= k < i && on_side(
                            *chunk,
                            #[trigger] chunks@[k],
                            side,
                        ) implies !closer(chunks@[k], *candidate, side) by {
                            if side == Neighbor::Previous {
                                lemma_before_through(chunks@[k], chunks@[b as int], *candidate);
                            } else {
                                lemma_stands_before_transitive(
                                    *candidate,
                                    chunks@[b as int],
                                    chunks@[k],
                                );
                            }
                        }
                    }
                }
                best = Some(i);
            }
        }
    }
    best
}

proof fn lemma_not_before_itself(a: ChunkKey)
    ensures
        !stands_before(a, a),
{
    crate::text::order::lemma_le_refl(a.started_at@);
    crate::text::order::lemma_le_refl(a.chunk_id@);
}

proof fn lemma_before_through(k: ChunkKey, b: ChunkKey, c: ChunkKey)
    requires
        !stands_before(b, k),
        stands_before(b, c),
    ensures
        !stands_before(c, k),
{
    if stands_before(c, k) {
        lemma_stands_before_transitive(c, k, b);
    }
}

// ---------------------------------------------------------------------------
// Laws
// ---------------------------------------------------------------------------

proof fn lemma_window_index(windows: Seq<ParentChunk>, id: Seq<char>, n: int)
    requires
        0 <= n <= windows.len(),
    ensures
        -1 <= window_index(windows, id, n) < n || n == 0 && window_index(windows, id, n) == -1,
        window_index(windows, id, n) >= 0 ==> windows[window_index(windows, id, n)].parent_id@
            == id,
        forall|i: int|
            window_index(windows, id, n) < i < n ==> (#[trigger] windows[i]).parent_id@ != id,
    decreases n,
{
    if n > 0 && windows[n - 1].parent_id@ != id {
        lemma_window_index(windows, id, n - 1);
    }
}

/// A chunk goes to the window that it names, behind those that came before it,
/// and to no other.
pub proof fn law_a_chunk_goes_to_its_window(
    windows: Seq<ParentChunk>,
    children: Seq<ChildRow>,
    row: ChildRow,
    at: int,
)
    requires
        0 <= at < windows.len(),
        forall|i: int, j: int|
            0 <= i < windows.len() && 0 <= j < windows.len() && (#[trigger] windows[i]).parent_id@
                == (#[trigger] windows[j]).parent_id@ ==> i == j,
    ensures
        row.parent_id@ == windows[at].parent_id@ ==> children_of(windows, children.push(row), at)
            == children_of(windows, children, at).push(row.chunk_id@),
        row.parent_id@ != windows[at].parent_id@ ==> children_of(windows, children.push(row), at)
            == children_of(windows, children, at),
        children_of(windows, seq![], at).len() == 0,
{
    assert(children.push(row).drop_last() =~= children);
    let n = windows.len() as int;
    lemma_window_index(windows, row.parent_id@, n);
    let k = window_index(windows, row.parent_id@, n);
    if k >= 0 {
        assert(windows[k].parent_id@ == row.parent_id@);
    } else if row.parent_id@ == windows[at].parent_id@ {
        assert(windows[at].parent_id@ != row.parent_id@);
    }
}

/// Getting its chunks changes nothing else about a window.
pub proof fn law_a_window_keeps_its_text(
    before: Seq<ParentChunk>,
    after: Seq<ParentChunk>,
    rows: Seq<ChildRow>,
    i: int,
)
    requires
        with_children(before, after, rows),
        0 <= i < before.len(),
    ensures
        after.len() == before.len(),
        after[i].text@ == before[i].text@,
        after[i].parent_id@ == before[i].parent_id@,
        after[i].chat_id@ == before[i].chat_id@,
        after[i].chat_name@ == before[i].chat_name@,
        after[i].started_at@ == before[i].started_at@,
        after[i].ended_at@ == before[i].ended_at@,
        after[i].message_count == before[i].message_count,
{
    assert(same_window(before[i], after[i]));
}

/// A neighbour is of the same chat: the previous one starts no later, the next
/// one no earlier, and neither is the chunk itself.
pub proof fn law_neighbours_are_of_one_chat(chunk: ChunkKey, a: ChunkKey, side: Neighbor)
    requires
        on_side(chunk, a, side),
    ensures
        a.chat_id@ == chunk.chat_id@,
        side == Neighbor::Previous ==> !lt(chunk.started_at@, a.started_at@),
        side == Neighbor::Next ==> !lt(a.started_at@, chunk.started_at@),
        a.started_at@ != chunk.started_at@ || a.chunk_id@ != chunk.chunk_id@,
{
    crate::text::order::lemma_le_total(a.started_at@, chunk.started_at@);
    crate::text::order::lemma_le_refl(a.started_at@);
    crate::text::order::lemma_le_refl(a.chunk_id@);
}

/// Any two chunks of a chat that are not the same are on one side of each other
/// or the other, by their start; and of two on a side the closer one is that
/// which starts between.
pub proof fn law_chunks_of_a_chat_are_in_line(chunk: ChunkKey, a: ChunkKey, b: ChunkKey)
    requires
        a.chat_id@ == chunk.chat_id@,
    ensures
        lt(a.started_at@, chunk.started_at@) ==> on_side(chunk, a, Neighbor::Previous) && !on_side(
            chunk,
            a,
            Neighbor::Next,
        ),
        lt(chunk.started_at@, a.started_at@) ==> on_side(chunk, a, Neighbor::Next) && !on_side(
            chunk,
            a,
            Neighbor::Previous,
        ),
        lt(a.started_at@, b.started_at@) ==> closer(b, a, Neighbor::Previous) && closer(
            a,
            b,
            Neighbor::Next,
        ),
{
    crate::text::order::lemma_le_total(a.started_at@, chunk.started_at@);
    crate::text::order::lemma_le_refl(a.started_at@);
}

/// Of two chunks of a chat that start at once the one with the lesser id comes
/// first.
pub proof fn law_ids_part_chunks_that_start_at_once(chunk: ChunkKey, a: ChunkKey)
    requires
        a.chat_id@ == chunk.chat_id@,
        a.started_at@ == chunk.started_at@,
    ensures
        on_side(chunk, a, Neighbor::Previous) <==> lt(a.chunk_id@, chunk.chunk_id@),
        on_side(chunk, a, Neighbor::Next) <==> lt(chunk.chunk_id@, a.chunk_id@),
        closer(a, chunk, Neighbor::Next) <==> lt(a.chunk_id@, chunk.chunk_id@),
        closer(a, chunk, Neighbor::Previous) <==> lt(chunk.chunk_id@, a.chunk_id@),
{
    crate::text::order::lemma_le_refl(a.started_at@);
}

/// Whether there is a window of the given id.
pub open spec fn has_window(windows: Seq<ParentChunk>, id: Seq<char>) -> bool {
    exists|k: int| 0 <= k < windows.len() && (#[trigger] windows[k]).parent_id@ == id
}

/// Every chunk belongs to a window exactly where each names one that there is.
pub proof fn law_chunks_need_their_windows(windows: Seq<ParentChunk>, children: Seq<ChildRow>)
    ensures
        all_owned(windows, children) <==> forall|i: int|
            0 <= i < children.len() ==> has_window(windows, (#[trigger] children[i]).parent_id@),
{
    let n = windows.len() as int;
    assert forall|i: int| 0 <= i < children.len() implies (window_index(
        windows,
        (#[trigger] children[i]).parent_id@,
        n,
    ) >= 0 <==> has_window(windows, children[i].parent_id@)) by {
        lemma_window_index(windows, children[i].parent_id@, n);
    }
}

} // verus!
