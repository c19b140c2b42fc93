//! Replies: which message answers which, and which chunk leads to which.
//!
//! A reply makes an edge between two messages, and a reference between the
//! chunks that hold them where these are two. After a sync both are made anew
//! for the chats that changed alone.

use crate::json::str_view;
use crate::text::same;
use vstd::prelude::*;

verus! {

/// A stored message, and the message that it answers.
#[derive(Debug, Clone)]
pub struct ReplyMessage {
    pub chat_id: String,
    pub message_id: String,
    pub reply_to_message_id: Option<String>,
}

/// A message in a chunk.
#[derive(Debug, Clone)]
pub struct PlacedMessage {
    pub chunk_id: String,
    pub message_id: String,
}

/// An edge from a reply to what it answers, with the chunks that hold the two.
#[derive(Debug, Clone)]
pub struct ReplyEdge {
    pub child_message_id: String,
    pub parent_message_id: String,
    pub child_chunk_id: Option<String>,
    pub parent_chunk_id: Option<String>,
}

/// A chunk that holds a reply, and another chunk that holds what it answers.
#[derive(Debug, Clone)]
pub struct ParentRef {
    pub child_chunk_id: String,
    pub parent_chunk_id: String,
}

/// The model of a [`ReplyMessage`].
pub struct ReplyView {
    pub chat: Seq<char>,
    pub id: Seq<char>,
    pub answers: Option<Seq<char>>,
}

/// The model of a [`PlacedMessage`].
pub struct PlacedView {
    pub chunk: Seq<char>,
    pub id: Seq<char>,
}

/// The model of a [`ReplyEdge`].
pub struct EdgeView {
    pub child: Seq<char>,
    pub parent: Seq<char>,
    pub child_chunk: Option<Seq<char>>,
    pub parent_chunk: Option<Seq<char>>,
}

/// The model of a [`ParentRef`].
pub struct RefView {
    pub child: Seq<char>,
    pub parent: Seq<char>,
}

/// The models of messages.
pub open spec fn reply_views(messages: Seq<ReplyMessage>) -> Seq<ReplyView> {
    messages.map_values(
        |m: ReplyMessage|
            ReplyView { chat: m.chat_id@, id: m.message_id@, answers: str_view(m.reply_to_message_id) },
    )
}

/// The models of placed messages.
pub open spec fn placed_views(placed: Seq<PlacedMessage>) -> Seq<PlacedView> {
    placed.map_values(|p: PlacedMessage| PlacedView { chunk: p.chunk_id@, id: p.message_id@ })
}

/// The model of an edge.
pub open spec fn edge_view(e: ReplyEdge) -> EdgeView {
    EdgeView {
        child: e.child_message_id@,
        parent: e.parent_message_id@,
        child_chunk: str_view(e.child_chunk_id),
        parent_chunk: str_view(e.parent_chunk_id),
    }
}

/// The models of edges.
pub open spec fn edge_views(edges: Seq<ReplyEdge>) -> Seq<EdgeView> {
    edges.map_values(|e: ReplyEdge| edge_view(e))
}

/// The models of references.
pub open spec fn ref_views(refs: Seq<ParentRef>) -> Seq<RefView> {
    refs.map_values(
        |r: ParentRef| RefView { child: r.child_chunk_id@, parent: r.parent_chunk_id@ },
    )
}

// ---------------------------------------------------------------------------
// Edges
// ---------------------------------------------------------------------------

/// The chunk that holds a message, the first one where there are several.
pub open spec fn chunk_of(placed: Seq<PlacedView>, id: Seq<char>) -> Option<Seq<char>>
    decreases placed.len(),
{
    if placed.len() == 0 {
        None
    } else {
        match chunk_of(placed.drop_last(), id) {
            Some(chunk) => Some(chunk),
            None => if placed.last().id == id {
                Some(placed.last().chunk)
            } else {
                None
            },
        }
    }
}

/// The edge from a reply to `parent`.
pub open spec fn edge_to(id: Seq<char>, parent: Seq<char>, placed: Seq<PlacedView>) -> EdgeView {
    EdgeView { child: id, parent, child_chunk: chunk_of(placed, id), parent_chunk: chunk_of(placed, parent) }
}

/// Whether a chat is asked for: the given one, or every one.
pub open spec fn in_scope(chat: Seq<char>, scope: Option<Seq<char>>) -> bool {
    scope matches Some(wanted) ==> chat == wanted
}

/// Whether `edge` is the edge of a message that answers another.
pub open spec fn is_edge_of(message: ReplyView, placed: Seq<PlacedView>, edge: EdgeView) -> bool {
    message.answers matches Some(parent) && edge == edge_to(message.id, parent, placed)
}

/// Whether `edge` is the edge of a reply in the chats that are asked for.
pub open spec fn is_edge(
    messages: Seq<ReplyView>,
    placed: Seq<PlacedView>,
    scope: Option<Seq<char>>,
    edge: EdgeView,
) -> bool {
    exists|i: int|
        0 <= i < messages.len() && in_scope((#[trigger] messages[i]).chat, scope) && is_edge_of(
            messages[i],
            placed,
            edge,
        )
}

/// What is recorded of an edge whose end is not in the archive.
pub open spec fn unresolved(edge: EdgeView) -> Option<Seq<char>> {
    match edge.parent_chunk {
        Some(_) => None,
        None => Some("parent_not_in_archive"@),
    }
}

impl ReplyEdge {
    /// Why the edge leads nowhere, where it does.
    pub fn unresolved_reason(&self) -> (reason: Option<&'static str>)
        ensures
            match reason {
                Some(reason) => unresolved(edge_view(*self)) == Some(reason@),
                None => unresolved(edge_view(*self)) is None,
            },
    {
        if self.parent_chunk_id.is_none() {
            Some("parent_not_in_archive")
        } else {
            None
        }
    }
}

/// Finds the chunk that holds a message.
fn find_chunk(placed: &[PlacedMessage], id: &str) -> (chunk: Option<String>)
    ensures
        str_view(chunk) == chunk_of(placed_views(placed@), id@),
{
    let ghost all = placed_views(placed@);
    for i in 0..placed.len()
        invariant
            all == placed_views(placed@),
            chunk_of(all.take(i as int), id@) is None,
    {
        proof {
            assert(all.take(i + 1).drop_last() == all.take(i as int));
            assert(all.take(i + 1).last() == all[i as int]);
        }
        if same(placed[i].message_id.as_str(), id) {
            let chunk = placed[i].chunk_id.clone();
            proof {
                lemma_first_chunk(all, id@, i + 1);
                assert(chunk@ == all[i as int].chunk);
            }
            return Some(chunk);
        }
    }
    proof {
        assert(all.take(placed@.len() as int) == all);
    }
    None
}

/// What was found among the first messages is found among all.
proof fn lemma_first_chunk(placed: Seq<PlacedView>, id: Seq<char>, n: int)
    requires
        0 <= n <= placed.len(),
        chunk_of(placed.take(n), id) is Some,
    ensures
        chunk_of(placed, id) == chunk_of(placed.take(n), id),
    decreases placed.len() - n,
{
    if n == placed.len() {
        assert(placed.take(n) == placed);
    } else {
        assert(placed.take(n + 1).drop_last() == placed.take(n));
        lemma_first_chunk(placed, id, n + 1);
    }
}

/// Whether an edge between two messages is listed.
fn has_edge(edges: &Vec<ReplyEdge>, child: &str, parent: &str) -> (r: bool)
    ensures
        r == exists|k: int|
            0 <= k < edges@.len() && (#[trigger] edges@[k]).child_message_id@ == child@
                && edges@[k].parent_message_id@ == parent@,
{
    for k in 0..edges.len()
        invariant
            forall|j: int|
                0 <= j < k ==> !((#[trigger] edges@[j]).child_message_id@ == child@
                    && edges@[j].parent_message_id@ == parent@),
    {
        if same(edges[k].child_message_id.as_str(), child) && same(
            edges[k].parent_message_id.as_str(),
            parent,
        ) {
            return true;
        }
    }
    false
}

/// The edges of the replies of one chat, or of all: each once.
pub fn reply_edges(messages: &[ReplyMessage], placed: &[PlacedMessage], chat: Option<&str>) -> (edges:
    Vec<ReplyEdge>)
    ensures
        edge_views(edges@).no_duplicates(),
        forall|edge: EdgeView| #[trigger]
            edge_views(edges@).contains(edge) <==> is_edge(
                reply_views(messages@),
                placed_views(placed@),
                scope_of(chat),
                edge,
            ),
{
    let ghost all = reply_views(messages@);
    let ghost places = placed_views(placed@);
    let ghost scope = scope_of(chat);
    let mut edges: Vec<ReplyEdge> = Vec::new();
    proof {
        assert forall|edge: EdgeView| !is_edge(all.take(0), places, scope, edge) by {}
    }
    for i in 0..messages.len()
        invariant
            all == reply_views(messages@),
            places == placed_views(placed@),
            scope == scope_of(chat),
            edge_views(edges@).no_duplicates(),
            forall|edge: EdgeView| #[trigger]
                edge_views(edges@).contains(edge) <==> is_edge(
                    all.take(i as int),
                    places,
                    scope,
                    edge,
                ),
    {
        let message: &ReplyMessage = &messages[i];
        let ghost now = all.take(i + 1);
        let ghost seen = all.take(i as int);
        let ghost before = edge_views(edges@);
        proof {
            assert(now.drop_last() == seen);
            assert(now.last() == all[i as int]);
            assert forall|edge: EdgeView|
                is_edge(now, places, scope, edge) <==> is_edge(seen, places, scope, edge) || (
                in_scope(all[i as int].chat, scope) && is_edge_of(all[i as int], places, edge)) by {
                lemma_edges_with_one_more(all, i as int, places, scope, edge);
            }
        }
        let asked = match chat {
            Some(wanted) => same(message.chat_id.as_str(), wanted),
            None => true,
        };
        if asked {
            if let Some(parent) = &message.reply_to_message_id {
                let ghost edge = edge_to(message.message_id@, parent@, places);
                if !has_edge(&edges, message.message_id.as_str(), parent.as_str()) {
                    let child_chunk_id = find_chunk(placed, message.message_id.as_str());
                    let parent_chunk_id = find_chunk(placed, parent.as_str());
                    edges.push(
                        ReplyEdge {
                            child_message_id: message.message_id.clone(),
                            parent_message_id: parent.clone(),
                            child_chunk_id,
                            parent_chunk_id,
                        },
                    );
                    proof {
                        assert(edge_views(edges@) == before.push(edge));
                        assert(!before.contains(edge)) by {
                            if before.contains(edge) {
                                let k = choose|k: int| 0 <= k < before.len() && before[k] == edge;
                                assert(edges@.drop_last()[k].child_message_id@
                                    == message.message_id@);
                            }
                        }
                        lemma_push(before, edge);
                    }
                } else {
                    proof {
                        let k = choose|k: int|
                            0 <= k < edges@.len() && (#[trigger] edges@[k]).child_message_id@
                                == message.message_id@ && edges@[k].parent_message_id@ == parent@;
                        assert(before[k].child == message.message_id@ && before[k].parent
                            == parent@);
                        assert(before.contains(before[k]));
                        assert(is_edge(seen, places, scope, before[k]));
                        assert(before[k] == edge);
                    }
                }
            }
        }
    }
    proof {
        assert(all.take(messages@.len() as int) == all);
    }
    edges
}

/// The chats that are asked for.
pub open spec fn scope_of(chat: Option<&str>) -> Option<Seq<char>> {
    match chat {
        Some(chat) => Some(chat@),
        None => None,
    }
}

/// What a list holds after one more.
proof fn lemma_push<T>(list: Seq<T>, item: T)
    ensures
        forall|x: T| #[trigger] list.push(item).contains(x) <==> list.contains(x) || x == item,
        list.no_duplicates() && !list.contains(item) ==> list.push(item).no_duplicates(),
{
    assert forall|x: T| #[trigger] list.push(item).contains(x) <==> list.contains(x) || x
        == item by {
        if list.contains(x) {
            let k = choose|k: int| 0 <= k < list.len() && list[k] == x;
            assert(list.push(item)[k] == x);
        }
        if x == item {
            assert(list.push(item)[list.len() as int] == x);
        }
    }
}

/// One more message brings its own edge.
proof fn lemma_edges_with_one_more(
    messages: Seq<ReplyView>,
    n: int,
    placed: Seq<PlacedView>,
    scope: Option<Seq<char>>,
    edge: EdgeView,
)
    requires
        0 <= n < messages.len(),
    ensures
        is_edge(messages.take(n + 1), placed, scope, edge) <==> is_edge(
            messages.take(n),
            placed,
            scope,
            edge,
        ) || (in_scope(messages[n].chat, scope) && is_edge_of(messages[n], placed, edge)),
{
    let now = messages.take(n + 1);
    let seen = messages.take(n);
    if is_edge(now, placed, scope, edge) {
        let i = choose|i: int|
            0 <= i < now.len() && in_scope((#[trigger] now[i]).chat, scope) && is_edge_of(
                now[i],
                placed,
                edge,
            );
        if i < n {
            assert(seen[i] == now[i]);
        }
    }
    if is_edge(seen, placed, scope, edge) {
        let i = choose|i: int|
            0 <= i < seen.len() && in_scope((#[trigger] seen[i]).chat, scope) && is_edge_of(
                seen[i],
                placed,
                edge,
            );
        assert(now[i] == seen[i]);
    }
    assert(now[n] == messages[n]);
}

// ---------------------------------------------------------------------------
// References
// ---------------------------------------------------------------------------

/// Whether `id` is a message of `chat`.
pub open spec fn is_message_of(messages: Seq<ReplyView>, chat: Seq<char>, id: Seq<char>) -> bool {
    exists|i: int|
        0 <= i < messages.len() && (#[trigger] messages[i]).chat == chat && messages[i].id == id
}

/// Whether a message is asked for: it, or what it answers, is in the chat.
pub open spec fn touches(
    messages: Seq<ReplyView>,
    message: ReplyView,
    scope: Option<Seq<char>>,
) -> bool {
    scope matches Some(chat) ==> message.chat == chat || (message.answers matches Some(parent)
        && is_message_of(messages, chat, parent))
}

/// Whether a reply leads from one chunk to another.
pub open spec fn is_ref_of(message: ReplyView, placed: Seq<PlacedView>, r: RefView) -> bool {
    message.answers matches Some(parent) && r.child != r.parent && placed.contains(
        PlacedView { chunk: r.child, id: message.id },
    ) && placed.contains(PlacedView { chunk: r.parent, id: parent })
}

/// Whether a reply into or out of the chats that are asked for leads from one
/// chunk to another.
pub open spec fn is_ref(
    messages: Seq<ReplyView>,
    placed: Seq<PlacedView>,
    scope: Option<Seq<char>>,
    r: RefView,
) -> bool {
    exists|i: int|
        0 <= i < messages.len() && touches(messages, #[trigger] messages[i], scope) && is_ref_of(
            messages[i],
            placed,
            r,
        )
}

/// Whether a reference is listed.
fn has_ref(refs: &Vec<ParentRef>, child: &str, parent: &str) -> (r: bool)
    ensures
        r == ref_views(refs@).contains(RefView { child: child@, parent: parent@ }),
{
    let ghost wanted = RefView { child: child@, parent: parent@ };
    for k in 0..refs.len()
        invariant
            wanted == (RefView { child: child@, parent: parent@ }),
            forall|j: int| 0 <= j < k ==> #[trigger] ref_views(refs@)[j] != wanted,
    {
        if same(refs[k].child_chunk_id.as_str(), child) && same(
            refs[k].parent_chunk_id.as_str(),
            parent,
        ) {
            proof {
                assert(ref_views(refs@)[k as int] == wanted);
            }
            return true;
        }
    }
    false
}

/// Lists the references from one chunk to those that hold `parent`.
fn add_chunk_refs(
    refs: &mut Vec<ParentRef>,
    child_chunk: &str,
    parent: &str,
    placed: &[PlacedMessage],
)
    requires
        ref_views(old(refs)@).no_duplicates(),
    ensures
        ref_views(final(refs)@).no_duplicates(),
        forall|r: RefView| #[trigger]
            ref_views(final(refs)@).contains(r) <==> ref_views(old(refs)@).contains(r) || (r.child
                == child_chunk@ && r.parent != child_chunk@ && placed_views(placed@).contains(
                PlacedView { chunk: r.parent, id: parent@ },
            )),
{
    let ghost start = ref_views(refs@);
    let ghost all = placed_views(placed@);
    for b in 0..placed.len()
        invariant
            all == placed_views(placed@),
            ref_views(refs@).no_duplicates(),
            forall|r: RefView| #[trigger]
                ref_views(refs@).contains(r) <==> start.contains(r) || (r.child == child_chunk@
                    && r.parent != child_chunk@ && all.take(b as int).contains(
                    PlacedView { chunk: r.parent, id: parent@ },
                )),
    {
        let ghost before = ref_views(refs@);
        proof {
            assert(all.take(b + 1) == all.take(b as int).push(all[b as int]));
            lemma_push(all.take(b as int), all[b as int]);
        }
        let held: &PlacedMessage = &placed[b];
        if same(held.message_id.as_str(), parent) && !same(held.chunk_id.as_str(), child_chunk) {
            let ghost item = RefView { child: child_chunk@, parent: held.chunk_id@ };
            if !has_ref(refs, child_chunk, held.chunk_id.as_str()) {
                refs.push(
                    ParentRef {
                        child_chunk_id: child_chunk.to_owned(),
                        parent_chunk_id: held.chunk_id.clone(),
                    },
                );
                proof {
                    assert(ref_views(refs@) == before.push(item));
                    lemma_push(before, item);
                }
            }
        }
    }
    proof {
        assert(all.take(placed@.len() as int) == all);
    }
}

/// Lists the references of one reply.
fn add_reply_refs(refs: &mut Vec<ParentRef>, id: &str, parent: &str, placed: &[PlacedMessage])
    requires
        ref_views(old(refs)@).no_duplicates(),
    ensures
        ref_views(final(refs)@).no_duplicates(),
        forall|r: RefView| #[trigger]
            ref_views(final(refs)@).contains(r) <==> ref_views(old(refs)@).contains(r) || (r.child
                != r.parent && placed_views(placed@).contains(PlacedView { chunk: r.child, id: id@ })
                && placed_views(placed@).contains(PlacedView { chunk: r.parent, id: parent@ })),
{
    let ghost start = ref_views(refs@);
    let ghost all = placed_views(placed@);
    for a in 0..placed.len()
        invariant
            all == placed_views(placed@),
            ref_views(refs@).no_duplicates(),
            forall|r: RefView| #[trigger]
                ref_views(refs@).contains(r) <==> start.contains(r) || (r.child != r.parent
                    && all.take(a as int).contains(PlacedView { chunk: r.child, id: id@ })
                    && all.contains(PlacedView { chunk: r.parent, id: parent@ })),
    {
        proof {
            assert(all.take(a + 1) == all.take(a as int).push(all[a as int]));
            lemma_push(all.take(a as int), all[a as int]);
        }
        if same(placed[a].message_id.as_str(), id) {
            add_chunk_refs(refs, placed[a].chunk_id.as_str(), parent, placed);
        }
    }
    proof {
        assert(all.take(placed@.len() as int) == all);
    }
}

/// Whether `id` is a message of `chat`.
fn has_message(messages: &[ReplyMessage], chat: &str, id: &str) -> (r: bool)
    ensures
        r == is_message_of(reply_views(messages@), chat@, id@),
{
    let ghost all = reply_views(messages@);
    for i in 0..messages.len()
        invariant
            all == reply_views(messages@),
            forall|j: int| 0 <= j < i ==> !((#[trigger] all[j]).chat == chat@ && all[j].id == id@),
    {
        if same(messages[i].chat_id.as_str(), chat) && same(messages[i].message_id.as_str(), id) {
            proof {
                assert(all[i as int].chat == chat@);
            }
            return true;
        }
    }
    false
}

/// The references that the replies into or out of one chat make, or those of
/// all: each once.
pub fn parent_refs(messages: &[ReplyMessage], placed: &[PlacedMessage], chat: Option<&str>) -> (refs:
    Vec<ParentRef>)
    ensures
        ref_views(refs@).no_duplicates(),
        forall|r: RefView| #[trigger]
            ref_views(refs@).contains(r) <==> is_ref(
                reply_views(messages@),
                placed_views(placed@),
                scope_of(chat),
                r,
            ),
{
    let ghost all = reply_views(messages@);
    let ghost places = placed_views(placed@);
    let ghost scope = scope_of(chat);
    let mut refs: Vec<ParentRef> = Vec::new();
    for i in 0..messages.len()
        invariant
            all == reply_views(messages@),
            places == placed_views(placed@),
            scope == scope_of(chat),
            ref_views(refs@).no_duplicates(),
            forall|r: RefView| #[trigger]
                ref_views(refs@).contains(r) <==> exists|k: int|
                    0 <= k < i && touches(all, #[trigger] all[k], scope) && is_ref_of(
                        all[k],
                        places,
                        r,
                    ),
    {
        let message: &ReplyMessage = &messages[i];
        assert(all[i as int].chat == message.chat_id@);
        if let Some(parent) = &message.reply_to_message_id {
            let asked = match chat {
                Some(wanted) => same(message.chat_id.as_str(), wanted) || has_message(
                    messages,
                    wanted,
                    parent.as_str(),
                ),
                None => true,
            };
            if asked {
                add_reply_refs(&mut refs, message.message_id.as_str(), parent.as_str(), placed);
            }
        }
    }
    refs
}

// ---------------------------------------------------------------------------
// Laws
// ---------------------------------------------------------------------------

/// The edges and the references of all chats are those of each chat, together.
pub proof fn law_chats_make_up_the_archive(messages: Seq<ReplyView>, placed: Seq<PlacedView>)
    ensures
        forall|edge: EdgeView|
            is_edge(messages, placed, None, edge) <==> exists|chat: Seq<char>|
                is_edge(messages, placed, Some(chat), edge),
        forall|r: RefView|
            is_ref(messages, placed, None, r) <==> exists|chat: Seq<char>|
                is_ref(messages, placed, Some(chat), r),
{
    assert forall|edge: EdgeView| is_edge(messages, placed, None, edge) implies exists|
        chat: Seq<char>,
    | is_edge(messages, placed, Some(chat), edge) by {
        let i = choose|i: int|
            0 <= i < messages.len() && in_scope((#[trigger] messages[i]).chat, None) && is_edge_of(
                messages[i],
                placed,
                edge,
            );
        assert(in_scope(messages[i].chat, Some(messages[i].chat)));
        assert(is_edge(messages, placed, Some(messages[i].chat), edge));
    }
    assert forall|r: RefView| is_ref(messages, placed, None, r) implies exists|chat: Seq<char>|
        is_ref(messages, placed, Some(chat), r) by {
        let i = choose|i: int|
            0 <= i < messages.len() && touches(messages, #[trigger] messages[i], None)
                && is_ref_of(messages[i], placed, r);
        assert(touches(messages, messages[i], Some(messages[i].chat)));
        assert(is_ref(messages, placed, Some(messages[i].chat), r));
    }
}

/// Whether the messages of every other chat are the same.
pub open spec fn same_elsewhere(
    before: Seq<ReplyView>,
    after: Seq<ReplyView>,
    chats: Set<Seq<char>>,
) -> bool {
    forall|m: ReplyView|
        !chats.contains(m.chat) ==> (#[trigger] before.contains(m) <==> #[trigger] after.contains(
            m,
        ))
}

/// Whether a message was stored before or is now.
pub open spec fn known(before: Seq<ReplyView>, after: Seq<ReplyView>, m: ReplyView) -> bool {
    before.contains(m) || after.contains(m)
}

/// Whether every message id belongs to one chat, before and after.
pub open spec fn ids_keep_their_chat(before: Seq<ReplyView>, after: Seq<ReplyView>) -> bool {
    forall|a: ReplyView, b: ReplyView| #[trigger]
        known(before, after, a) && #[trigger] known(before, after, b) && a.id == b.id ==> a.chat
            == b.chat
}

/// Whether `id` is a message of one of the chats.
pub open spec fn is_message_in(
    messages: Seq<ReplyView>,
    chats: Set<Seq<char>>,
    id: Seq<char>,
) -> bool {
    exists|i: int|
        0 <= i < messages.len() && chats.contains((#[trigger] messages[i]).chat) && messages[i].id
            == id
}

/// Whether `id` was a message of one of the chats, or is one.
pub open spec fn was_message_in(
    before: Seq<ReplyView>,
    after: Seq<ReplyView>,
    chats: Set<Seq<char>>,
    id: Seq<char>,
) -> bool {
    is_message_in(before, chats, id) || is_message_in(after, chats, id)
}

/// Whether `edge` is that of a reply from another chat to a message of the chats.
pub open spec fn answers_into(
    before: Seq<ReplyView>,
    after: Seq<ReplyView>,
    chats: Set<Seq<char>>,
    edge: EdgeView,
) -> bool {
    !was_message_in(before, after, chats, edge.child) && was_message_in(
        before,
        after,
        chats,
        edge.parent,
    )
}

/// Whether `edge` is an edge of one of the chats.
pub open spec fn is_edge_in(
    messages: Seq<ReplyView>,
    placed: Seq<PlacedView>,
    chats: Set<Seq<char>>,
    edge: EdgeView,
) -> bool {
    exists|chat: Seq<char>|
        chats.contains(chat) && #[trigger] is_edge(messages, placed, Some(chat), edge)
}

/// Whether `r` is a reference into or out of one of the chats.
pub open spec fn is_ref_in(
    messages: Seq<ReplyView>,
    placed: Seq<PlacedView>,
    chats: Set<Seq<char>>,
    r: RefView,
) -> bool {
    exists|chat: Seq<char>| chats.contains(chat) && #[trigger] is_ref(messages, placed, Some(chat), r)
}

/// An id of a message of another chat is no id of the chats.
proof fn lemma_elsewhere(
    before: Seq<ReplyView>,
    after: Seq<ReplyView>,
    chats: Set<Seq<char>>,
    m: ReplyView,
)
    requires
        ids_keep_their_chat(before, after),
        known(before, after, m),
        !chats.contains(m.chat),
    ensures
        !was_message_in(before, after, chats, m.id),
{
    if is_message_in(before, chats, m.id) {
        let j = choose|j: int|
            0 <= j < before.len() && chats.contains((#[trigger] before[j]).chat) && before[j].id
                == m.id;
        assert(known(before, after, before[j]));
    }
    if is_message_in(after, chats, m.id) {
        let j = choose|j: int|
            0 <= j < after.len() && chats.contains((#[trigger] after[j]).chat) && after[j].id
                == m.id;
        assert(known(before, after, after[j]));
    }
}

/// Making the edges of the chats that changed anew brings those of the whole
/// archive: the edges of the messages that they had or have are dropped, and
/// made from what is stored now. This holds of every edge but that of a reply
/// from another chat into one of them, which keeps the chunks that it had.
pub proof fn law_edges_of_the_chats_are_enough(
    before: Seq<ReplyView>,
    placed_before: Seq<PlacedView>,
    after: Seq<ReplyView>,
    placed_after: Seq<PlacedView>,
    chats: Set<Seq<char>>,
)
    requires
        same_elsewhere(before, after, chats),
        ids_keep_their_chat(before, after),
        // nothing outside the chats moved to another chunk
        forall|id: Seq<char>|
            !was_message_in(before, after, chats, id) ==> #[trigger] chunk_of(placed_before, id)
                == chunk_of(placed_after, id),
    ensures
        forall|edge: EdgeView|
            !answers_into(before, after, chats, edge) ==> (is_edge(after, placed_after, None, edge)
                <==> (is_edge(before, placed_before, None, edge) && !was_message_in(
                before,
                after,
                chats,
                edge.child,
            )) || is_edge_in(after, placed_after, chats, edge)),
{
    assert forall|edge: EdgeView| !answers_into(before, after, chats, edge) implies (is_edge(
        after,
        placed_after,
        None,
        edge,
    ) <==> (is_edge(before, placed_before, None, edge) && !was_message_in(
        before,
        after,
        chats,
        edge.child,
    )) || is_edge_in(after, placed_after, chats, edge)) by {
        if is_edge(after, placed_after, None, edge) {
            let i = choose|i: int|
                0 <= i < after.len() && in_scope((#[trigger] after[i]).chat, None) && is_edge_of(
                    after[i],
                    placed_after,
                    edge,
                );
            let m = after[i];
            assert(after.contains(m));
            if chats.contains(m.chat) {
                assert(in_scope(after[i].chat, Some(m.chat)));
                assert(is_edge(after, placed_after, Some(m.chat), edge));
            } else {
                assert(before.contains(m));
                let k = choose|k: int| 0 <= k < before.len() && before[k] == m;
                assert(known(before, after, m));
                lemma_elsewhere(before, after, chats, m);
                assert(chunk_of(placed_before, edge.child) == chunk_of(placed_after, edge.child));
                assert(chunk_of(placed_before, edge.parent) == chunk_of(placed_after, edge.parent));
                assert(in_scope(before[k].chat, None) && is_edge_of(before[k], placed_before, edge));
            }
        }
        if is_edge(before, placed_before, None, edge) && !was_message_in(
            before,
            after,
            chats,
            edge.child,
        ) {
            let i = choose|i: int|
                0 <= i < before.len() && in_scope((#[trigger] before[i]).chat, None) && is_edge_of(
                    before[i],
                    placed_before,
                    edge,
                );
            let m = before[i];
            assert(before.contains(m));
            assert(after.contains(m));
            let k = choose|k: int| 0 <= k < after.len() && after[k] == m;
            assert(chunk_of(placed_before, edge.child) == chunk_of(placed_after, edge.child));
            assert(chunk_of(placed_before, edge.parent) == chunk_of(placed_after, edge.parent));
            assert(in_scope(after[k].chat, None) && is_edge_of(after[k], placed_after, edge));
        }
        if is_edge_in(after, placed_after, chats, edge) {
            let chat = choose|chat: Seq<char>|
                chats.contains(chat) && #[trigger] is_edge(after, placed_after, Some(chat), edge);
            let i = choose|i: int|
                0 <= i < after.len() && in_scope((#[trigger] after[i]).chat, Some(chat))
                    && is_edge_of(after[i], placed_after, edge);
            assert(in_scope(after[i].chat, None));
        }
    }
}

/// Making the references of the chats that changed anew brings those of the
/// whole archive: those that touch a dropped chunk go, and the replies into and
/// out of the chats bring theirs back. This holds of replies between chats too.
pub proof fn law_references_of_the_chats_are_enough(
    before: Seq<ReplyView>,
    placed_before: Seq<PlacedView>,
    after: Seq<ReplyView>,
    placed_after: Seq<PlacedView>,
    chats: Set<Seq<char>>,
    dropped: Set<Seq<char>>,
)
    requires
        same_elsewhere(before, after, chats),
        ids_keep_their_chat(before, after),
        // what is in a kept chunk stays as it is
        forall|p: PlacedView| #[trigger]
            placed_before.contains(p) && !dropped.contains(p.chunk) ==> placed_after.contains(p),
        forall|m: ReplyView, p: PlacedView| #[trigger]
            before.contains(m) && chats.contains(m.chat) && #[trigger] placed_before.contains(p)
                && !dropped.contains(p.chunk) && p.id == m.id ==> after.contains(m),
        // what is in a new chunk is a message of one of the chats
        forall|p: PlacedView| #[trigger]
            placed_after.contains(p) && !(placed_before.contains(p) && !dropped.contains(p.chunk))
                ==> is_message_in(after, chats, p.id),
    ensures
        forall|r: RefView|
            is_ref(after, placed_after, None, r) <==> (is_ref(before, placed_before, None, r)
                && !dropped.contains(r.child) && !dropped.contains(r.parent)) || is_ref_in(
                after,
                placed_after,
                chats,
                r,
            ),
{
    assert forall|r: RefView|
        is_ref(after, placed_after, None, r) <==> (is_ref(before, placed_before, None, r)
            && !dropped.contains(r.child) && !dropped.contains(r.parent)) || is_ref_in(
            after,
            placed_after,
            chats,
            r,
        ) by {
        if is_ref(after, placed_after, None, r) {
            let i = choose|i: int|
                0 <= i < after.len() && touches(after, #[trigger] after[i], None) && is_ref_of(
                    after[i],
                    placed_after,
                    r,
                );
            let m = after[i];
            let parent = m.answers->0;
            assert(after.contains(m));
            if chats.contains(m.chat) {
                assert(touches(after, after[i], Some(m.chat)));
                assert(is_ref(after, placed_after, Some(m.chat), r));
            } else if is_message_in(after, chats, parent) {
                let j = choose|j: int|
                    0 <= j < after.len() && chats.contains((#[trigger] after[j]).chat)
                        && after[j].id == parent;
                let chat = after[j].chat;
                assert(is_message_of(after, chat, parent));
                assert(touches(after, after[i], Some(chat)));
                assert(is_ref(after, placed_after, Some(chat), r));
            } else {
                assert(before.contains(m));
                assert(known(before, after, m));
                lemma_elsewhere(before, after, chats, m);
                let a = PlacedView { chunk: r.child, id: m.id };
                let b = PlacedView { chunk: r.parent, id: parent };
                assert(placed_after.contains(a) && placed_after.contains(b));
                let k = choose|k: int| 0 <= k < before.len() && before[k] == m;
                assert(touches(before, before[k], None) && is_ref_of(before[k], placed_before, r));
            }
        }
        if is_ref(before, placed_before, None, r) && !dropped.contains(r.child)
            && !dropped.contains(r.parent) {
            let i = choose|i: int|
                0 <= i < before.len() && touches(before, #[trigger] before[i], None) && is_ref_of(
                    before[i],
                    placed_before,
                    r,
                );
            let m = before[i];
            assert(before.contains(m));
            let a = PlacedView { chunk: r.child, id: m.id };
            assert(placed_before.contains(a));
            assert(after.contains(m));
            let k = choose|k: int| 0 <= k < after.len() && after[k] == m;
            assert(touches(after, after[k], None) && is_ref_of(after[k], placed_after, r));
        }
        if is_ref_in(after, placed_after, chats, r) {
            let chat = choose|chat: Seq<char>|
                chats.contains(chat) && #[trigger] is_ref(after, placed_after, Some(chat), r);
            let i = choose|i: int|
                0 <= i < after.len() && touches(after, #[trigger] after[i], Some(chat))
                    && is_ref_of(after[i], placed_after, r);
            assert(touches(after, after[i], None));
        }
    }
}

/// A message is looked up in the chunk that holds it: the first one, and nowhere
/// only where none does.
pub proof fn law_a_message_is_looked_up_where_it_is(placed: Seq<PlacedView>, id: Seq<char>)
    ensures
        chunk_of(placed, id) matches Some(chunk) ==> placed.contains(PlacedView { chunk, id }),
        chunk_of(placed, id) is None <==> forall|i: int|
            0 <= i < placed.len() ==> (#[trigger] placed[i]).id != id,
    decreases placed.len(),
{
    if placed.len() > 0 {
        let front = placed.drop_last();
        law_a_message_is_looked_up_where_it_is(front, id);
        if let Some(chunk) = chunk_of(front, id) {
            let p = PlacedView { chunk, id };
            let i = choose|i: int| 0 <= i < front.len() && front[i] == p;
            assert(placed[i] == p);
        } else if placed.last().id == id {
            assert(placed[placed.len() - 1] == PlacedView { chunk: placed.last().chunk, id });
        } else {
            assert forall|i: int| 0 <= i < placed.len() implies (#[trigger] placed[i]).id
                != id by {
                if i < front.len() {
                    assert(front[i] == placed[i]);
                }
            }
        }
        if forall|i: int| 0 <= i < placed.len() ==> (#[trigger] placed[i]).id != id {
            assert forall|i: int| 0 <= i < front.len() implies (#[trigger] front[i]).id != id by {
                assert(front[i] == placed[i]);
            }
            assert(placed[placed.len() - 1].id != id);
        }
    }
}

/// An edge leads from a reply to what it answers, and to the chunks that hold the
/// two; every reply has one.
pub proof fn law_edges_are_the_replies(
    messages: Seq<ReplyView>,
    placed: Seq<PlacedView>,
    edge: EdgeView,
    i: int,
)
    ensures
        is_edge(messages, placed, None, edge) ==> (exists|k: int|
            0 <= k < messages.len() && (#[trigger] messages[k]).id == edge.child
                && messages[k].answers == Some(edge.parent)) && (
        edge.child_chunk matches Some(chunk) ==> placed.contains(
            PlacedView { chunk, id: edge.child },
        )) && (edge.parent_chunk matches Some(chunk) ==> placed.contains(
            PlacedView { chunk, id: edge.parent },
        )) && (edge.parent_chunk is None <==> unresolved(edge) is Some),
        0 <= i < messages.len() && messages[i].answers is Some ==> exists|e: EdgeView| #[trigger]
            is_edge(messages, placed, None, e) && e.child == messages[i].id && Some(e.parent)
                == messages[i].answers,
{
    if is_edge(messages, placed, None, edge) {
        law_a_message_is_looked_up_where_it_is(placed, edge.child);
        law_a_message_is_looked_up_where_it_is(placed, edge.parent);
        let k = choose|k: int|
            0 <= k < messages.len() && in_scope((#[trigger] messages[k]).chat, None) && is_edge_of(
                messages[k],
                placed,
                edge,
            );
        assert(messages[k].id == edge.child);
    }
    if 0 <= i < messages.len() && messages[i].answers is Some {
        let e = edge_to(messages[i].id, messages[i].answers->0, placed);
        assert(in_scope(messages[i].chat, None) && is_edge_of(messages[i], placed, e));
        assert(is_edge(messages, placed, None, e));
    }
}

/// A reference leads from a chunk with a reply to another chunk with what it
/// answers; every reply whose ends are in two chunks makes one.
pub proof fn law_references_are_the_replies(
    messages: Seq<ReplyView>,
    placed: Seq<PlacedView>,
    r: RefView,
    i: int,
)
    ensures
        is_ref(messages, placed, None, r) ==> r.child != r.parent && exists|k: int|
            0 <= k < messages.len() && (#[trigger] messages[k]).answers is Some && placed.contains(
                PlacedView { chunk: r.child, id: messages[k].id },
            ) && placed.contains(PlacedView { chunk: r.parent, id: messages[k].answers->0 }),
        0 <= i < messages.len() && messages[i].answers is Some && r.child != r.parent
            && placed.contains(PlacedView { chunk: r.child, id: messages[i].id })
            && placed.contains(PlacedView { chunk: r.parent, id: messages[i].answers->0 })
            ==> is_ref(messages, placed, None, r),
{
    if is_ref(messages, placed, None, r) {
        let k = choose|k: int|
            0 <= k < messages.len() && touches(messages, #[trigger] messages[k], None)
                && is_ref_of(messages[k], placed, r);
        assert(messages[k].answers is Some);
    }
    if 0 <= i < messages.len() && messages[i].answers is Some && r.child != r.parent
        && placed.contains(PlacedView { chunk: r.child, id: messages[i].id }) && placed.contains(
        PlacedView { chunk: r.parent, id: messages[i].answers->0 },
    ) {
        assert(touches(messages, messages[i], None) && is_ref_of(messages[i], placed, r));
    }
}

/// What is read of messages, places, edges and references is what they hold.
pub proof fn law_replies_are_read_as_they_are(
    messages: Seq<ReplyMessage>,
    placed: Seq<PlacedMessage>,
    edge: ReplyEdge,
    refs: Seq<ParentRef>,
    i: int,
)
    ensures
        0 <= i < messages.len() ==> reply_views(messages).len() == messages.len() && reply_views(
            messages,
        )[i].chat == messages[i].chat_id@ && reply_views(messages)[i].id == messages[i].message_id@
            && (match messages[i].reply_to_message_id {
            Some(id) => reply_views(messages)[i].answers == Some(id@),
            None => reply_views(messages)[i].answers is None,
        }),
        0 <= i < placed.len() ==> placed_views(placed).len() == placed.len() && placed_views(
            placed,
        )[i].chunk == placed[i].chunk_id@ && placed_views(placed)[i].id == placed[i].message_id@,
        edge_view(edge).child == edge.child_message_id@,
        edge_view(edge).parent == edge.parent_message_id@,
        edge.child_chunk_id matches Some(id) ==> edge_view(edge).child_chunk == Some(id@),
        edge.parent_chunk_id matches Some(id) ==> edge_view(edge).parent_chunk == Some(id@),
        edge.child_chunk_id is None ==> edge_view(edge).child_chunk is None,
        edge.parent_chunk_id is None ==> edge_view(edge).parent_chunk is None,
        0 <= i < refs.len() ==> ref_views(refs).len() == refs.len() && ref_views(refs)[i].child
            == refs[i].child_chunk_id@ && ref_views(refs)[i].parent == refs[i].parent_chunk_id@,
{
}

/// An edge knows the chunk of each of its ends wherever that end is placed.
pub proof fn law_an_edge_knows_its_chunks(
    messages: Seq<ReplyView>,
    placed: Seq<PlacedView>,
    chat: Option<Seq<char>>,
    edge: EdgeView,
    chunk: Seq<char>,
)
    requires
        is_edge(messages, placed, chat, edge),
    ensures
        placed.contains(PlacedView { chunk, id: edge.child }) ==> edge.child_chunk is Some,
        placed.contains(PlacedView { chunk, id: edge.parent }) ==> edge.parent_chunk is Some
            && unresolved(edge) is None,
        chat matches Some(wanted) ==> exists|k: int|
            0 <= k < messages.len() && (#[trigger] messages[k]).chat == wanted && messages[k].id
                == edge.child,
{
    law_a_message_is_looked_up_where_it_is(placed, edge.child);
    law_a_message_is_looked_up_where_it_is(placed, edge.parent);
    if placed.contains(PlacedView { chunk, id: edge.child }) {
        let i = choose|i: int|
            0 <= i < placed.len() && placed[i] == (PlacedView { chunk, id: edge.child });
        assert(placed[i].id == edge.child);
    }
    if placed.contains(PlacedView { chunk, id: edge.parent }) {
        let i = choose|i: int|
            0 <= i < placed.len() && placed[i] == (PlacedView { chunk, id: edge.parent });
        assert(placed[i].id == edge.parent);
    }
}

} // verus!
