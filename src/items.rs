use vstd::prelude::*;

use crate::status::Status;
use crate::text::{copy_bytes, copy_string};

verus! {

/// A knowledge item as the pipeline sees it: its texts, its status and the
/// stored encoding of its vector (four little-endian bytes per component).
#[derive(Debug)]
pub struct Item {
    pub id: String,
    pub summary: String,
    pub context: String,
    pub memo: String,
    pub status: Status,
    pub embedding: Option<Vec<u8>>,
    pub updated_at: i64,
}

/// The mathematical value of an [`Item`].
pub struct ItemView {
    pub id: Seq<char>,
    pub summary: Seq<char>,
    pub context: Seq<char>,
    pub memo: Seq<char>,
    pub status: Status,
    pub embedding: Option<Seq<u8>>,
    pub updated_at: i64,
}

pub open spec fn bytes_view(v: Option<Vec<u8>>) -> Option<Seq<u8>> {
    match v {
        Some(b) => Some(b@),
        None => None,
    }
}

impl View for Item {
    type V = ItemView;

    open spec fn view(&self) -> ItemView {
        ItemView {
            id: self.id@,
            summary: self.summary@,
            context: self.context@,
            memo: self.memo@,
            status: self.status,
            embedding: bytes_view(self.embedding),
            updated_at: self.updated_at,
        }
    }
}

/// The views of a list of items.
pub open spec fn item_views(items: Seq<Item>) -> Seq<ItemView> {
    items.map_values(|it: Item| it@)
}

impl ItemView {
    /// An item in a linked or linking state holds a vector.
    pub open spec fn wf(self) -> bool {
        self.status.needs_embedding() ==> self.embedding is Some
    }

    /// The item with a new status and time, all else kept.
    pub open spec fn moved_to(self, status: Status, now: i64) -> ItemView {
        ItemView { status, updated_at: now, ..self }
    }

    /// What a vector handed back by the embedding provider does to the item:
    /// a queued item awaits linking, a forced re-embedding settles at once;
    /// no vector, or any other status, leaves it as it was.
    pub open spec fn embedded(self, v: Option<Seq<u8>>, now: i64) -> ItemView {
        match v {
            Some(b) => if self.status == Status::Queued {
                ItemView { embedding: Some(b), ..self.moved_to(Status::EmbeddedPendingLink, now) }
            } else if self.status == Status::ForceReembed {
                ItemView { embedding: Some(b), ..self.moved_to(Status::Settled, now) }
            } else {
                self
            },
            None => self,
        }
    }

    /// Whether the vector `v` advances the item.
    pub open spec fn advanced_by(self, v: Option<Seq<u8>>) -> bool {
        v is Some && (self.status == Status::Queued || self.status == Status::ForceReembed)
    }

    /// Settling after relationship extraction; only items awaiting it move.
    pub open spec fn settled(self, now: i64) -> ItemView {
        if self.status == Status::EmbeddedPendingLink || self.status == Status::ForceReextract {
            self.moved_to(Status::Settled, now)
        } else {
            self
        }
    }

    /// A change of embedding provider or model: embedded items drop their
    /// vector and wait to be embedded again.
    pub open spec fn reset_for_reembed(self, now: i64) -> ItemView {
        if self.status == Status::EmbeddedPendingLink || self.status == Status::Settled {
            ItemView { embedding: None, ..self.moved_to(Status::ForceReembed, now) }
        } else {
            self
        }
    }

    /// A request to extract relationships again: settled items keep their
    /// vector and go back to linking.
    pub open spec fn reset_for_reextract(self, now: i64) -> ItemView {
        if self.status == Status::Settled {
            self.moved_to(Status::ForceReextract, now)
        } else {
            self
        }
    }

    /// Whether an outside command may put the item in `status`.
    pub open spec fn may_take(self, status: Status) -> bool {
        status.needs_embedding() ==> self.embedding is Some
    }
}

/// Every transition keeps a vector on each item that is awaiting links,
/// being re-linked, or settled.
pub proof fn law_vector_present_when_linked(it: ItemView, v: Option<Seq<u8>>, s: Status, now: i64)
    requires
        it.wf(),
    ensures
        it.embedded(v, now).wf(),
        it.settled(now).wf(),
        it.reset_for_reembed(now).wf(),
        it.reset_for_reextract(now).wf(),
        it.may_take(s) ==> it.moved_to(s, now).wf(),
{
}

impl Item {
    /// A copy of the item with a new status and time.
    fn moved_to(&self, status: Status, now: i64) -> (r: Item)
        ensures
            r@ == self@.moved_to(status, now),
    {
        let embedding = match &self.embedding {
            Some(b) => Some(copy_bytes(b)),
            None => None,
        };
        Item {
            id: copy_string(&self.id),
            summary: copy_string(&self.summary),
            context: copy_string(&self.context),
            memo: copy_string(&self.memo),
            status,
            embedding,
            updated_at: now,
        }
    }

    /// A copy of the item.
    pub fn copy(&self) -> (r: Item)
        ensures
            r@ == self@,
    {
        self.moved_to(self.status, self.updated_at)
    }

    /// The item after the embedding provider answered `v` for it.
    pub fn with_embedding(&self, v: &Option<Vec<u8>>, now: i64) -> (r: Item)
        ensures
            r@ == self@.embedded(bytes_view(*v), now),
    {
        match v {
            Some(b) => {
                if self.status == Status::Queued || self.status == Status::ForceReembed {
                    let next = if self.status == Status::Queued {
                        Status::EmbeddedPendingLink
                    } else {
                        Status::Settled
                    };
                    let mut r = self.moved_to(next, now);
                    r.embedding = Some(copy_bytes(b));
                    r
                } else {
                    self.copy()
                }
            },
            None => self.copy(),
        }
    }

    /// The item after relationship extraction for it is done.
    pub fn settle(&self, now: i64) -> (r: Item)
        ensures
            r@ == self@.settled(now),
    {
        if self.status == Status::EmbeddedPendingLink || self.status == Status::ForceReextract {
            self.moved_to(Status::Settled, now)
        } else {
            self.copy()
        }
    }

    /// The item after a change of embedding provider or model.
    pub fn reset_for_reembed(&self, now: i64) -> (r: Item)
        ensures
            r@ == self@.reset_for_reembed(now),
    {
        if self.status == Status::EmbeddedPendingLink || self.status == Status::Settled {
            let mut r = self.moved_to(Status::ForceReembed, now);
            r.embedding = None;
            r
        } else {
            self.copy()
        }
    }

    /// The item after a request to extract its relationships again.
    pub fn reset_for_reextract(&self, now: i64) -> (r: Item)
        ensures
            r@ == self@.reset_for_reextract(now),
    {
        if self.status == Status::Settled {
            self.moved_to(Status::ForceReextract, now)
        } else {
            self.copy()
        }
    }

    /// An outside command setting the status; refused where the item would
    /// be linked without a vector.
    pub fn set_status(&self, status: Status, now: i64) -> (r: Result<Item, String>)
        ensures
            r is Ok <==> self@.may_take(status),
            r matches Ok(it) ==> it@ == self@.moved_to(status, now),
    {
        let needs = status == Status::EmbeddedPendingLink || status == Status::Settled || status
            == Status::ForceReextract;
        if needs && self.embedding.is_none() {
            Err("an item without a vector cannot take this status".to_owned())
        } else {
            Ok(self.moved_to(status, now))
        }
    }
}

/// Number of items among `items` that the vectors in `vectors` advance,
/// vector `i` belonging to item `i`.
pub open spec fn count_advanced(items: Seq<ItemView>, vectors: Seq<Option<Seq<u8>>>) -> nat
    decreases items.len(),
{
    if items.len() == 0 {
        0
    } else {
        let last = (items.len() - 1) as int;
        count_advanced(items.drop_last(), vectors) + if items[last].advanced_by(
            vector_at(vectors, last),
        ) {
            1nat
        } else {
            0nat
        }
    }
}

/// The vector answered for position `i`; none where the answer is short.
pub open spec fn vector_at(vectors: Seq<Option<Seq<u8>>>, i: int) -> Option<Seq<u8>> {
    if 0 <= i < vectors.len() {
        vectors[i]
    } else {
        None
    }
}

pub open spec fn vectors_view(vectors: Seq<Option<Vec<u8>>>) -> Seq<Option<Seq<u8>>> {
    vectors.map_values(|v: Option<Vec<u8>>| bytes_view(v))
}

/// Distillation: applies the provider's answer, position by position, to
/// the items read for embedding, and counts the items that advanced. An item
/// without an answer is left as it was, to be tried again.
pub fn distill_items(items: &Vec<Item>, vectors: &Vec<Option<Vec<u8>>>, now: i64) -> (r: (
    Vec<Item>,
    usize,
))
    ensures
        r.0.len() == items.len(),
        forall|i: int|
            0 <= i < items.len() ==> #[trigger] r.0[i]@ == items[i]@.embedded(
                vector_at(vectors_view(vectors@), i),
                now,
            ),
        r.1 == count_advanced(item_views(items@), vectors_view(vectors@)),
{
    let ghost vs = vectors_view(vectors@);
    let mut out: Vec<Item> = Vec::new();
    let mut count: usize = 0;
    let mut i: usize = 0;
    while i < items.len()
        invariant
            i <= items.len(),
            vs == vectors_view(vectors@),
            out.len() == i,
            forall|k: int| 0 <= k < i ==> #[trigger] out[k]@ == items[k]@.embedded(vector_at(vs, k), now),
            count == count_advanced(item_views(items@).take(i as int), vs),
            count <= i,
        decreases items.len() - i,
    {
        let none: Option<Vec<u8>> = None;
        let v: &Option<Vec<u8>> = if i < vectors.len() { &vectors[i] } else { &none };
        assert(bytes_view(*v) == vector_at(vs, i as int));
        let next = items[i].with_embedding(v, now);
        proof {
            let s = item_views(items@).take(i as int + 1);
            assert(s.drop_last() =~= item_views(items@).take(i as int));
        }
        if items[i].status == Status::Queued || items[i].status == Status::ForceReembed {
            if v.is_some() {
                count = count + 1;
            }
        }
        out.push(next);
        i = i + 1;
    }
    assert(item_views(items@).take(items.len() as int) =~= item_views(items@));
    (out, count)
}

/// Settles every item handed to relationship extraction.
pub fn settle_items(items: &Vec<Item>, now: i64) -> (r: Vec<Item>)
    ensures
        r.len() == items.len(),
        forall|i: int| 0 <= i < items.len() ==> #[trigger] r[i]@ == items[i]@.settled(now),
{
    let mut out: Vec<Item> = Vec::new();
    let mut i: usize = 0;
    while i < items.len()
        invariant
            i <= items.len(),
            out.len() == i,
            forall|k: int| 0 <= k < i ==> #[trigger] out[k]@ == items[k]@.settled(now),
        decreases items.len() - i,
    {
        out.push(items[i].settle(now));
        i = i + 1;
    }
    out
}

} // verus!

verus! {

/// Number of items that a change of embedding provider or model sends back
/// to embedding.
pub open spec fn count_reembedded(items: Seq<ItemView>) -> nat
    decreases items.len(),
{
    if items.len() == 0 {
        0
    } else {
        let s = items.last().status;
        count_reembedded(items.drop_last()) + if s == Status::EmbeddedPendingLink || s
            == Status::Settled {
            1nat
        } else {
            0nat
        }
    }
}

/// A change of embedding provider or model, over all items: returns the
/// items after it and how many were reset.
pub fn reset_items_for_reembed(items: &Vec<Item>, now: i64) -> (r: (Vec<Item>, usize))
    ensures
        r.0.len() == items.len(),
        forall|i: int| 0 <= i < items.len() ==> #[trigger] r.0[i]@ == items[i]@.reset_for_reembed(now),
        r.1 == count_reembedded(item_views(items@)),
{
    let mut out: Vec<Item> = Vec::new();
    let mut count: usize = 0;
    let mut i: usize = 0;
    while i < items.len()
        invariant
            i <= items.len(),
            out.len() == i,
            forall|k: int| 0 <= k < i ==> #[trigger] out[k]@ == items[k]@.reset_for_reembed(now),
            count == count_reembedded(item_views(items@).take(i as int)),
            count <= i,
        decreases items.len() - i,
    {
        proof {
            let s = item_views(items@).take(i as int + 1);
            assert(s.drop_last() =~= item_views(items@).take(i as int));
        }
        if items[i].status == Status::EmbeddedPendingLink || items[i].status == Status::Settled {
            count = count + 1;
        }
        out.push(items[i].reset_for_reembed(now));
        i = i + 1;
    }
    assert(item_views(items@).take(items.len() as int) =~= item_views(items@));
    (out, count)
}

/// A request to extract all relationships again, over all items.
pub fn reset_items_for_reextract(items: &Vec<Item>, now: i64) -> (r: Vec<Item>)
    ensures
        r.len() == items.len(),
        forall|i: int| 0 <= i < items.len() ==> #[trigger] r[i]@ == items[i]@.reset_for_reextract(now),
{
    let mut out: Vec<Item> = Vec::new();
    let mut i: usize = 0;
    while i < items.len()
        invariant
            i <= items.len(),
            out.len() == i,
            forall|k: int| 0 <= k < i ==> #[trigger] out[k]@ == items[k]@.reset_for_reextract(now),
        decreases items.len() - i,
    {
        out.push(items[i].reset_for_reextract(now));
        i = i + 1;
    }
    out
}

/// The text embedded for an item: its summary, then its context and memo
/// where they are not empty, one per line.
pub open spec fn composite_text(summary: Seq<char>, context: Seq<char>, memo: Seq<char>) -> Seq<char> {
    let with_context = if context.len() > 0 {
        summary + "\n"@ + context
    } else {
        summary
    };
    if memo.len() > 0 {
        with_context + "\n"@ + memo
    } else {
        with_context
    }
}

impl Item {
    /// The text sent to the embedding provider for this item.
    pub fn embedding_text(&self) -> (r: String)
        ensures
            r@ == composite_text(self.summary@, self.context@, self.memo@),
    {
        let mut text = copy_string(&self.summary);
        if self.context.as_str().unicode_len() > 0 {
            text.append("\n");
            text.append(self.context.as_str());
        }
        if self.memo.as_str().unicode_len() > 0 {
            text.append("\n");
            text.append(self.memo.as_str());
        }
        text
    }
}

} // verus!
