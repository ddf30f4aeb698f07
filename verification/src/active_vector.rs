//! `ActiveVector`: a batching queue that never splits a request across batches.
use vstd::prelude::*;

verus! {

/// One text of a request, waiting in an [`ActiveVector`].
pub struct QueuedItem<S> {
    /// The text to embed.
    pub text: String,
    /// Identifier of the request the text belongs to.
    pub request_id: u128,
    /// Handle that answers the request.
    pub sender: S,
    /// When the item was queued (in the owner's clock units).
    pub timestamp: u64,
}

/// What an [`ActiveVector::extend`] asks its owner to notify.
pub struct Notification {
    /// A new first item arrived: restart the timer from this timestamp.
    pub timer: Option<u64>,
    /// Items are waiting: the batch processor should have a look.
    pub batch: bool,
}

/// The request identifiers of a sequence of queued items.
pub open spec fn request_ids<S>(items: Seq<QueuedItem<S>>) -> Seq<u128> {
    items.map_values(|it: QueuedItem<S>| it.request_id)
}

/// Index `b` separates two requests of `ids` (or is one of its ends).
pub open spec fn is_request_boundary(ids: Seq<u128>, b: int) -> bool {
    b == 0 || b == ids.len() || (0 < b < ids.len() && ids[b - 1] != ids[b])
}

/// `k` is the number of leading items that a batch of soft maximum size
/// `max_size` takes from `ids`: whole requests only, as many as fit, and if
/// the first request alone does not fit, that request.
pub open spec fn batch_cut(ids: Seq<u128>, max_size: nat, k: int) -> bool {
    if ids.len() == 0 || max_size == 0 {
        k == 0
    } else {
        &&& 0 < k <= ids.len()
        &&& is_request_boundary(ids, k)
        &&& {
            ||| k <= max_size && forall|b: int| k < b <= max_size ==> !is_request_boundary(ids, b)
            ||| k > max_size && forall|i: int| 0 <= i < k ==> #[trigger] ids[i] == ids[0]
        }
    }
}

/// When items are left after a cut, no position up to `max_size` past the
/// cut ends a request.
proof fn lemma_next_request_does_not_fit(ids: Seq<u128>, max_size: nat, k: int, b: int)
    requires
        batch_cut(ids, max_size, k),
        ids.len() > 0,
        max_size > 0,
        k < ids.len(),
        k < b <= max_size,
    ensures
        b < ids.len(),
        ids[b - 1] == ids[b],
{
    assert(k <= max_size);
    if b >= ids.len() {
        assert(is_request_boundary(ids, ids.len() as int));
    }
    assert(!is_request_boundary(ids, b));
}

/// What a cut chosen by `batch_cut` is: nothing when there is nothing to
/// take or no room; else a non-empty prefix that ends where a request ends,
/// that stays within `max_size` unless it is the first request alone, and,
/// when items are left, after which the next request would not fit.
pub proof fn law_batch_cut_takes_whole_requests(ids: Seq<u128>, max_size: nat, k: int)
    requires
        batch_cut(ids, max_size, k),
    ensures
        ids.len() == 0 || max_size == 0 ==> k == 0,
        ids.len() > 0 && max_size > 0 ==> 0 < k <= ids.len(),
        ids.len() > 0 && max_size > 0 ==> k == ids.len() || ids[k - 1] != ids[k],
        ids.len() > 0 && max_size > 0 ==> k <= max_size || forall|i: int|
            0 <= i < k ==> #[trigger] ids[i] == ids[0],
        ids.len() > 0 && max_size > 0 && k < ids.len() && k < max_size ==> max_size < ids.len(),
        ids.len() > 0 && max_size > 0 && k < ids.len() ==> forall|b: int|
            k < b <= max_size ==> #[trigger] ids[b - 1] == ids[b],
{
    if ids.len() > 0 && max_size > 0 {
        assert(is_request_boundary(ids, k));
        if k < ids.len() {
            if k < max_size {
                lemma_next_request_does_not_fit(ids, max_size, k, max_size as int);
            }
            assert forall|b: int| k < b <= max_size implies #[trigger] ids[b - 1] == ids[b] by {
                lemma_next_request_does_not_fit(ids, max_size, k, b);
            }
        }
        if k > max_size {
            assert(forall|i: int| 0 <= i < k ==> #[trigger] ids[i] == ids[0]);
        }
    }
}

/// A wrapper around a vector of queued items that only lets whole requests
/// in and out.
pub struct ActiveVector<S> {
    /// Internal storage for the queued items.
    items: Vec<QueuedItem<S>>,
}

impl<S> ActiveVector<S> {
    /// The queued items, in arrival order.
    pub closed spec fn items(&self) -> Seq<QueuedItem<S>> {
        self.items@
    }

    /// Create an empty vector.
    pub fn new() -> (r: Self)
        ensures
            r.items() == Seq::<QueuedItem<S>>::empty(),
    {
        ActiveVector { items: Vec::new() }
    }

    /// Add the items of one request at the end, keeping them together.
    ///
    /// Asks to restart the timer with the first item's timestamp when the
    /// vector was empty and is not any more, and to wake the batch
    /// processor whenever items are waiting.
    pub fn extend(&mut self, new_items: Vec<QueuedItem<S>>) -> (n: Notification)
        ensures
            final(self).items() == old(self).items() + new_items@,
            n.timer == if old(self).items().len() == 0 && new_items@.len() > 0 {
                Some(new_items@[0].timestamp)
            } else {
                None::<u64>
            },
            n.batch == (final(self).items().len() > 0),
    {
        let was_empty = self.items.is_empty();
        let mut new_items = new_items;
        self.items.append(&mut new_items);
        let timer = if was_empty && !self.items.is_empty() {
            Some(self.items[0].timestamp)
        } else {
            None
        };
        Notification { timer, batch: !self.items.is_empty() }
    }

    /// Take a batch of whole requests from the front, of at most `max_size`
    /// items if the first request fits, else that first request alone.
    /// Returns the batch, in order, and the timestamp to restart the timer
    /// from when items remain after a non-empty batch.
    pub fn slice(&mut self, max_size: usize) -> (r: (Vec<QueuedItem<S>>, Option<u64>))
        ensures
            batch_cut(request_ids(old(self).items()), max_size as nat, r.0@.len() as int),
            r.0@ == old(self).items().take(r.0@.len() as int),
            final(self).items() == old(self).items().skip(r.0@.len() as int),
            r.1 == if r.0@.len() > 0 && final(self).items().len() > 0 {
                Some(final(self).items()[0].timestamp)
            } else {
                None::<u64>
            },
    {
        let ghost ids = request_ids(self.items@);
        let n = self.items.len();
        if n == 0 || max_size == 0 {
            assert(self.items@.skip(0) =~= self.items@);
            assert(self.items@.take(0) =~= Seq::<QueuedItem<S>>::empty());
            return (Vec::new(), None);
        }
        let mut i: usize = 0;
        let mut cut: usize = 0;
        while i < n
            invariant_except_break
                i == cut,
                cut <= max_size,
            invariant
                n == self.items@.len(),
                ids == request_ids(self.items@),
                0 < max_size,
                0 < n,
                i <= n,
                cut <= n,
                is_request_boundary(ids, cut as int),
                forall|b: int| 0 < b <= i ==> (is_request_boundary(ids, b) ==> b <= cut),
            ensures
                0 < cut,
                ({
                    ||| cut <= max_size && forall|b: int|
                        cut < b <= max_size ==> !is_request_boundary(ids, b)
                    ||| cut > max_size && forall|k: int| 0 <= k < cut ==> #[trigger] ids[k] == ids[0]
                }),
            decreases n - i,
        {
            let current_request_id = self.items[i].request_id;
            let mut j: usize = i;
            while j < n && self.items[j].request_id == current_request_id
                invariant
                    n == self.items@.len(),
                    ids == request_ids(self.items@),
                    i < n,
                    i <= j <= n,
                    current_request_id == ids[i as int],
                    forall|k: int| i <= k < j ==> ids[k] == current_request_id,
                decreases n - j,
            {
                j += 1;
            }
            assert(is_request_boundary(ids, j as int));
            assert(forall|b: int| i < b < j ==> !is_request_boundary(ids, b));
            if cut + (j - i) <= max_size {
                cut = j;
                i = j;
            } else {
                if cut == 0 {
                    cut = j;
                    assert forall|k: int| 0 <= k < cut implies #[trigger] ids[k] == ids[0] by {}
                }
                break;
            }
        }
        let rest = self.items.split_off(cut);
        let mut batch = rest;
        std::mem::swap(&mut batch, &mut self.items);
        let timer = if cut > 0 && !self.items.is_empty() {
            Some(self.items[0].timestamp)
        } else {
            None
        };
        (batch, timer)
    }

    /// Number of queued items.
    pub fn len(&self) -> (r: usize)
        ensures
            r == self.items().len(),
    {
        self.items.len()
    }

    /// Whether nothing is queued.
    pub fn is_empty(&self) -> (r: bool)
        ensures
            r == (self.items().len() == 0),
    {
        self.items.is_empty()
    }

    /// The timestamp of the first queued item, if any.
    pub fn first_timestamp(&self) -> (r: Option<u64>)
        ensures
            r == if self.items().len() > 0 {
                Some(self.items()[0].timestamp)
            } else {
                None::<u64>
            },
    {
        if self.items.is_empty() {
            None
        } else {
            Some(self.items[0].timestamp)
        }
    }
}

impl<S> Default for ActiveVector<S> {
    fn default() -> (r: Self)
        ensures
            r.items() == Seq::<QueuedItem<S>>::empty(),
    {
        Self::new()
    }
}

} // verus!
