//! Decisions of the batching coordinator: how requests become batch items,
//! and how the outcome of an upstream call is handed back to each request.
use vstd::prelude::*;
use crate::config::Config;
use crate::tray::{appended, triggered, Tray, TrayAction};
use crate::types::{BatchError, BatchItem};
use vstd::string::StringExecFns;

verus! {

/// A result to hand back to one waiting request.
pub struct Delivery<S, E> {
    /// The handle of the request.
    pub sender: S,
    /// What the request is answered: its embeddings, or an error.
    pub result: Result<Vec<E>, BatchError>,
}

/// Indices, in increasing order, of the items of `batch` that carry a sender,
/// i.e. the items that start a request.
pub open spec fn sender_positions<S>(batch: Seq<BatchItem<S>>) -> Seq<int>
    decreases batch.len(),
{
    if batch.len() == 0 {
        Seq::empty()
    } else {
        let prev = sender_positions(batch.drop_last());
        if batch.last().sender is Some {
            prev.push(batch.len() - 1)
        } else {
            prev
        }
    }
}

/// First index of the embeddings owed to the `j`-th request. Items before the
/// first sender have no request of their own and count towards the first one.
pub open spec fn group_start(pos: Seq<int>, j: int) -> int {
    if j == 0 {
        0
    } else {
        pos[j]
    }
}

/// One past the last index of the embeddings owed to the `j`-th request.
pub open spec fn group_end(pos: Seq<int>, j: int, n: int) -> int {
    if j + 1 < pos.len() {
        pos[j + 1]
    } else {
        n
    }
}

/// `d` answers `sender` with exactly the embeddings `embeddings`.
pub open spec fn delivers_ok<S, E>(d: Delivery<S, E>, sender: S, embeddings: Seq<E>) -> bool {
    &&& d.sender == sender
    &&& d.result matches Ok(v) && v@ == embeddings
}

/// `out` answers every request of `batch`, in order, with the embeddings at
/// the positions of its items.
pub open spec fn results_by_request<S, E>(
    batch: Seq<BatchItem<S>>,
    embeddings: Seq<E>,
    out: Seq<Delivery<S, E>>,
) -> bool {
    let pos = sender_positions(batch);
    &&& out.len() == pos.len()
    &&& forall|j: int|
        0 <= j < pos.len() ==> delivers_ok(
            #[trigger] out[j],
            batch[pos[j]].sender.unwrap(),
            embeddings.subrange(group_start(pos, j), group_end(pos, j, batch.len() as int)),
        )
}

/// `d` answers `sender` with an error of HTTP status `status` and message
/// `message`.
pub open spec fn delivers_error<S, E>(
    d: Delivery<S, E>,
    sender: S,
    status: u16,
    message: Seq<char>,
) -> bool {
    &&& d.sender == sender
    &&& d.result matches Err(e) && e.status() == status && e.message() == message
}

/// `out` answers every request of `batch`, in order, with an error of HTTP
/// status `status` and message `message`.
pub open spec fn error_to_each_request<S, E>(
    batch: Seq<BatchItem<S>>,
    status: u16,
    message: Seq<char>,
    out: Seq<Delivery<S, E>>,
) -> bool {
    let pos = sender_positions(batch);
    &&& out.len() == pos.len()
    &&& forall|j: int|
        0 <= j < pos.len() ==> delivers_error(
            #[trigger] out[j],
            batch[pos[j]].sender.unwrap(),
            status,
            message,
        )
}

/// `out` is how the embeddings computed for `batch` are handed back: each
/// request gets its own if there is one embedding per item, else every
/// request gets a 502 error.
pub open spec fn embeddings_delivered<S, E>(
    batch: Seq<BatchItem<S>>,
    embeddings: Seq<E>,
    out: Seq<Delivery<S, E>>,
) -> bool {
    &&& batch.len() == embeddings.len() ==> results_by_request(batch, embeddings, out)
    &&& batch.len() != embeddings.len() ==> error_to_each_request(
        batch,
        502,
        "Batch size mismatch with embeddings"@,
        out,
    )
}

/// The items made of one request: one per text, in order, with the sender
/// on the first item only.
pub open spec fn request_items<S>(inputs: Seq<String>, sender: S) -> Seq<BatchItem<S>> {
    Seq::new(
        inputs.len(),
        |k: int|
            BatchItem {
                text: inputs[k],
                sender: if k == 0 {
                    Some(sender)
                } else {
                    None
                },
            },
    )
}

/// The status code answered for an unsuccessful upstream status: the
/// status itself when it is a valid HTTP status code, else 502.
pub open spec fn upstream_status(code: u16) -> u16 {
    if 100 <= code <= 999 {
        code
    } else {
        502
    }
}

/// Basic facts on the sender positions: in range, increasing, and each one
/// is an item with a sender.
pub proof fn lemma_sender_positions<S>(batch: Seq<BatchItem<S>>)
    ensures
        forall|k: int|
            0 <= k < sender_positions(batch).len() ==> 0 <= #[trigger] sender_positions(batch)[k]
                < batch.len() && batch[sender_positions(batch)[k]].sender is Some,
        forall|k: int, l: int|
            0 <= k < l < sender_positions(batch).len() ==> #[trigger] sender_positions(batch)[k]
                < #[trigger] sender_positions(batch)[l],
    decreases batch.len(),
{
    if batch.len() > 0 {
        lemma_sender_positions(batch.drop_last());
    }
}

/// Adding one item to a prefix adds its index to the sender positions
/// exactly when it carries a sender.
pub proof fn lemma_sender_positions_step<S>(batch: Seq<BatchItem<S>>, i: int)
    requires
        0 <= i < batch.len(),
    ensures
        sender_positions(batch.take(i + 1)) == if batch[i].sender is Some {
            sender_positions(batch.take(i)).push(i)
        } else {
            sender_positions(batch.take(i))
        },
{
    assert(batch.take(i + 1).drop_last() =~= batch.take(i));
}

/// The batch made of the items of requests queued one after the other; each
/// request is its texts and its sender.
pub open spec fn batch_of_requests<S>(reqs: Seq<(Seq<String>, S)>) -> Seq<BatchItem<S>>
    decreases reqs.len(),
{
    if reqs.len() == 0 {
        Seq::empty()
    } else {
        batch_of_requests(reqs.drop_last()) + request_items(reqs.last().0, reqs.last().1)
    }
}

/// Position, in the batch made of `reqs`, of the first item of request `j`.
pub open spec fn request_offset<S>(reqs: Seq<(Seq<String>, S)>, j: int) -> int {
    batch_of_requests(reqs.take(j)).len() as int
}

/// The sender positions of two batches put end to end.
proof fn lemma_sender_positions_concat<S>(a: Seq<BatchItem<S>>, b: Seq<BatchItem<S>>)
    ensures
        sender_positions(a + b) == sender_positions(a) + sender_positions(b).map_values(
            |p: int| p + a.len(),
        ),
    decreases b.len(),
{
    if b.len() == 0 {
        assert(a + b =~= a);
        assert(sender_positions(b).map_values(|p: int| p + a.len()) =~= Seq::<int>::empty());
        assert(sender_positions(a) + Seq::<int>::empty() =~= sender_positions(a));
    } else {
        lemma_sender_positions_concat(a, b.drop_last());
        assert((a + b).drop_last() =~= a + b.drop_last());
        let m = sender_positions(b.drop_last()).map_values(|p: int| p + a.len());
        if b.last().sender is Some {
            assert(sender_positions(b).map_values(|p: int| p + a.len()) =~= m.push(
                b.len() - 1 + a.len(),
            ));
            assert(sender_positions(a) + m.push(b.len() - 1 + a.len()) =~= (sender_positions(a)
                + m).push(b.len() - 1 + a.len()));
        } else {
            assert(sender_positions(b).map_values(|p: int| p + a.len()) =~= m);
        }
    }
}

/// The items of one request with at least one text start a single request,
/// at their first position.
proof fn lemma_sender_positions_request<S>(inputs: Seq<String>, sender: S)
    requires
        inputs.len() > 0,
    ensures
        sender_positions(request_items(inputs, sender)) == seq![0int],
    decreases inputs.len(),
{
    let items = request_items(inputs, sender);
    if inputs.len() == 1 {
        assert(items.drop_last() =~= Seq::<BatchItem<S>>::empty());
        assert(sender_positions(items.drop_last()) =~= Seq::<int>::empty());
        assert(Seq::<int>::empty().push(0) =~= seq![0int]);
    } else {
        lemma_sender_positions_request(inputs.drop_last(), sender);
        assert(items.drop_last() =~= request_items(inputs.drop_last(), sender));
    }
}

/// Each request spans as many items as it has texts.
proof fn lemma_request_offsets<S>(reqs: Seq<(Seq<String>, S)>)
    ensures
        batch_of_requests(reqs).len() == request_offset(reqs, reqs.len() as int),
        request_offset(reqs, 0) == 0,
        forall|j: int|
            0 <= j < reqs.len() ==> request_offset(reqs, j + 1) == request_offset(reqs, j)
                + (#[trigger] reqs[j]).0.len(),
{
    assert(reqs.take(reqs.len() as int) =~= reqs);
    assert(reqs.take(0) =~= Seq::<(Seq<String>, S)>::empty());
    assert forall|j: int| 0 <= j < reqs.len() implies request_offset(reqs, j + 1)
        == request_offset(reqs, j) + (#[trigger] reqs[j]).0.len() by {
        assert(reqs.take(j + 1).drop_last() =~= reqs.take(j));
    }
}

/// The requests of a batch start at their offsets.
proof fn lemma_batch_of_requests<S>(reqs: Seq<(Seq<String>, S)>)
    requires
        forall|j: int| 0 <= j < reqs.len() ==> (#[trigger] reqs[j]).0.len() > 0,
    ensures
        sender_positions(batch_of_requests(reqs)) == Seq::new(
            reqs.len(),
            |j: int| request_offset(reqs, j),
        ),
    decreases reqs.len(),
{
    if reqs.len() > 0 {
        let init = reqs.drop_last();
        let last = reqs.last();
        assert(forall|j: int| 0 <= j < init.len() ==> #[trigger] init[j] == reqs[j]);
        lemma_batch_of_requests(init);
        lemma_sender_positions_concat(batch_of_requests(init), request_items(last.0, last.1));
        lemma_sender_positions_request(last.0, last.1);
        lemma_request_offsets(init);
        assert forall|j: int| 0 <= j < reqs.len() implies #[trigger] request_offset(reqs, j)
            == request_offset(init, j) by {
            assert(reqs.take(j) =~= init.take(j));
        }
        assert(sender_positions(batch_of_requests(reqs)) =~= Seq::new(
            reqs.len(),
            |j: int| request_offset(reqs, j),
        ));
    }
}

/// The item at the offset of a request is its first item, which carries its
/// sender.
proof fn lemma_request_senders<S>(reqs: Seq<(Seq<String>, S)>, j: int)
    requires
        forall|k: int| 0 <= k < reqs.len() ==> (#[trigger] reqs[k]).0.len() > 0,
        0 <= j < reqs.len(),
    ensures
        batch_of_requests(reqs)[request_offset(reqs, j)].sender == Some(reqs[j].1),
    decreases reqs.len(),
{
    let init = reqs.drop_last();
    let last = reqs.last();
    assert(forall|k: int| 0 <= k < init.len() ==> #[trigger] init[k] == reqs[k]);
    lemma_request_offsets(init);
    assert(reqs.take(j) =~= init.take(j));
    if j == init.len() {
        assert(init.take(j) =~= init);
    } else {
        lemma_request_senders(init, j);
        lemma_batch_of_requests(init);
        lemma_sender_positions(batch_of_requests(init));
        assert(sender_positions(batch_of_requests(init))[j] == request_offset(init, j));
    }
}

/// What the `j`-th request of a batch made of `reqs` is owed by the
/// distribution: its sender, and the positions of its texts.
proof fn lemma_request_group<S>(reqs: Seq<(Seq<String>, S)>, j: int)
    requires
        forall|k: int| 0 <= k < reqs.len() ==> (#[trigger] reqs[k]).0.len() > 0,
        0 <= j < reqs.len(),
    ensures
        ({
            let batch = batch_of_requests(reqs);
            let pos = sender_positions(batch);
            &&& pos.len() == reqs.len()
            &&& batch[pos[j]].sender.unwrap() == reqs[j].1
            &&& group_start(pos, j) == request_offset(reqs, j)
            &&& group_end(pos, j, batch.len() as int) == request_offset(reqs, j) + reqs[j].0.len()
        }),
{
    let batch = batch_of_requests(reqs);
    let pos = sender_positions(batch);
    assert(pos.len() == reqs.len() && pos[j] == request_offset(reqs, j)) by {
        lemma_batch_of_requests(reqs);
    }
    assert(j + 1 < reqs.len() ==> pos[j + 1] == request_offset(reqs, j + 1)) by {
        lemma_batch_of_requests(reqs);
    }
    assert(request_offset(reqs, j + 1) == request_offset(reqs, j) + reqs[j].0.len()
        && request_offset(reqs, 0) == 0 && batch.len() == request_offset(
        reqs,
        reqs.len() as int,
    )) by {
        lemma_request_offsets(reqs);
    }
    assert(batch[pos[j]].sender == Some(reqs[j].1)) by {
        lemma_request_senders(reqs, j);
    }
}

/// Each request of a batch gets back exactly the embeddings of its own
/// texts, in order. When the batch is made of requests queued one after the
/// other, each with at least one text, and the upstream service returns one
/// embedding per text, the `j`-th request is answered with the embeddings
/// at the positions of its texts.
pub proof fn law_each_request_gets_its_embeddings<S, E>(
    reqs: Seq<(Seq<String>, S)>,
    embeddings: Seq<E>,
    out: Seq<Delivery<S, E>>,
)
    requires
        forall|j: int| 0 <= j < reqs.len() ==> (#[trigger] reqs[j]).0.len() > 0,
        embeddings.len() == batch_of_requests(reqs).len(),
        embeddings_delivered(batch_of_requests(reqs), embeddings, out),
    ensures
        out.len() == reqs.len(),
        forall|j: int|
            0 <= j < reqs.len() ==> {
                &&& (#[trigger] out[j]).sender == reqs[j].1
                &&& out[j].result matches Ok(w) && w@ == embeddings.subrange(
                    request_offset(reqs, j),
                    request_offset(reqs, j) + reqs[j].0.len(),
                )
            },
{
    lemma_batch_of_requests(reqs);
    assert forall|j: int| 0 <= j < reqs.len() implies delivers_ok(
        #[trigger] out[j],
        reqs[j].1,
        embeddings.subrange(request_offset(reqs, j), request_offset(reqs, j) + reqs[j].0.len()),
    ) by {
        lemma_request_group(reqs, j);
    }
}

/// What `Batcher::complete_batch` answers when the upstream service returns
/// one embedding per text: each request of a batch made of requests queued
/// one after the other gets exactly the embeddings at the positions of its
/// own texts, in order.
pub proof fn law_complete_batch_answers_each_request_its_embeddings<S, E>(
    reqs: Seq<(Seq<String>, S)>,
    v: Vec<E>,
    out: Seq<Delivery<S, E>>,
)
    requires
        forall|j: int| 0 <= j < reqs.len() ==> (#[trigger] reqs[j]).0.len() > 0,
        v@.len() == batch_of_requests(reqs).len(),
        batch_completed(batch_of_requests(reqs), UpstreamReply::Embeddings(v), out),
    ensures
        out.len() == reqs.len(),
        forall|j: int|
            0 <= j < reqs.len() ==> {
                &&& (#[trigger] out[j]).sender == reqs[j].1
                &&& out[j].result matches Ok(w) && w@ == v@.subrange(
                    request_offset(reqs, j),
                    request_offset(reqs, j) + reqs[j].0.len(),
                )
            },
{
    law_each_request_gets_its_embeddings(reqs, v@, out);
}

/// What `Batcher::complete_batch` answers when the upstream call failed:
/// every answer is an error; an unsuccessful status is passed through as it
/// is when it is a valid HTTP status code (100 to 999), else 502, with the
/// body (or "Unknown error" when it could not be read); a connection failure
/// or an unreadable reply is a 502 whose message says so.
pub proof fn law_complete_batch_failures<S, E>(
    batch: Seq<BatchItem<S>>,
    reply: UpstreamReply<E>,
    out: Seq<Delivery<S, E>>,
)
    requires
        batch_completed(batch, reply, out),
        !(reply is Embeddings),
    ensures
        forall|j: int|
            0 <= j < out.len() ==> ((#[trigger] out[j]).result matches Err(e) && match reply {
                UpstreamReply::Failed(code, body) => {
                    &&& (100 <= code <= 999 ==> e.status() == code)
                    &&& (!(100 <= code <= 999) ==> e.status() == 502)
                    &&& e.message() == match body {
                        Some(text) => text@,
                        None => "Unknown error"@,
                    }
                },
                UpstreamReply::ConnectionFailed(m) => e.status() == 502 && e.message()
                    == "Connection failed: "@ + m@,
                UpstreamReply::Unparseable(m) => e.status() == 502 && e.message()
                    == "Failed to parse response: "@ + m@,
                UpstreamReply::Embeddings(_) => false,
            }),
{
    let pos = sender_positions(batch);
    assert forall|j: int| 0 <= j < out.len() implies ((#[trigger] out[j]).result matches Err(
        e,
    ) && match reply {
        UpstreamReply::Failed(code, body) => {
            &&& (100 <= code <= 999 ==> e.status() == code)
            &&& (!(100 <= code <= 999) ==> e.status() == 502)
            &&& e.message() == match body {
                Some(text) => text@,
                None => "Unknown error"@,
            }
        },
        UpstreamReply::ConnectionFailed(m) => e.status() == 502 && e.message()
            == "Connection failed: "@ + m@,
        UpstreamReply::Unparseable(m) => e.status() == 502 && e.message()
            == "Failed to parse response: "@ + m@,
        UpstreamReply::Embeddings(_) => false,
    }) by {
        assert(0 <= j < pos.len());
    }
}

/// When the upstream service returns a number of embeddings other than the
/// number of texts sent, every answer is a 502 error saying so.
pub proof fn law_embedding_count_mismatch<S, E>(
    batch: Seq<BatchItem<S>>,
    v: Vec<E>,
    out: Seq<Delivery<S, E>>,
)
    requires
        batch_completed(batch, UpstreamReply::Embeddings(v), out),
        v@.len() != batch.len(),
    ensures
        forall|j: int|
            0 <= j < out.len() ==> ((#[trigger] out[j]).result matches Err(e) && e.status() == 502
                && e.message() == "Batch size mismatch with embeddings"@),
{
    let pos = sender_positions(batch);
    assert forall|j: int| 0 <= j < out.len() implies ((#[trigger] out[j]).result matches Err(e)
        && e.status() == 502 && e.message() == "Batch size mismatch with embeddings"@) by {
        assert(0 <= j < pos.len());
    }
}

/// The items made for one request carry its texts in input order, one item
/// per text, and its sender on the first item only.
pub proof fn law_request_items_keep_input_order<S>(
    inputs: Seq<String>,
    sender: S,
    items: Seq<BatchItem<S>>,
)
    requires
        items == request_items(inputs, sender),
    ensures
        items.len() == inputs.len(),
        forall|k: int| 0 <= k < inputs.len() ==> (#[trigger] items[k]).text == inputs[k],
        inputs.len() > 0 ==> items[0].sender == Some(sender),
        forall|k: int| 0 < k < inputs.len() ==> (#[trigger] items[k]).sender is None,
{
}

/// In a batch made of requests queued one after the other, the `k`-th text
/// of request `j` stands at position `offset_j + k`, and only the first
/// text of a request carries its sender.
pub proof fn law_batch_texts_follow_requests<S>(reqs: Seq<(Seq<String>, S)>, j: int, k: int)
    requires
        0 <= j < reqs.len(),
        0 <= k < reqs[j].0.len(),
    ensures
        request_offset(reqs, j) + k < batch_of_requests(reqs).len(),
        batch_of_requests(reqs)[request_offset(reqs, j) + k].text == reqs[j].0[k],
        batch_of_requests(reqs)[request_offset(reqs, j) + k].sender == if k == 0 {
            Some(reqs[j].1)
        } else {
            None
        },
    decreases reqs.len(),
{
    let init = reqs.drop_last();
    lemma_request_offsets(reqs);
    lemma_request_offsets(init);
    assert(reqs.take(j) =~= init.take(j) || j == init.len());
    assert(batch_of_requests(reqs) == batch_of_requests(init) + request_items(
        reqs.last().0,
        reqs.last().1,
    ));
    if j == init.len() {
        assert(reqs.take(j) =~= init);
        assert(reqs[j] == reqs.last());
    } else {
        assert(reqs.take(j) =~= init.take(j));
        assert(init[j] == reqs[j]);
        law_batch_texts_follow_requests(init, j, k);
    }
}

/// A failed batch answers each of its requests exactly once, in order, with
/// the error.
pub proof fn law_each_request_gets_the_error<S, E>(
    reqs: Seq<(Seq<String>, S)>,
    status: u16,
    message: Seq<char>,
    out: Seq<Delivery<S, E>>,
)
    requires
        forall|j: int| 0 <= j < reqs.len() ==> (#[trigger] reqs[j]).0.len() > 0,
        error_to_each_request(batch_of_requests(reqs), status, message, out),
    ensures
        out.len() == reqs.len(),
        forall|j: int|
            0 <= j < reqs.len() ==> {
                &&& (#[trigger] out[j]).sender == reqs[j].1
                &&& out[j].result matches Err(e) && e.status() == status && e.message() == message
            },
{
    lemma_batch_of_requests(reqs);
    assert forall|j: int| 0 <= j < reqs.len() implies delivers_error(
        #[trigger] out[j],
        reqs[j].1,
        status,
        message,
    ) by {
        lemma_request_group(reqs, j);
    }
}

/// The elements of `v` in reverse order.
fn reversed<T>(v: Vec<T>) -> (r: Vec<T>)
    ensures
        r.len() == v.len(),
        forall|k: int| 0 <= k < v.len() ==> r@[k] == v@[v.len() - 1 - k],
{
    let mut v = v;
    let ghost orig = v@;
    let mut r: Vec<T> = Vec::new();
    while v.len() > 0
        invariant
            r.len() <= orig.len(),
            v@ == orig.take(orig.len() - r.len()),
            forall|k: int| 0 <= k < r.len() ==> r@[k] == orig[orig.len() - 1 - k],
        decreases v.len(),
    {
        let x = v.pop().unwrap();
        r.push(x);
    }
    r
}

/// Make the batch items of one request: one per text, in order, with the
/// sender on the first item only.
pub fn make_batch_items<S>(inputs: Vec<String>, sender: S) -> (r: Vec<BatchItem<S>>)
    ensures
        r@ == request_items(inputs@, sender),
{
    let n = inputs.len();
    let ghost ins = inputs@;
    let mut texts = reversed(inputs);
    let mut out: Vec<BatchItem<S>> = Vec::new();
    let mut sender_slot: Option<S> = Some(sender);
    let mut i: usize = 0;
    while i < n
        invariant
            n == ins.len(),
            i <= n,
            texts.len() == n - i,
            forall|k: int| 0 <= k < n - i ==> texts@[k] == ins[n - 1 - k],
            out@ == request_items(ins.take(i as int), sender),
            sender_slot == if i == 0 {
                Some(sender)
            } else {
                None::<S>
            },
        decreases n - i,
    {
        let text = texts.pop().unwrap();
        out.push(BatchItem { text, sender: sender_slot });
        sender_slot = None;
        assert(out@ =~= request_items(ins.take(i + 1), sender));
        i += 1;
    }
    assert(ins.take(n as int) =~= ins);
    out
}

/// Answer every request of `batch` with `error`; items without a sender
/// answer nothing.
pub fn distribute_error<S, E>(batch: Vec<BatchItem<S>>, error: &BatchError) -> (r: Vec<
    Delivery<S, E>,
>)
    ensures
        error_to_each_request(batch@, error.status(), error.message(), r@),
{
    let n = batch.len();
    let ghost b = batch@;
    let mut items = reversed(batch);
    let mut out: Vec<Delivery<S, E>> = Vec::new();
    let mut i: usize = 0;
    while i < n
        invariant
            n == b.len(),
            i <= n,
            items.len() == n - i,
            forall|k: int| 0 <= k < n - i ==> items@[k] == b[n - 1 - k],
            error_to_each_request(b.take(i as int), error.status(), error.message(), out@),
        decreases n - i,
    {
        let item = items.pop().unwrap();
        proof {
            lemma_sender_positions_step(b, i as int);
            lemma_sender_positions(b.take(i as int));
            assert(item == b[i as int]);
        }
        match item.sender {
            Some(sender) => {
                out.push(Delivery { sender, result: Err(error.duplicate()) });
            },
            None => {},
        }
        i += 1;
    }
    assert(b.take(n as int) =~= b);
    out
}

/// Hand the embeddings of a processed batch back to the requests.
///
/// Each request receives, in order, the embeddings of its own items: those
/// from its first item (the one with the sender) up to the next request.
/// If the number of embeddings differs from the number of items, every
/// request receives a 502 error instead.
pub fn distribute_results<S, E>(batch: Vec<BatchItem<S>>, embeddings: Vec<E>) -> (r: Vec<
    Delivery<S, E>,
>)
    ensures
        embeddings_delivered(batch@, embeddings@, r@),
{
    if batch.len() != embeddings.len() {
        let error = BatchError::UpstreamError(502, "Batch size mismatch with embeddings".to_string());
        return distribute_error(batch, &error);
    }
    let n = batch.len();
    let ghost b = batch@;
    let ghost e = embeddings@;
    let mut items = reversed(batch);
    let mut embs = reversed(embeddings);
    let mut out: Vec<Delivery<S, E>> = Vec::new();
    let mut current: Option<S> = None;
    let mut acc: Vec<E> = Vec::new();
    let mut i: usize = 0;
    while i < n
        invariant
            n == b.len(),
            n == e.len(),
            i <= n,
            items.len() == n - i,
            embs.len() == n - i,
            forall|k: int| 0 <= k < n - i ==> items@[k] == b[n - 1 - k],
            forall|k: int| 0 <= k < n - i ==> embs@[k] == e[n - 1 - k],
            ({
                let pos = sender_positions(b.take(i as int));
                &&& out.len() == if pos.len() == 0 {
                    0
                } else {
                    pos.len() - 1
                }
                &&& forall|j: int|
                    0 <= j < out.len() ==> delivers_ok(
                        #[trigger] out@[j],
                        b[pos[j]].sender.unwrap(),
                        e.subrange(group_start(pos, j), pos[j + 1]),
                    )
                &&& pos.len() == 0 ==> current is None && acc@ == e.take(i as int)
                &&& pos.len() > 0 ==> current == b[pos[pos.len() - 1]].sender && acc@
                    == e.subrange(group_start(pos, pos.len() - 1), i as int)
            }),
        decreases n - i,
    {
        let item = items.pop().unwrap();
        let emb = embs.pop().unwrap();
        let ghost pos = sender_positions(b.take(i as int));
        proof {
            lemma_sender_positions_step(b, i as int);
            lemma_sender_positions(b.take(i as int));
        }
        match item.sender {
            Some(sender) => {
                match current {
                    Some(prev) => {
                        out.push(Delivery { sender: prev, result: Ok(acc) });
                        acc = Vec::new();
                    },
                    None => {},
                }
                current = Some(sender);
            },
            None => {},
        }
        acc.push(emb);
        proof {
            let pos2 = sender_positions(b.take(i + 1));
            if pos.len() > 0 {
                assert(e.subrange(group_start(pos2, pos2.len() - 1), i + 1) =~= e.subrange(
                    group_start(pos2, pos2.len() - 1),
                    i as int,
                ).push(e[i as int]));
            } else {
                assert(e.take(i + 1) =~= e.take(i as int).push(e[i as int]));
            }
            if b[i as int].sender is Some && pos.len() == 0 {
                assert(e.subrange(0, i + 1) =~= e.take(i + 1));
            }
            if b[i as int].sender is Some && pos.len() > 0 {
                assert(acc@ =~= e.subrange(i as int, i + 1));
            }
        }
        i += 1;
    }
    assert(b.take(n as int) =~= b);
    let ghost pos = sender_positions(b);
    let ghost before = out@;
    proof {
        lemma_sender_positions(b);
    }
    match current {
        Some(sender) => {
            out.push(Delivery { sender, result: Ok(acc) });
        },
        None => {},
    }
    assert forall|j: int| 0 <= j < pos.len() implies delivers_ok(
        #[trigger] out@[j],
        b[pos[j]].sender.unwrap(),
        e.subrange(group_start(pos, j), group_end(pos, j, n as int)),
    ) by {
        lemma_sender_positions(b);
        if j < pos.len() - 1 {
            assert(out@[j] == before[j]);
            assert(group_end(pos, j, n as int) == pos[j + 1]);
        } else {
            assert(group_end(pos, j, n as int) == n);
            assert(out@[j].sender == b[pos[j]].sender.unwrap());
        }
    }
    out
}

/// The status code to answer when the upstream service replied with the
/// unsuccessful status `code`: `code` if it is a valid HTTP status code,
/// else 502 (Bad Gateway).
pub fn status_or_bad_gateway(code: u16) -> (r: u16)
    ensures
        r == upstream_status(code),
{
    if 100 <= code && code <= 999 {
        code
    } else {
        502
    }
}

/// Whether an HTTP status code denotes success (the 2xx class).
pub fn is_success_status(code: u16) -> (r: bool)
    ensures
        r == (200 <= code && code < 300),
{
    200 <= code && code < 300
}

/// The outcome of one call to the upstream inference service.
pub enum UpstreamReply<E> {
    /// The service could not be reached; the message describes why.
    ConnectionFailed(String),
    /// The service answered an unsuccessful status, with its body if it
    /// could be read.
    Failed(u16, Option<String>),
    /// The service answered success, but the body was not a valid response.
    Unparseable(String),
    /// The embeddings computed, one per text sent.
    Embeddings(Vec<E>),
}

/// What answering the requests of `batch` after the upstream reply `reply`
/// gives.
pub open spec fn batch_completed<S, E>(
    batch: Seq<BatchItem<S>>,
    reply: UpstreamReply<E>,
    out: Seq<Delivery<S, E>>,
) -> bool {
    match reply {
        UpstreamReply::ConnectionFailed(m) => error_to_each_request(
            batch,
            502,
            "Connection failed: "@ + m@,
            out,
        ),
        UpstreamReply::Failed(code, body) => error_to_each_request(
            batch,
            upstream_status(code),
            match body {
                Some(text) => text@,
                None => "Unknown error"@,
            },
            out,
        ),
        UpstreamReply::Unparseable(m) => error_to_each_request(
            batch,
            502,
            "Failed to parse response: "@ + m@,
            out,
        ),
        UpstreamReply::Embeddings(v) => embeddings_delivered(batch, v@, out),
    }
}

/// What becomes of a request handed to the batcher.
pub enum SubmitOutcome<S> {
    /// The request has no input: answer it at once with no embeddings.
    Immediate(S),
    /// The items of the request were queued; act on the tray's answer.
    Queued(TrayAction<S>),
}

/// The batching coordinator: its configuration and the tray where requests
/// wait.
pub struct Batcher<S> {
    /// Queue of items waiting to be batched.
    tray: Tray<S>,
    /// Configuration settings.
    config: Config,
    /// The requests whose items wait in the tray, in order.
    waiting: Ghost<Seq<(Seq<String>, S)>>,
}

impl<S> Batcher<S> {
    /// The tray where requests wait.
    pub closed spec fn tray(&self) -> Tray<S> {
        self.tray
    }

    /// The configuration.
    pub closed spec fn settings(&self) -> Config {
        self.config
    }

    /// The requests whose items wait in the tray, in order: texts and sender.
    pub closed spec fn waiting(&self) -> Seq<(Seq<String>, S)> {
        self.waiting@
    }

    /// The batcher's invariant: the tray's own, and the waiting items are
    /// exactly the items of the waiting requests, each with some text.
    pub open spec fn wf(&self) -> bool {
        &&& self.tray().wf()
        &&& self.tray().items() == batch_of_requests(self.waiting())
        &&& forall|j: int|
            0 <= j < self.waiting().len() ==> (#[trigger] self.waiting()[j]).0.len() > 0
    }

    /// Create a batcher with an empty tray sized by the configuration.
    pub fn new(config: Config) -> (r: Self)
        ensures
            r.wf(),
            r.waiting().len() == 0,
            r.tray().items().len() == 0,
            r.tray().soft_max() == config.soft_max_batch_size,
            r.tray().seqno() == 0,
            r.settings() == config,
    {
        let tray = Tray::new(config.soft_max_batch_size);
        Batcher { tray, config, waiting: Ghost(Seq::empty()) }
    }

    /// The configuration.
    pub fn config(&self) -> (r: &Config)
        ensures
            *r == self.settings(),
    {
        &self.config
    }

    /// The sequence number of the batch being collected.
    pub fn batch_seqno(&self) -> (r: u64)
        ensures
            r == self.tray().seqno(),
    {
        self.tray.batch_seqno()
    }

    /// The URL of the upstream embedding endpoint.
    pub fn embed_url(&self) -> (r: String)
        ensures
            r@ == self.settings().inference_url@ + "/embed"@,
    {
        let mut url = self.config.inference_url.clone();
        url.append("/embed");
        url
    }

    /// Submit a request: a request without inputs is answered at once;
    /// otherwise its texts are queued together, the sender on the first.
    pub fn submit_request(&mut self, inputs: Vec<String>, sender: S) -> (r: SubmitOutcome<S>)
        requires
            old(self).wf(),
            old(self).tray().seqno() < u64::MAX,
        ensures
            final(self).wf(),
            final(self).settings() == old(self).settings(),
            inputs@.len() == 0 ==> r == SubmitOutcome::Immediate(sender) && final(self).tray()
                == old(self).tray() && final(self).waiting() == old(self).waiting(),
            inputs@.len() > 0 ==> (r matches SubmitOutcome::Queued(action) && appended(
                old(self).tray(),
                final(self).tray(),
                request_items(inputs@, sender),
                action,
            )),
            inputs@.len() > 0 ==> (r matches SubmitOutcome::Queued(TrayAction::Dispatch(batch))
                ==> batch@ == batch_of_requests(old(self).waiting().push((inputs@, sender)))
                && final(self).waiting().len() == 0),
            inputs@.len() > 0 ==> (r matches SubmitOutcome::Queued(action) && !(
            action is Dispatch) ==> final(self).waiting() == old(self).waiting().push(
                (inputs@, sender),
            )),
    {
        if inputs.len() == 0 {
            return SubmitOutcome::Immediate(sender);
        }
        let ghost request = (inputs@, sender);
        let items = make_batch_items(inputs, sender);
        let action = self.tray.append(items);
        proof {
            let reqs = self.waiting@.push(request);
            assert(reqs.drop_last() =~= self.waiting@);
            if action is Dispatch {
                self.waiting@ = Seq::empty();
                assert(self.tray.items() =~= batch_of_requests(self.waiting@));
            } else {
                self.waiting@ = reqs;
                assert(self.tray.items() =~= batch_of_requests(self.waiting@));
            }
        }
        SubmitOutcome::Queued(action)
    }

    /// A timer armed for batch `seqno` fired: dispatch the waiting items if
    /// that batch is still the one being collected.
    pub fn handle_timer_timeout_event(&mut self, seqno: u64) -> (r: Option<Vec<BatchItem<S>>>)
        requires
            old(self).wf(),
            old(self).tray().seqno() < u64::MAX,
        ensures
            final(self).wf(),
            final(self).settings() == old(self).settings(),
            triggered(old(self).tray(), final(self).tray(), seqno, r),
            r matches Some(batch) ==> batch@ == batch_of_requests(old(self).waiting())
                && final(self).waiting().len() == 0,
            r is None ==> final(self).waiting() == old(self).waiting(),
    {
        let r = self.tray.trigger_batch(seqno);
        proof {
            if r is Some {
                self.waiting@ = Seq::empty();
                assert(self.tray.items() =~= batch_of_requests(self.waiting@));
            }
        }
        r
    }

    /// The texts of a batch, in order: the body of the upstream request.
    pub fn request_texts(batch: &Vec<BatchItem<S>>) -> (r: Vec<String>)
        ensures
            r@.len() == batch@.len(),
            forall|k: int| 0 <= k < batch@.len() ==> #[trigger] r@[k] == batch@[k].text,
    {
        let mut texts: Vec<String> = Vec::new();
        let mut i: usize = 0;
        while i < batch.len()
            invariant
                i <= batch@.len(),
                texts@.len() == i,
                forall|k: int| 0 <= k < i ==> #[trigger] texts@[k] == batch@[k].text,
            decreases batch@.len() - i,
        {
            texts.push(batch[i].text.clone());
            i += 1;
        }
        texts
    }

    /// Answer the requests of a processed batch according to the reply of
    /// the upstream service.
    pub fn complete_batch<E>(batch: Vec<BatchItem<S>>, reply: UpstreamReply<E>) -> (r: Vec<
        Delivery<S, E>,
    >)
        ensures
            batch_completed(batch@, reply, r@),
    {
        match reply {
            UpstreamReply::ConnectionFailed(m) => {
                let mut msg = "Connection failed: ".to_string();
                msg.append(m.as_str());
                distribute_error(batch, &BatchError::UpstreamError(502, msg))
            },
            UpstreamReply::Failed(code, body) => {
                let msg = match body {
                    Some(text) => text,
                    None => "Unknown error".to_string(),
                };
                distribute_error(batch, &BatchError::UpstreamError(status_or_bad_gateway(code), msg))
            },
            UpstreamReply::Unparseable(m) => {
                let mut msg = "Failed to parse response: ".to_string();
                msg.append(m.as_str());
                distribute_error(batch, &BatchError::UpstreamError(502, msg))
            },
            UpstreamReply::Embeddings(v) => distribute_results(batch, v),
        }
    }
}

} // verus!
