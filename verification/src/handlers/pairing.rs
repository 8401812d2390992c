//! What span reconstruction guarantees: how calls and returns are paired, and
//! that a return without a call leaves no trace.

use crate::atf::event::EventView;
use crate::handlers::spans::{
    elapsed, lemma_span_id_names_one, reconstructed, span_id_text, FrameView, ReconView, SpanView,
};
use vstd::prelude::*;

verus! {

/// The event is a function call.
pub open spec fn is_call(e: EventView) -> bool {
    e.kind is FunctionCall
}

/// The event is a function return.
pub open spec fn is_return(e: EventView) -> bool {
    e.kind is FunctionReturn
}

/// Every event of the log is on `thread`.
pub open spec fn on_thread(log: Seq<EventView>, thread: u32) -> bool {
    forall|i: int| 0 <= i < log.len() ==> (#[trigger] log[i]).thread_id == thread
}

/// No event of the log is earlier than one before it.
pub open spec fn in_time_order(log: Seq<EventView>) -> bool {
    forall|i: int, j: int|
        0 <= i <= j < log.len() ==> (#[trigger] log[i]).timestamp_ns <= (
        #[trigger] log[j]).timestamp_ns
}

/// The number of calls in the log.
pub open spec fn call_count(log: Seq<EventView>) -> nat
    decreases log.len(),
{
    if log.len() == 0 {
        0
    } else {
        call_count(log.drop_last()) + if is_call(log.last()) {
            1nat
        } else {
            0nat
        }
    }
}

/// The positions in the log of the calls that have not returned by its end,
/// outermost first. A return closes the innermost open call.
pub open spec fn opened(log: Seq<EventView>) -> Seq<int>
    decreases log.len(),
{
    if log.len() == 0 {
        Seq::empty()
    } else if is_call(log.last()) {
        opened(log.drop_last()).push(log.len() - 1)
    } else if is_return(log.last()) && opened(log.drop_last()).len() > 0 {
        opened(log.drop_last()).drop_last()
    } else {
        opened(log.drop_last())
    }
}

/// The pairs of a call and the return that closes it, by their positions in
/// the log, in the order of the returns.
pub open spec fn paired(log: Seq<EventView>) -> Seq<(int, int)>
    decreases log.len(),
{
    if log.len() == 0 {
        Seq::empty()
    } else if is_return(log.last()) && opened(log.drop_last()).len() > 0 {
        paired(log.drop_last()).push((opened(log.drop_last()).last(), log.len() - 1))
    } else {
        paired(log.drop_last())
    }
}

/// No return of the log comes without an open call, and no call is left open
/// at its end.
pub open spec fn well_nested(log: Seq<EventView>) -> bool {
    &&& forall|n: int|
        0 <= n < log.len() && is_return(log[n]) ==> (#[trigger] opened(log.take(n))).len() > 0
    &&& opened(log).len() == 0
}

/// The function symbol that a call carries.
pub open spec fn symbol_of(e: EventView) -> Option<Seq<char>> {
    e.kind.function_symbol()
}

/// The span `span` is the call at `c` closed by the return at `r`: it starts
/// and ends with them, is named by the call, and its depth is the number of
/// calls that were open when the call came.
pub open spec fn pairs_up(log: Seq<EventView>, span: SpanView, c: int, r: int) -> bool {
    &&& 0 <= c < r < log.len()
    &&& is_call(log[c])
    &&& is_return(log[r])
    &&& span.start_time_ns == log[c].timestamp_ns
    &&& span.end_time_ns == log[r].timestamp_ns
    &&& span.duration_ns == elapsed(span.start_time_ns, span.end_time_ns)
    &&& span.function_name == symbol_of(log[c])
    &&& span.thread_id == log[r].thread_id
    &&& span.depth == opened(log.take(c)).len()
    &&& span.depth == ReconView::run(log.take(c)).stacks[log[c].thread_id].len()
}

/// The frame `frame` at position `q` of the stack is the open call at `c`.
pub open spec fn holds_open(log: Seq<EventView>, frame: FrameView, q: int, c: int) -> bool {
    &&& 0 <= c < log.len()
    &&& is_call(log[c])
    &&& frame.start_time_ns == log[c].timestamp_ns
    &&& frame.function_name == symbol_of(log[c])
    &&& frame.depth == q
    &&& opened(log.take(c)).len() == q
    &&& ReconView::run(log.take(c)).stacks[log[c].thread_id].len() == q
}

/// Taking events from a state one log after another is taking them from the
/// two logs joined.
pub proof fn lemma_after_joined(st: ReconView, a: Seq<EventView>, b: Seq<EventView>)
    ensures
        st.after(a + b) == st.after(a).after(b),
    decreases b.len(),
{
    if b.len() == 0 {
        assert(a + b =~= a);
    } else {
        lemma_after_joined(st, a, b.drop_last());
        assert((a + b).drop_last() =~= a + b.drop_last());
        assert((a + b).last() == b.last());
    }
}

/// Orphan tolerance: a return on a thread whose stack is empty completes no
/// span and changes nothing, so whatever follows is handled as if the return
/// had not been there.
pub proof fn lemma_orphan_return_is_dropped(
    before: Seq<EventView>,
    orphan: EventView,
    later: Seq<EventView>,
)
    requires
        is_return(orphan),
        ReconView::run(before).stacks[orphan.thread_id].len() == 0,
    ensures
        ReconView::run(before.push(orphan)) == ReconView::run(before),
        reconstructed(before.push(orphan)) == reconstructed(before),
        ReconView::run(before.push(orphan) + later) == ReconView::run(before + later),
        reconstructed(before.push(orphan) + later) == reconstructed(before + later),
{
    assert(before.push(orphan).drop_last() =~= before);
    lemma_after_joined(ReconView::start(), before.push(orphan), later);
    lemma_after_joined(ReconView::start(), before, later);
}

/// No more calls are open than the log has events.
pub proof fn lemma_opened_bounded(log: Seq<EventView>)
    ensures
        opened(log).len() <= log.len(),
    decreases log.len(),
{
    if log.len() > 0 {
        lemma_opened_bounded(log.drop_last());
    }
}

/// On a log of one thread, the stack of that thread holds the open calls and
/// the spans are the closed pairs, one for one and in order.
pub proof fn lemma_pairing(log: Seq<EventView>, thread: u32)
    requires
        on_thread(log, thread),
        log.len() <= u32::MAX,
    ensures
        ReconView::run(log).stacks[thread].len() == opened(log).len(),
        forall|q: int|
            0 <= q < opened(log).len() ==> holds_open(
                log,
                #[trigger] ReconView::run(log).stacks[thread][q],
                q,
                opened(log)[q],
            ),
        reconstructed(log).len() == paired(log).len(),
        forall|k: int|
            0 <= k < paired(log).len() ==> pairs_up(
                log,
                #[trigger] reconstructed(log)[k],
                paired(log)[k].0,
                paired(log)[k].1,
            ),
    decreases log.len(),
{
    if log.len() > 0 {
        let prev = log.drop_last();
        let e = log.last();
        lemma_pairing(prev, thread);
        let before = ReconView::run(prev);
        let now = ReconView::run(log);
        assert(now == before.observe(e));
        assert(e.thread_id == thread);
        assert(log.take(log.len() - 1) =~= prev);
        assert forall|c: int| 0 <= c < prev.len() implies #[trigger] log.take(c) == prev.take(
            c,
        ) by {
            assert(log.take(c) =~= prev.take(c));
        }
        assert forall|f: FrameView, q: int, c: int| holds_open(prev, f, q, c) implies holds_open(
            log,
            f,
            q,
            c,
        ) by {
            assert(log.take(c) == prev.take(c));
            assert(log[c] == prev[c]);
        }
        assert forall|s: SpanView, c: int, r: int| pairs_up(prev, s, c, r) implies pairs_up(
            log,
            s,
            c,
            r,
        ) by {
            assert(log.take(c) == prev.take(c));
            assert(log[c] == prev[c]);
            assert(log[r] == prev[r]);
        }
        let stack = before.stacks[thread];
        if is_call(e) {
            let n = log.len() - 1;
            lemma_opened_bounded(prev);
            assert(now.stacks[thread] == stack.push(now.stacks[thread].last()));
            assert forall|q: int| 0 <= q < opened(log).len() implies holds_open(
                log,
                #[trigger] now.stacks[thread][q],
                q,
                opened(log)[q],
            ) by {
                if q < stack.len() {
                    assert(now.stacks[thread][q] == stack[q]);
                    assert(holds_open(prev, stack[q], q, opened(prev)[q]));
                } else {
                    assert(opened(log)[q] == n);
                    assert(log.take(n) == prev);
                }
            }
            assert forall|k: int| 0 <= k < paired(log).len() implies pairs_up(
                log,
                #[trigger] reconstructed(log)[k],
                paired(log)[k].0,
                paired(log)[k].1,
            ) by {
                assert(pairs_up(prev, reconstructed(prev)[k], paired(prev)[k].0, paired(prev)[k].1));
            }
        } else if is_return(e) && stack.len() > 0 {
            let top = stack.last();
            let c = opened(prev).last();
            assert(holds_open(prev, stack[stack.len() - 1], stack.len() - 1, c));
            let rest = ReconView::child_done(stack.drop_last());
            assert(now.stacks[thread] == rest);
            assert forall|q: int| 0 <= q < opened(log).len() implies holds_open(
                log,
                #[trigger] now.stacks[thread][q],
                q,
                opened(log)[q],
            ) by {
                assert(holds_open(prev, stack[q], q, opened(prev)[q]));
                assert(opened(log)[q] == opened(prev)[q]);
                if q == rest.len() - 1 {
                    assert(rest[q] == (FrameView {
                        child_count: rest[q].child_count,
                        ..stack[q]
                    }));
                } else {
                    assert(rest[q] == stack[q]);
                }
            }
            assert forall|k: int| 0 <= k < paired(log).len() implies pairs_up(
                log,
                #[trigger] reconstructed(log)[k],
                paired(log)[k].0,
                paired(log)[k].1,
            ) by {
                if k < paired(prev).len() {
                    assert(pairs_up(
                        prev,
                        reconstructed(prev)[k],
                        paired(prev)[k].0,
                        paired(prev)[k].1,
                    ));
                    assert(reconstructed(log)[k] == reconstructed(prev)[k]);
                } else {
                    assert(reconstructed(log)[k] == ReconView::completed(top, e));
                    assert(paired(log)[k] == (c, log.len() - 1));
                    assert(log[c] == prev[c]);
                    assert(log.take(c) == prev.take(c));
                }
            }
        } else {
            assert(now == before);
            assert forall|q: int| 0 <= q < opened(log).len() implies holds_open(
                log,
                #[trigger] now.stacks[thread][q],
                q,
                opened(log)[q],
            ) by {
                assert(holds_open(prev, stack[q], q, opened(prev)[q]));
            }
            assert forall|k: int| 0 <= k < paired(log).len() implies pairs_up(
                log,
                #[trigger] reconstructed(log)[k],
                paired(log)[k].0,
                paired(log)[k].1,
            ) by {
                assert(pairs_up(prev, reconstructed(prev)[k], paired(prev)[k].0, paired(prev)[k].1));
            }
        }
    }
}

/// Every call of a log is open at its end or was closed by one return, and
/// not both: the open calls stand in the order they came, no call is paired
/// twice, and together they are as many as the calls.
pub proof fn lemma_each_call_once(log: Seq<EventView>)
    ensures
        opened(log).len() + paired(log).len() == call_count(log),
        forall|q: int| 0 <= q < opened(log).len() ==> 0 <= #[trigger] opened(log)[q] < log.len(),
        forall|p: int, q: int|
            0 <= p < q < opened(log).len() ==> #[trigger] opened(log)[p] < #[trigger] opened(
                log,
            )[q],
        forall|k: int| 0 <= k < paired(log).len() ==> 0 <= (#[trigger] paired(log)[k]).0 < log.len(),
        forall|j: int, k: int|
            0 <= j < k < paired(log).len() ==> (#[trigger] paired(log)[j]).0 != (
            #[trigger] paired(log)[k]).0,
        forall|k: int, q: int|
            0 <= k < paired(log).len() && 0 <= q < opened(log).len() ==> (
            #[trigger] paired(log)[k]).0 != #[trigger] opened(log)[q],
    decreases log.len(),
{
    if log.len() > 0 {
        let prev = log.drop_last();
        lemma_each_call_once(prev);
        if is_call(log.last()) {
        } else if is_return(log.last()) && opened(prev).len() > 0 {
            let c = opened(prev).last();
            assert forall|j: int, k: int| 0 <= j < k < paired(log).len() implies (
            #[trigger] paired(log)[j]).0 != (#[trigger] paired(log)[k]).0 by {
                if k == paired(prev).len() {
                    assert(paired(log)[j] == paired(prev)[j]);
                    assert(paired(prev)[j].0 != opened(prev)[opened(prev).len() - 1]);
                } else {
                    assert(paired(log)[j] == paired(prev)[j]);
                    assert(paired(log)[k] == paired(prev)[k]);
                }
            }
            assert forall|k: int, q: int|
                0 <= k < paired(log).len() && 0 <= q < opened(log).len() implies (
            #[trigger] paired(log)[k]).0 != #[trigger] opened(log)[q] by {
                assert(opened(log)[q] == opened(prev)[q]);
                if k == paired(prev).len() {
                    assert(opened(prev)[q] < opened(prev)[opened(prev).len() - 1]);
                } else {
                    assert(paired(log)[k] == paired(prev)[k]);
                }
            }
        } else {
        }
    }
}

/// Span pairing: a well-nested log of one thread gives exactly one span for
/// each call. The span of a call starts with the call and ends with the
/// return that closes it, and its depth is the size that the stack had when
/// the call came. Where the log is in time order, no span ends before it
/// starts, and its duration is the difference of the two.
pub proof fn lemma_well_nested_pairing(log: Seq<EventView>, thread: u32)
    requires
        on_thread(log, thread),
        well_nested(log),
        log.len() <= u32::MAX,
    ensures
        reconstructed(log).len() == call_count(log),
        reconstructed(log).len() == paired(log).len(),
        forall|k: int|
            0 <= k < reconstructed(log).len() ==> pairs_up(
                log,
                #[trigger] reconstructed(log)[k],
                paired(log)[k].0,
                paired(log)[k].1,
            ),
        forall|j: int, k: int|
            0 <= j < k < paired(log).len() ==> (#[trigger] paired(log)[j]).0 != (
            #[trigger] paired(log)[k]).0,
        in_time_order(log) ==> forall|k: int|
            0 <= k < reconstructed(log).len() ==> {
                &&& (#[trigger] reconstructed(log)[k]).end_time_ns >= reconstructed(
                    log,
                )[k].start_time_ns
                &&& reconstructed(log)[k].duration_ns == reconstructed(log)[k].end_time_ns
                    - reconstructed(log)[k].start_time_ns
            },
{
    lemma_pairing(log, thread);
    lemma_each_call_once(log);
    if in_time_order(log) {
        assert forall|k: int| 0 <= k < reconstructed(log).len() implies {
            &&& (#[trigger] reconstructed(log)[k]).end_time_ns >= reconstructed(
                log,
            )[k].start_time_ns
            &&& reconstructed(log)[k].duration_ns == reconstructed(log)[k].end_time_ns
                - reconstructed(log)[k].start_time_ns
        } by {
            let s = reconstructed(log)[k];
            assert(pairs_up(log, s, paired(log)[k].0, paired(log)[k].1));
            assert(log[paired(log)[k].0].timestamp_ns <= log[paired(log)[k].1].timestamp_ns);
        }
    }
}

/// The events of a log that are on `thread`, in order.
pub open spec fn of_thread(log: Seq<EventView>, thread: u32) -> Seq<EventView> {
    log.filter(|e: EventView| e.thread_id == thread)
}

/// The spans of a list that are on `thread`, in order.
pub open spec fn spans_of_thread(spans: Seq<SpanView>, thread: u32) -> Seq<SpanView> {
    spans.filter(|s: SpanView| s.thread_id == thread)
}

/// The two frames are the same call but for the number that the call was
/// given.
pub open spec fn same_call(a: FrameView, b: FrameView) -> bool {
    a == (FrameView { span_sequence: a.span_sequence, ..b })
}

/// The two spans are the same but for their identifiers.
pub open spec fn same_span(a: SpanView, b: SpanView) -> bool {
    a == (SpanView { span_id: a.span_id, ..b })
}

/// What a thread has of a log is what it would have had alone.
pub open spec fn thread_alone(full: ReconView, own: ReconView, thread: u32) -> bool {
    &&& full.stacks[thread].len() == own.stacks[thread].len()
    &&& forall|q: int|
        0 <= q < own.stacks[thread].len() ==> same_call(
            #[trigger] full.stacks[thread][q],
            own.stacks[thread][q],
        )
    &&& spans_of_thread(full.spans, thread).len() == own.spans.len()
    &&& forall|k: int|
        0 <= k < own.spans.len() ==> same_span(
            #[trigger] spans_of_thread(full.spans, thread)[k],
            own.spans[k],
        )
    &&& forall|k: int| 0 <= k < own.spans.len() ==> (#[trigger] own.spans[k]).thread_id == thread
}

/// An event leaves the stacks of the other threads as they are, and the
/// span that it completes, if any, is on its own thread.
pub proof fn lemma_other_threads_untouched(st: ReconView, e: EventView, thread: u32)
    requires
        e.thread_id != thread,
    ensures
        st.observe(e).stacks[thread] == st.stacks[thread],
        spans_of_thread(st.observe(e).spans, thread) == spans_of_thread(st.spans, thread),
{
    let keep = |s: SpanView| s.thread_id == thread;
    if st.observe(e).spans != st.spans {
        let span = ReconView::completed(st.stacks[e.thread_id].last(), e);
        assert(st.observe(e).spans == st.spans.push(span));
        st.spans.lemma_filter_push(span, keep);
    }
}

/// Threads do not meet: the stack of a thread and the spans on it are, but
/// for the numbering of the spans, what the events of that thread alone
/// give. No call is paired with a return of another thread.
pub proof fn lemma_threads_are_independent(log: Seq<EventView>, thread: u32)
    ensures
        thread_alone(ReconView::run(log), ReconView::run(of_thread(log, thread)), thread),
    decreases log.len(),
{
    let on = |e: EventView| e.thread_id == thread;
    let keep = |s: SpanView| s.thread_id == thread;
    reveal(Seq::filter);
    if log.len() == 0 {
        assert(of_thread(log, thread) =~= Seq::<EventView>::empty());
        assert(spans_of_thread(ReconView::start().spans, thread) =~= Seq::<SpanView>::empty());
    } else {
        let prev = log.drop_last();
        let e = log.last();
        lemma_threads_are_independent(prev, thread);
        let full0 = ReconView::run(prev);
        let own0 = ReconView::run(of_thread(prev, thread));
        let full = ReconView::run(log);
        assert(full == full0.observe(e));
        assert(prev.push(e) =~= log);
        prev.lemma_filter_push(e, on);
        if e.thread_id != thread {
            assert(of_thread(log, thread) == of_thread(prev, thread));
            lemma_other_threads_untouched(full0, e, thread);
        } else {
            let mine = of_thread(log, thread);
            assert(mine == of_thread(prev, thread).push(e));
            assert(mine.drop_last() =~= of_thread(prev, thread));
            let own = ReconView::run(mine);
            assert(own == own0.observe(e));
            let fs = full0.stacks[thread];
            let os = own0.stacks[thread];
            if is_call(e) {
                assert(full.stacks[thread] == fs.push(full.stacks[thread].last()));
                assert(own.stacks[thread] == os.push(own.stacks[thread].last()));
                assert forall|q: int| 0 <= q < own.stacks[thread].len() implies same_call(
                    #[trigger] full.stacks[thread][q],
                    own.stacks[thread][q],
                ) by {
                    if q < os.len() {
                        assert(same_call(fs[q], os[q]));
                    }
                }
                assert forall|k: int| 0 <= k < own.spans.len() implies same_span(
                    #[trigger] spans_of_thread(full.spans, thread)[k],
                    own.spans[k],
                ) by {
                    assert(same_span(spans_of_thread(full0.spans, thread)[k], own0.spans[k]));
                }
            } else if is_return(e) && fs.len() > 0 {
                let fspan = ReconView::completed(fs.last(), e);
                let ospan = ReconView::completed(os.last(), e);
                assert(same_call(fs[fs.len() - 1], os[os.len() - 1]));
                assert(same_span(fspan, ospan));
                full0.spans.lemma_filter_push(fspan, keep);
                assert(spans_of_thread(full.spans, thread) == spans_of_thread(
                    full0.spans,
                    thread,
                ).push(fspan));
                let frest = ReconView::child_done(fs.drop_last());
                let orest = ReconView::child_done(os.drop_last());
                assert(full.stacks[thread] == frest);
                assert(own.stacks[thread] == orest);
                assert forall|q: int| 0 <= q < orest.len() implies same_call(
                    #[trigger] frest[q],
                    orest[q],
                ) by {
                    assert(same_call(fs[q], os[q]));
                }
                assert forall|k: int| 0 <= k < own.spans.len() implies same_span(
                    #[trigger] spans_of_thread(full.spans, thread)[k],
                    own.spans[k],
                ) by {
                    if k < own0.spans.len() {
                        assert(same_span(spans_of_thread(full0.spans, thread)[k], own0.spans[k]));
                    }
                }
                assert forall|k: int| 0 <= k < own.spans.len() implies (
                #[trigger] own.spans[k]).thread_id == thread by {
                    if k < own0.spans.len() {
                        assert(own0.spans[k].thread_id == thread);
                    }
                }
            } else {
                assert(full == full0);
                assert(own == own0);
            }
        }
    }
}

/// The sequence numbers of the spans of a log, in the order of the spans:
/// each span has the number that its call was given.
pub open spec fn span_numbers(log: Seq<EventView>) -> Seq<u64>
    decreases log.len(),
{
    if log.len() == 0 {
        Seq::empty()
    } else {
        let before = ReconView::run(log.drop_last());
        let stack = before.stacks[log.last().thread_id];
        if is_return(log.last()) && stack.len() > 0 {
            span_numbers(log.drop_last()).push(stack.last().span_sequence)
        } else {
            span_numbers(log.drop_last())
        }
    }
}

/// The numbers that were handed out are in use once each: every open call
/// and every span has a number of its own between one and the last number
/// handed out, and each span is identified by its thread, its start and its
/// number.
pub open spec fn numbered(log: Seq<EventView>) -> bool {
    let st = ReconView::run(log);
    let numbers = span_numbers(log);
    &&& st.sequence <= log.len()
    &&& numbers.len() == st.spans.len()
    &&& forall|t: u32, q: int|
        0 <= q < st.stacks[t].len() ==> 1 <= (#[trigger] st.stacks[t][q]).span_sequence
            <= st.sequence
    &&& forall|t: u32, q: int, u: u32, r: int|
        0 <= q < st.stacks[t].len() && 0 <= r < st.stacks[u].len() && (t != u || q != r) ==> (
        #[trigger] st.stacks[t][q]).span_sequence != (#[trigger] st.stacks[u][r]).span_sequence
    &&& forall|k: int| 0 <= k < numbers.len() ==> 1 <= #[trigger] numbers[k] <= st.sequence
    &&& forall|j: int, k: int|
        0 <= j < k < numbers.len() ==> #[trigger] numbers[j] != #[trigger] numbers[k]
    &&& forall|k: int, t: u32, q: int|
        0 <= k < numbers.len() && 0 <= q < st.stacks[t].len() ==> #[trigger] numbers[k] != (
        #[trigger] st.stacks[t][q]).span_sequence
    &&& forall|k: int|
        0 <= k < numbers.len() ==> (#[trigger] st.spans[k]).span_id == span_id_text(
            st.spans[k].thread_id,
            st.spans[k].start_time_ns,
            numbers[k],
        )
}

/// The numbers of a log are in use once each.
#[verifier::rlimit(60)]
pub proof fn lemma_numbered(log: Seq<EventView>)
    requires
        log.len() < u64::MAX,
    ensures
        numbered(log),
    decreases log.len(),
{
    if log.len() > 0 {
        let prev = log.drop_last();
        let e = log.last();
        lemma_numbered(prev);
        let before = ReconView::run(prev);
        let st = ReconView::run(log);
        assert(st == before.observe(e));
        let me = e.thread_id;
        let stack = before.stacks[me];
        let old_numbers = span_numbers(prev);
        let numbers = span_numbers(log);
        if is_call(e) {
            let frame = st.stacks[me].last();
            assert(st.stacks[me] == stack.push(frame));
            assert(frame.span_sequence == before.sequence + 1);
            assert forall|t: u32, q: int| 0 <= q < st.stacks[t].len() implies 1 <= (
            #[trigger] st.stacks[t][q]).span_sequence <= st.sequence by {
                if t != me || q < stack.len() {
                    assert(st.stacks[t][q] == before.stacks[t][q]);
                }
            }
            assert forall|t: u32, q: int, u: u32, r: int|
                0 <= q < st.stacks[t].len() && 0 <= r < st.stacks[u].len() && (t != u || q
                    != r) implies (#[trigger] st.stacks[t][q]).span_sequence != (
            #[trigger] st.stacks[u][r]).span_sequence by {
                if t != me || q < stack.len() {
                    assert(st.stacks[t][q] == before.stacks[t][q]);
                }
                if u != me || r < stack.len() {
                    assert(st.stacks[u][r] == before.stacks[u][r]);
                }
            }
            assert forall|k: int, t: u32, q: int|
                0 <= k < numbers.len() && 0 <= q < st.stacks[t].len() implies #[trigger] numbers[k]
                != (#[trigger] st.stacks[t][q]).span_sequence by {
                if t != me || q < stack.len() {
                    assert(st.stacks[t][q] == before.stacks[t][q]);
                }
            }
        } else if is_return(e) && stack.len() > 0 {
            let top = stack.last();
            let rest = ReconView::child_done(stack.drop_last());
            assert(st.stacks[me] == rest);
            assert(numbers == old_numbers.push(top.span_sequence));
            assert(top == before.stacks[me][stack.len() - 1]);
            assert forall|q: int| 0 <= q < rest.len() implies (#[trigger] rest[q]).span_sequence
                == before.stacks[me][q].span_sequence by {}
            assert forall|t: u32, q: int| 0 <= q < st.stacks[t].len() implies 1 <= (
            #[trigger] st.stacks[t][q]).span_sequence <= st.sequence by {
                if t != me {
                    assert(st.stacks[t][q] == before.stacks[t][q]);
                } else {
                    assert(rest[q].span_sequence == before.stacks[me][q].span_sequence);
                }
            }
            assert forall|t: u32, q: int, u: u32, r: int|
                0 <= q < st.stacks[t].len() && 0 <= r < st.stacks[u].len() && (t != u || q
                    != r) implies (#[trigger] st.stacks[t][q]).span_sequence != (
            #[trigger] st.stacks[u][r]).span_sequence by {
                assert(st.stacks[t][q].span_sequence == before.stacks[t][q].span_sequence) by {
                    if t == me {
                        assert(rest[q].span_sequence == before.stacks[me][q].span_sequence);
                    }
                }
                assert(st.stacks[u][r].span_sequence == before.stacks[u][r].span_sequence) by {
                    if u == me {
                        assert(rest[r].span_sequence == before.stacks[me][r].span_sequence);
                    }
                }
            }
            assert forall|k: int| 0 <= k < numbers.len() implies 1 <= #[trigger] numbers[k]
                <= st.sequence by {
                if k < old_numbers.len() {
                    assert(numbers[k] == old_numbers[k]);
                }
            }
            assert forall|j: int, k: int| 0 <= j < k < numbers.len() implies #[trigger] numbers[j]
                != #[trigger] numbers[k] by {
                assert(numbers[j] == old_numbers[j]);
                if k < old_numbers.len() {
                    assert(numbers[k] == old_numbers[k]);
                } else {
                    assert(old_numbers[j] != before.stacks[me][stack.len() - 1].span_sequence);
                }
            }
            assert forall|k: int, t: u32, q: int|
                0 <= k < numbers.len() && 0 <= q < st.stacks[t].len() implies #[trigger] numbers[k]
                != (#[trigger] st.stacks[t][q]).span_sequence by {
                assert(st.stacks[t][q].span_sequence == before.stacks[t][q].span_sequence) by {
                    if t == me {
                        assert(rest[q].span_sequence == before.stacks[me][q].span_sequence);
                    }
                }
                if k < old_numbers.len() {
                    assert(numbers[k] == old_numbers[k]);
                } else {
                    assert(before.stacks[t][q].span_sequence != before.stacks[me][stack.len()
                        - 1].span_sequence);
                }
            }
            assert forall|k: int| 0 <= k < numbers.len() implies (
            #[trigger] st.spans[k]).span_id == span_id_text(
                st.spans[k].thread_id,
                st.spans[k].start_time_ns,
                numbers[k],
            ) by {
                if k < old_numbers.len() {
                    assert(st.spans[k] == before.spans[k]);
                    assert(numbers[k] == old_numbers[k]);
                }
            }
        } else {
            assert(st == before);
        }
    }
}

/// No two spans of a log have one identifier.
pub proof fn lemma_span_ids_are_unique(log: Seq<EventView>)
    requires
        log.len() < u64::MAX,
    ensures
        forall|j: int, k: int|
            0 <= j < k < reconstructed(log).len() ==> (#[trigger] reconstructed(log)[j]).span_id
                != (#[trigger] reconstructed(log)[k]).span_id,
{
    lemma_numbered(log);
    let spans = reconstructed(log);
    let numbers = span_numbers(log);
    assert forall|j: int, k: int| 0 <= j < k < spans.len() implies (#[trigger] spans[j]).span_id
        != (#[trigger] spans[k]).span_id by {
        assert(numbers[j] != numbers[k]);
        if spans[j].span_id == spans[k].span_id {
            lemma_span_id_names_one(
                spans[j].thread_id,
                spans[j].start_time_ns,
                numbers[j],
                spans[k].thread_id,
                spans[k].start_time_ns,
                numbers[k],
            );
        }
    }
}

/// The call that was innermost when the call at `c` came: the call that
/// the call at `c` is a direct child of, if it is a child at all.
pub open spec fn parent_of(log: Seq<EventView>, c: int) -> Option<int> {
    if opened(log.take(c)).len() > 0 {
        Some(opened(log.take(c)).last())
    } else {
        None
    }
}

/// The number of direct children of the call at `c` that have returned by
/// the end of the log.
pub open spec fn children_done(log: Seq<EventView>, c: int) -> nat
    decreases log.len(),
{
    if log.len() == 0 {
        0
    } else {
        let before = log.drop_last();
        children_done(before, c) + if is_return(log.last()) && opened(before).len() > 0
            && parent_of(before, opened(before).last()) == Some(c) {
            1nat
        } else {
            0nat
        }
    }
}

/// The calls that were open when an open call came are the open calls below
/// it.
pub proof fn lemma_below_an_open_call(log: Seq<EventView>)
    ensures
        forall|q: int|
            0 <= q < opened(log).len() ==> #[trigger] opened(log.take(opened(log)[q]))
                == opened(log).take(q),
    decreases log.len(),
{
    if log.len() > 0 {
        let prev = log.drop_last();
        lemma_below_an_open_call(prev);
        lemma_each_call_once(prev);
        assert forall|q: int| 0 <= q < opened(log).len() implies #[trigger] opened(
            log.take(opened(log)[q]),
        ) == opened(log).take(q) by {
            if q < opened(prev).len() && opened(log)[q] == opened(prev)[q] {
                let c = opened(prev)[q];
                assert(log.take(c) =~= prev.take(c));
                assert(opened(prev.take(c)) == opened(prev).take(q));
                assert(opened(log).take(q) =~= opened(prev).take(q));
            } else {
                // the call that has just come
                assert(is_call(log.last()));
                assert(opened(log)[q] == log.len() - 1);
                assert(log.take(log.len() - 1) =~= prev);
                assert(opened(log).take(q) =~= opened(prev));
            }
        }
    }
}

/// A call has no more children returned than returns have come, and none
/// before it has come itself.
pub proof fn lemma_children_bounded(log: Seq<EventView>, c: int)
    ensures
        children_done(log, c) <= log.len(),
        c >= log.len() ==> children_done(log, c) == 0,
    decreases log.len(),
{
    if log.len() > 0 {
        let prev = log.drop_last();
        lemma_children_bounded(prev, c);
        if opened(prev).len() > 0 {
            let child = opened(prev).last();
            lemma_each_call_once(prev);
            assert(0 <= opened(prev)[opened(prev).len() - 1] < prev.len());
            lemma_each_call_once(prev.take(child));
            if opened(prev.take(child)).len() > 0 {
                let parent = opened(prev.take(child)).last();
                assert(parent == opened(prev.take(child))[opened(prev.take(child)).len() - 1]);
                assert(parent < child);
            }
        }
    }
}

/// Child counts: on a log of one thread, each open call and each span has
/// counted the direct children of its call that have returned.
#[verifier::rlimit(60)]
pub proof fn lemma_child_counts(log: Seq<EventView>, thread: u32)
    requires
        on_thread(log, thread),
        log.len() < u32::MAX,
    ensures
        forall|q: int|
            0 <= q < opened(log).len() ==> (#[trigger] ReconView::run(
                log,
            ).stacks[thread][q]).child_count == children_done(log, opened(log)[q]),
        forall|k: int|
            0 <= k < paired(log).len() ==> (#[trigger] reconstructed(log)[k]).child_count
                == children_done(log, paired(log)[k].0),
    decreases log.len(),
{
    lemma_pairing(log, thread);
    if log.len() > 0 {
        let prev = log.drop_last();
        let e = log.last();
        lemma_child_counts(prev, thread);
        lemma_pairing(prev, thread);
        lemma_each_call_once(prev);
        lemma_below_an_open_call(prev);
        let before = ReconView::run(prev);
        let st = ReconView::run(log);
        assert(st == before.observe(e));
        assert(e.thread_id == thread);
        let stack = before.stacks[thread];
        let open = opened(prev);
        if is_call(e) {
            assert forall|q: int| 0 <= q < opened(log).len() implies (
            #[trigger] st.stacks[thread][q]).child_count == children_done(
                log,
                opened(log)[q],
            ) by {
                if q < stack.len() {
                    assert(st.stacks[thread][q] == stack[q]);
                } else {
                    lemma_children_bounded(prev, log.len() - 1);
                }
            }
            assert forall|k: int| 0 <= k < paired(log).len() implies (
            #[trigger] reconstructed(log)[k]).child_count == children_done(
                log,
                paired(log)[k].0,
            ) by {
                assert(reconstructed(log)[k] == reconstructed(prev)[k]);
            }
        } else if is_return(e) && stack.len() > 0 {
            let m = open.len() as int;
            let child = open[m - 1];
            assert(open.last() == child);
            assert(opened(prev.take(child)) == open.take(m - 1));
            let rest = ReconView::child_done(stack.drop_last());
            assert(st.stacks[thread] == rest);
            assert forall|q: int| 0 <= q < opened(log).len() implies (
            #[trigger] st.stacks[thread][q]).child_count == children_done(
                log,
                opened(log)[q],
            ) by {
                assert(opened(log)[q] == open[q]);
                assert(stack[q].child_count == children_done(prev, open[q]));
                lemma_children_bounded(prev, open[q]);
                if q == m - 2 {
                    assert(open.take(m - 1).last() == open[q]);
                    assert(parent_of(prev, child) == Some(open[q]));
                } else {
                    assert(rest[q] == stack[q]);
                    if m >= 2 {
                        assert(open.take(m - 1).last() == open[m - 2]);
                        assert(open[q] < open[m - 2]);
                    }
                }
            }
            assert forall|k: int| 0 <= k < paired(log).len() implies (
            #[trigger] reconstructed(log)[k]).child_count == children_done(
                log,
                paired(log)[k].0,
            ) by {
                if k < paired(prev).len() {
                    assert(reconstructed(log)[k] == reconstructed(prev)[k]);
                    assert(paired(log)[k] == paired(prev)[k]);
                    if m >= 2 {
                        assert(open.take(m - 1).last() == open[m - 2]);
                        assert(paired(prev)[k].0 != open[m - 2]);
                    }
                } else {
                    assert(reconstructed(log)[k] == ReconView::completed(stack.last(), e));
                    assert(stack.last() == stack[m - 1]);
                    assert(paired(log)[k].0 == child);
                    if m >= 2 {
                        assert(open.take(m - 1).last() == open[m - 2]);
                        assert(open[m - 2] < open[m - 1]);
                    }
                }
            }
        } else {
            assert(st == before);
        }
    }
}

} // verus!
