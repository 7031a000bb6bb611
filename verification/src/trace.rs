//! What workflows ask for, over all replies they may be given.
use vstd::prelude::*;

use crate::flow::{Outcome, Reply, RequestView, Step, chain, consult, done, fail, rescue, settled};

verus! {

/// Whether all that a workflow has asked for, and what it asks for now, is of
/// one sort.
#[verifier::opaque]
pub open spec fn every<T>(step: Step<T>, sort: spec_fn(RequestView) -> bool) -> bool {
    &&& forall|i: int| 0 <= i < step.asked.len() ==> sort(#[trigger] step.asked[i])
    &&& step.outcome matches Outcome::Ask(request) ==> sort(request)
}

pub broadcast proof fn lemma_every_done<T>(value: T, at: int, sort: spec_fn(RequestView) -> bool)
    ensures
        #[trigger] every(done(value, at), sort),
{
    reveal(every);
}

pub broadcast proof fn lemma_every_fail<T>(
    message: Seq<char>,
    at: int,
    sort: spec_fn(RequestView) -> bool,
)
    ensures
        #[trigger] every(fail::<T>(message, at), sort),
{
    reveal(every);
}

pub broadcast proof fn lemma_every_settled<T>(
    result: Result<T, Seq<char>>,
    at: int,
    sort: spec_fn(RequestView) -> bool,
)
    ensures
        #[trigger] every(settled(result, at), sort),
{
    reveal(every);
}

pub broadcast proof fn lemma_every_consult<T>(
    request: RequestView,
    read: spec_fn(Reply) -> Result<T, Seq<char>>,
    r: Seq<Reply>,
    at: int,
    sort: spec_fn(RequestView) -> bool,
)
    requires
        sort(request),
    ensures
        #[trigger] every(consult(request, read, r, at), sort),
{
    reveal(every);
}

pub broadcast proof fn lemma_every_chain<T, U>(
    first: Step<T>,
    next: spec_fn(T, int) -> Step<U>,
    sort: spec_fn(RequestView) -> bool,
)
    requires
        every(first, sort),
        first.outcome matches Outcome::Done(value) ==> every(next(value, first.at), sort),
    ensures
        #[trigger] every(chain(first, next), sort),
{
    reveal(every);
}

pub broadcast proof fn lemma_every_rescue<T>(
    first: Step<T>,
    handler: spec_fn(Seq<char>, int) -> Step<T>,
    sort: spec_fn(RequestView) -> bool,
)
    requires
        every(first, sort),
        first.outcome matches Outcome::Fail(message) ==> every(handler(message, first.at), sort),
    ensures
        #[trigger] every(rescue(first, handler), sort),
{
    reveal(every);
}

/// What is of one sort is of every wider sort.
pub proof fn lemma_every_widened<T>(
    step: Step<T>,
    narrow: spec_fn(RequestView) -> bool,
    wide: spec_fn(RequestView) -> bool,
)
    requires
        every(step, narrow),
        forall|request: RequestView| #[trigger] narrow(request) ==> wide(request),
    ensures
        every(step, wide),
{
    reveal(every);
}

pub broadcast group group_every {
    lemma_every_done,
    lemma_every_fail,
    lemma_every_settled,
    lemma_every_consult,
    lemma_every_chain,
    lemma_every_rescue,
}

/// Whether a workflow that started at a position used one reply for each request.
#[verifier::opaque]
pub open spec fn counted<T>(step: Step<T>, at: int) -> bool {
    step.at == at + step.asked.len()
}

pub broadcast proof fn lemma_counted_done<T>(value: T, at: int)
    ensures
        #[trigger] counted(done(value, at), at),
{
    reveal(counted);
}

pub broadcast proof fn lemma_counted_fail<T>(message: Seq<char>, at: int)
    ensures
        #[trigger] counted(fail::<T>(message, at), at),
{
    reveal(counted);
}

pub broadcast proof fn lemma_counted_settled<T>(result: Result<T, Seq<char>>, at: int)
    ensures
        #[trigger] counted(settled(result, at), at),
{
    reveal(counted);
}

pub broadcast proof fn lemma_counted_consult<T>(
    request: RequestView,
    read: spec_fn(Reply) -> Result<T, Seq<char>>,
    r: Seq<Reply>,
    at: int,
)
    ensures
        #[trigger] counted(consult(request, read, r, at), at),
{
    reveal(counted);
}

pub broadcast proof fn lemma_counted_chain<T, U>(
    first: Step<T>,
    next: spec_fn(T, int) -> Step<U>,
    at: int,
)
    requires
        counted(first, at),
        first.outcome matches Outcome::Done(value) ==> counted(next(value, first.at), first.at),
    ensures
        #[trigger] counted(chain(first, next), at),
{
    reveal(counted);
}

pub broadcast proof fn lemma_counted_rescue<T>(
    first: Step<T>,
    handler: spec_fn(Seq<char>, int) -> Step<T>,
    at: int,
)
    requires
        counted(first, at),
        first.outcome matches Outcome::Fail(message) ==> counted(
            handler(message, first.at),
            first.at,
        ),
    ensures
        #[trigger] counted(rescue(first, handler), at),
{
    reveal(counted);
}

pub broadcast group group_counted {
    lemma_counted_done,
    lemma_counted_fail,
    lemma_counted_settled,
    lemma_counted_consult,
    lemma_counted_chain,
    lemma_counted_rescue,
}

/// Whether `part` is `whole`, started at the same position, with only the
/// replies before `end` to go by: it has come to the same place where that takes
/// no more replies, and else it asks the request that `whole` asked next.
#[verifier::opaque]
pub open spec fn cut<T>(whole: Step<T>, part: Step<T>, at: int, end: int) -> bool {
    &&& counted(whole, at)
    &&& if whole.at <= end {
        part == whole
    } else {
        &&& part.outcome == Outcome::<T>::Ask(whole.asked[end - at])
        &&& part.at == end
        &&& part.asked == whole.asked.take(end - at)
    }
}

pub broadcast proof fn lemma_cut_done<T>(value: T, at: int, end: int)
    requires
        at <= end,
    ensures
        #[trigger] cut(done(value, at), done(value, at), at, end),
{
    reveal(cut);
    reveal(counted);
}

pub broadcast proof fn lemma_cut_fail<T>(message: Seq<char>, at: int, end: int)
    requires
        at <= end,
    ensures
        #[trigger] cut(fail::<T>(message, at), fail::<T>(message, at), at, end),
{
    reveal(cut);
    reveal(counted);
}

pub broadcast proof fn lemma_cut_settled<T>(result: Result<T, Seq<char>>, at: int, end: int)
    requires
        at <= end,
    ensures
        #[trigger] cut(settled(result, at), settled(result, at), at, end),
{
    reveal(cut);
    reveal(counted);
}

pub broadcast proof fn lemma_cut_consult<T>(
    request: RequestView,
    read: spec_fn(Reply) -> Result<T, Seq<char>>,
    r: Seq<Reply>,
    fewer: Seq<Reply>,
    at: int,
    end: int,
)
    requires
        0 <= at <= end <= r.len(),
        fewer == r.take(end),
    ensures
        #[trigger] cut(
            consult(request, read, r, at),
            consult(request, read, fewer, at),
            at,
            end,
        ),
{
    reveal(cut);
    reveal(counted);
    let whole = consult(request, read, r, at);
    let part = consult(request, read, fewer, at);
    if at < end {
        assert(fewer[at] == r[at]);
    } else if at < r.len() {
        assert(part.asked =~= whole.asked.take(0));
    }
}

pub broadcast proof fn lemma_cut_chain<T, U>(
    first: Step<T>,
    next: spec_fn(T, int) -> Step<U>,
    first_part: Step<T>,
    next_part: spec_fn(T, int) -> Step<U>,
    at: int,
    end: int,
)
    requires
        cut(first, first_part, at, end),
        at <= end,
        first.outcome matches Outcome::Done(value) ==> counted(next(value, first.at), first.at),
        first.outcome matches Outcome::Done(value) ==> (at <= first.at <= end ==> cut(
            next(value, first.at),
            next_part(value, first.at),
            first.at,
            end,
        )),
    ensures
        #[trigger] cut(chain(first, next), chain(first_part, next_part), at, end),
{
    reveal(cut);
    reveal(counted);
    let whole = chain(first, next);
    let part = chain(first_part, next_part);
    if whole.at > end {
        assert(part.asked =~= whole.asked.take(end - at));
    }
}

pub broadcast proof fn lemma_cut_rescue<T>(
    first: Step<T>,
    handler: spec_fn(Seq<char>, int) -> Step<T>,
    first_part: Step<T>,
    handler_part: spec_fn(Seq<char>, int) -> Step<T>,
    at: int,
    end: int,
)
    requires
        cut(first, first_part, at, end),
        at <= end,
        first.outcome matches Outcome::Fail(message) ==> counted(
            handler(message, first.at),
            first.at,
        ),
        first.outcome matches Outcome::Fail(message) ==> (at <= first.at <= end ==> cut(
            handler(message, first.at),
            handler_part(message, first.at),
            first.at,
            end,
        )),
    ensures
        #[trigger] cut(rescue(first, handler), rescue(first_part, handler_part), at, end),
{
    reveal(cut);
    reveal(counted);
    let whole = rescue(first, handler);
    let part = rescue(first_part, handler_part);
    if whole.at > end {
        assert(part.asked =~= whole.asked.take(end - at));
    }
}

pub broadcast group group_cut {
    lemma_cut_done,
    lemma_cut_fail,
    lemma_cut_settled,
    lemma_cut_consult,
    lemma_cut_chain,
    lemma_cut_rescue,
}

} // verus!
