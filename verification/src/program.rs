//! Interaction programs: what a driver does to the outside world, as a value.
//!
//! A driver's effect is the sequence of requests it puts to its hardware and
//! the answers it gets back, and the hardware is free to answer anything. A
//! [`Program`] says which request comes next for every answer so far, and what
//! is returned in the end; a driver function's contract is that the requests
//! and answers it added to its history are one run of a given program.

use vstd::prelude::*;

verus! {

/// A request with the answer it got.
pub struct Exchange<Q, A> {
    pub request: Q,
    pub answer: A,
}

/// What is left to do: return a value, or make a request and go on with what
/// the answer selects. `Stuck` is what a history that no run explains leads to.
#[verifier::reject_recursive_types(A)]
pub enum Program<Q, A, T> {
    Return(T),
    Request(Q, spec_fn(A) -> Program<Q, A, T>),
    Stuck,
}

impl<Q, A, T> Program<Q, A, T> {
    /// `self`, then whatever `rest` makes of its result.
    pub open spec fn bind<S>(self, rest: spec_fn(T) -> Program<Q, A, S>) -> Program<Q, A, S>
        decreases self,
    {
        match self {
            Program::Return(value) => rest(value),
            Program::Request(request, next) => Program::Request(
                request,
                |answer: A| next(answer).bind(rest),
            ),
            Program::Stuck => Program::Stuck,
        }
    }

    /// What is left once `history` has happened.
    pub open spec fn after(self, history: Seq<Exchange<Q, A>>) -> Program<Q, A, T>
        decreases history.len(),
    {
        if history.len() == 0 {
            self
        } else {
            match self {
                Program::Request(request, next) => if history[0].request == request {
                    next(history[0].answer).after(history.skip(1))
                } else {
                    Program::Stuck
                },
                _ => Program::Stuck,
            }
        }
    }

    /// Between the histories `start` and `end` this got as far as `rest`.
    pub open spec fn leads(
        self,
        start: Seq<Exchange<Q, A>>,
        end: Seq<Exchange<Q, A>>,
        rest: Program<Q, A, T>,
    ) -> bool {
        &&& start.len() <= end.len()
        &&& end.take(start.len() as int) == start
        &&& self.after(end.skip(start.len() as int)) == rest
    }

    /// Between the histories `start` and `end` this ran from its beginning to
    /// its end, and returned `value`.
    pub open spec fn ran(
        self,
        start: Seq<Exchange<Q, A>>,
        end: Seq<Exchange<Q, A>>,
        value: T,
    ) -> bool {
        self.leads(start, end, Program::Return(value))
    }

    /// Whatever the answers, `holds` is true of each request.
    pub open spec fn every(self, holds: spec_fn(Q) -> bool) -> bool
        decreases self,
    {
        match self {
            Program::Request(request, next) => holds(request) && forall|answer: A|
                (#[trigger] next(answer)).every(holds),
            _ => true,
        }
    }

    /// Whatever the answers, `holds` is true of what is returned.
    pub open spec fn ends_in(self, holds: spec_fn(T) -> bool) -> bool
        decreases self,
    {
        match self {
            Program::Return(value) => holds(value),
            Program::Request(request, next) => forall|answer: A|
                (#[trigger] next(answer)).ends_in(holds),
            Program::Stuck => true,
        }
    }

    /// Whatever the answers, the first requests are these.
    pub open spec fn starts_with(self, requests: Seq<Q>) -> bool
        decreases requests.len(),
    {
        requests.len() == 0 || match self {
            Program::Request(request, next) => request == requests[0] && forall|answer: A|
                (#[trigger] next(answer)).starts_with(requests.skip(1)),
            _ => false,
        }
    }

    /// The requests that are made if these answers come, in this order.
    pub open spec fn asked(self, answers: Seq<A>) -> Seq<Q>
        decreases answers.len(),
    {
        match self {
            Program::Request(request, next) => if answers.len() == 0 {
                seq![request]
            } else {
                seq![request] + next(answers[0]).asked(answers.skip(1))
            },
            _ => Seq::empty(),
        }
    }

    /// What is left once these answers have come, in this order.
    pub open spec fn given(self, answers: Seq<A>) -> Program<Q, A, T>
        decreases answers.len(),
    {
        if answers.len() == 0 {
            self
        } else {
            match self {
                Program::Request(request, next) => next(answers[0]).given(answers.skip(1)),
                _ => Program::Stuck,
            }
        }
    }

    /// What is returned if each request is answered as `world` answers it, whenever it is
    /// made.
    pub open spec fn returns_in(self, world: spec_fn(Q) -> A) -> Option<T>
        decreases self,
    {
        match self {
            Program::Return(value) => Some(value),
            Program::Request(request, next) => next(world(request)).returns_in(world),
            Program::Stuck => None,
        }
    }

    /// Some answers lead to `value` being returned.
    pub open spec fn reaches(self, value: T) -> bool
        decreases self,
    {
        match self {
            Program::Return(returned) => returned == value,
            Program::Request(request, next) => exists|answer: A|
                (#[trigger] next(answer)).reaches(value),
            Program::Stuck => false,
        }
    }
}

/// What a program can return is as everything that it returns.
pub proof fn lemma_reached<Q, A, T>(program: Program<Q, A, T>, holds: spec_fn(T) -> bool)
    requires
        program.ends_in(holds),
    ensures
        forall|value: T| #[trigger] program.reaches(value) ==> holds(value),
    decreases program,
{
    match program {
        Program::Request(request, next) => {
            assert forall|value: T| #[trigger] program.reaches(value) implies holds(value) by {
                let answer = choose|answer: A| (#[trigger] next(answer)).reaches(value);
                lemma_reached(next(answer), holds);
            }
        },
        _ => {},
    }
}

/// What is true of whatever a program can return is true of what it returned.
pub proof fn law_ends_in<Q, A, T>(
    program: Program<Q, A, T>,
    holds: spec_fn(T) -> bool,
    start: Seq<Exchange<Q, A>>,
    end: Seq<Exchange<Q, A>>,
    value: T,
)
    requires
        program.ends_in(holds),
        program.ran(start, end, value),
    ensures
        holds(value),
{
    lemma_ends_in_after(program, holds, end.skip(start.len() as int));
}

proof fn lemma_ends_in_after<Q, A, T>(
    program: Program<Q, A, T>,
    holds: spec_fn(T) -> bool,
    history: Seq<Exchange<Q, A>>,
)
    requires
        program.ends_in(holds),
    ensures
        program.after(history).ends_in(holds),
    decreases history.len(),
{
    if history.len() > 0 {
        match program {
            Program::Request(request, next) => {
                if history[0].request == request {
                    lemma_ends_in_after(next(history[0].answer), holds, history.skip(1));
                }
            },
            _ => {},
        }
    }
}

/// What is returned, of two programs in turn.
pub broadcast proof fn lemma_ends_in_bind<Q, A, S, T>(
    program: Program<Q, A, S>,
    rest: spec_fn(S) -> Program<Q, A, T>,
    holds: spec_fn(T) -> bool,
)
    requires
        forall|value: S| #[trigger] program.reaches(value) ==> rest(value).ends_in(holds),
    ensures
        #[trigger] program.bind(rest).ends_in(holds),
    decreases program,
{
    match program {
        Program::Return(value) => {
            assert(program.reaches(value));
            assert(program.bind(rest) == rest(value));
        },
        Program::Request(request, next) => {
            let bound = program.bind(rest)->Request_1;
            assert forall|answer: A| (#[trigger] bound(answer)).ends_in(holds) by {
                assert forall|value: S| #[trigger] next(answer).reaches(value) implies rest(
                    value,
                ).ends_in(holds) by {
                    assert(program.reaches(value));
                }
                lemma_ends_in_bind(next(answer), rest, holds);
                assert(bound(answer) == next(answer).bind(rest));
            }
        },
        Program::Stuck => {},
    }
}

/// What follows a program counts only by what it makes of each result.
pub broadcast proof fn lemma_bind_same<Q, A, S, T>(
    program: Program<Q, A, S>,
    rest: spec_fn(S) -> Program<Q, A, T>,
    other: spec_fn(S) -> Program<Q, A, T>,
)
    requires
        forall|value: S| #[trigger] rest(value) == other(value),
    ensures
        #![trigger program.bind(rest), program.bind(other)]
        program.bind(rest) == program.bind(other),
{
    assert(rest =~= other);
}

/// Of three programs in turn, the last two can be taken together.
pub proof fn lemma_bind_bind<Q, A, R, S, T>(
    program: Program<Q, A, R>,
    middle: spec_fn(R) -> Program<Q, A, S>,
    end: spec_fn(S) -> Program<Q, A, T>,
    rest: spec_fn(R) -> Program<Q, A, T>,
)
    requires
        forall|value: R| #[trigger] rest(value) == middle(value).bind(end),
    ensures
        program.bind(middle).bind(end) == program.bind(rest),
    decreases program,
{
    match program {
        Program::Return(value) => {
            assert(program.bind(middle) == middle(value));
            assert(rest(value) == middle(value).bind(end));
        },
        Program::Request(request, next) => {
            let first = program.bind(middle)->Request_1;
            let twice = program.bind(middle).bind(end)->Request_1;
            let once = program.bind(rest)->Request_1;
            assert forall|answer: A| #[trigger] twice(answer) == once(answer) by {
                lemma_bind_bind(next(answer), middle, end, rest);
                assert(first(answer) == next(answer).bind(middle));
                assert(twice(answer) == first(answer).bind(end));
                assert(once(answer) == next(answer).bind(rest));
            }
            assert(twice =~= once);
        },
        Program::Stuck => {},
    }
}

/// What is weaker is true of what is returned, too.
pub proof fn lemma_ends_in_weaker<Q, A, T>(
    program: Program<Q, A, T>,
    strong: spec_fn(T) -> bool,
    weak: spec_fn(T) -> bool,
)
    requires
        program.ends_in(strong),
        forall|value: T| #[trigger] strong(value) ==> weak(value),
    ensures
        program.ends_in(weak),
    decreases program,
{
    match program {
        Program::Request(request, next) => {
            assert forall|answer: A| (#[trigger] next(answer)).ends_in(weak) by {
                lemma_ends_in_weaker(next(answer), strong, weak);
            }
        },
        _ => {},
    }
}

/// What is requested, by two programs in turn.
pub broadcast proof fn lemma_every_bind<Q, A, S, T>(
    program: Program<Q, A, S>,
    rest: spec_fn(S) -> Program<Q, A, T>,
    holds: spec_fn(Q) -> bool,
)
    requires
        program.every(holds),
        forall|value: S| (#[trigger] rest(value)).every(holds),
    ensures
        #[trigger] program.bind(rest).every(holds),
    decreases program,
{
    match program {
        Program::Return(value) => {
            assert(program.bind(rest) == rest(value));
        },
        Program::Request(request, next) => {
            let bound = program.bind(rest)->Request_1;
            assert forall|answer: A| (#[trigger] bound(answer)).every(holds) by {
                lemma_every_bind(next(answer), rest, holds);
                assert(bound(answer) == next(answer).bind(rest));
            }
        },
        Program::Stuck => {},
    }
}

/// What answers and then more answers come to.
pub proof fn lemma_given_append<Q, A, T>(program: Program<Q, A, T>, answers: Seq<A>, more: Seq<A>)
    ensures
        program.given(answers + more) == program.given(answers).given(more),
    decreases answers.len(),
{
    let all = answers + more;
    if answers.len() == 0 {
        assert(all =~= more);
    } else {
        assert(all[0] == answers[0]);
        assert(all.skip(1) =~= answers.skip(1) + more);
        match program {
            Program::Request(request, next) => {
                lemma_given_append(next(answers[0]), answers.skip(1), more);
            },
            _ => {},
        }
    }
}

/// Answers that bring a program to its end, and what they and more answers come to if
/// something follows it.
pub proof fn lemma_given_in_turn<Q, A, S, T>(
    first: Program<Q, A, S>,
    rest: spec_fn(S) -> Program<Q, A, T>,
    answers: Seq<A>,
    more: Seq<A>,
    value: S,
)
    requires
        first.given(answers) == Program::<Q, A, S>::Return(value),
    ensures
        first.bind(rest).given(answers + more) == rest(value).given(more),
        first.bind(rest).asked(answers + more) == first.asked(answers) + rest(value).asked(more),
    decreases answers.len(),
{
    if answers.len() == 0 {
        assert(answers + more =~= more);
        assert(first.bind(rest) == rest(value));
        assert(first.asked(answers) + rest(value).asked(more) =~= rest(value).asked(more));
    } else {
        let next = first->Request_1;
        let request = first->Request_0;
        let all = answers + more;
        assert(all[0] == answers[0]);
        assert(all.skip(1) =~= answers.skip(1) + more);
        lemma_given_in_turn(next(answers[0]), rest, answers.skip(1), more, value);
        assert(first.bind(rest).asked(all) =~= first.asked(answers) + rest(value).asked(more));
    }
}

/// What two programs in turn return, if each request is answered as `world` answers it.
pub proof fn lemma_returns_in_turn<Q, A, S, T>(
    first: Program<Q, A, S>,
    rest: spec_fn(S) -> Program<Q, A, T>,
    world: spec_fn(Q) -> A,
)
    ensures
        first.bind(rest).returns_in(world) == match first.returns_in(world) {
            Some(value) => rest(value).returns_in(world),
            None => None,
        },
    decreases first,
{
    match first {
        Program::Return(value) => {
            assert(first.bind(rest) == rest(value));
        },
        Program::Request(request, next) => {
            let bound = first.bind(rest)->Request_1;
            lemma_returns_in_turn(next(world(request)), rest, world);
            assert(bound(world(request)) == next(world(request)).bind(rest));
        },
        Program::Stuck => {},
    }
}

/// A program that something follows starts as it does alone.
pub proof fn lemma_starts_bound<Q, A, S, T>(
    program: Program<Q, A, S>,
    rest: spec_fn(S) -> Program<Q, A, T>,
    requests: Seq<Q>,
)
    requires
        program.starts_with(requests),
    ensures
        program.bind(rest).starts_with(requests),
    decreases requests.len(),
{
    if requests.len() > 0 {
        let next = program->Request_1;
        let bound = program.bind(rest)->Request_1;
        assert forall|answer: A| (#[trigger] bound(answer)).starts_with(requests.skip(1)) by {
            assert(next(answer).starts_with(requests.skip(1)));
            lemma_starts_bound(next(answer), rest, requests.skip(1));
            assert(bound(answer) == next(answer).bind(rest));
        }
    }
}

/// A run begins with the requests that its program starts with.
pub proof fn law_starts_with<Q, A, T>(
    program: Program<Q, A, T>,
    requests: Seq<Q>,
    start: Seq<Exchange<Q, A>>,
    end: Seq<Exchange<Q, A>>,
    value: T,
)
    requires
        program.starts_with(requests),
        program.ran(start, end, value),
    ensures
        end.len() >= start.len() + requests.len(),
        forall|i: int|
            0 <= i < requests.len() ==> end[start.len() + i].request == #[trigger] requests[i],
{
    let history = end.skip(start.len() as int);
    lemma_started(program, requests, history, value);
    assert forall|i: int| 0 <= i < requests.len() implies end[start.len() + i].request
        == #[trigger] requests[i] by {
        assert(history[i] == end[start.len() + i]);
    }
}

proof fn lemma_started<Q, A, T>(
    program: Program<Q, A, T>,
    requests: Seq<Q>,
    history: Seq<Exchange<Q, A>>,
    value: T,
)
    requires
        program.starts_with(requests),
        program.after(history) == Program::<Q, A, T>::Return(value),
    ensures
        history.len() >= requests.len(),
        forall|i: int|
            0 <= i < requests.len() ==> history[i].request == #[trigger] requests[i],
    decreases requests.len(),
{
    if requests.len() > 0 {
        let next = program->Request_1;
        assert(history.len() > 0);
        let answer = history[0].answer;
        assert(next(answer).starts_with(requests.skip(1)));
        lemma_started(next(answer), requests.skip(1), history.skip(1), value);
        assert forall|i: int| 0 <= i < requests.len() implies history[i].request
            == #[trigger] requests[i] by {
            if i > 0 {
                assert(requests.skip(1)[i - 1] == requests[i]);
                assert(history.skip(1)[i - 1] == history[i]);
            }
        }
    }
}

/// What is true of each request that a program can make is true of each request
/// that it made.
pub proof fn law_every<Q, A, T>(
    program: Program<Q, A, T>,
    holds: spec_fn(Q) -> bool,
    start: Seq<Exchange<Q, A>>,
    end: Seq<Exchange<Q, A>>,
    value: T,
)
    requires
        program.every(holds),
        program.ran(start, end, value),
    ensures
        forall|i: int| start.len() <= i < end.len() ==> holds((#[trigger] end[i]).request),
{
    let history = end.skip(start.len() as int);
    lemma_every_after(program, holds, history);
    assert forall|i: int| start.len() <= i < end.len() implies holds((#[trigger] end[i]).request) by {
        assert(end[i] == history[i - start.len()]);
    }
}

proof fn lemma_every_after<Q, A, T>(
    program: Program<Q, A, T>,
    holds: spec_fn(Q) -> bool,
    history: Seq<Exchange<Q, A>>,
)
    requires
        program.every(holds),
        program.after(history) !is Stuck,
    ensures
        forall|i: int| 0 <= i < history.len() ==> holds((#[trigger] history[i]).request),
    decreases history.len(),
{
    if history.len() > 0 {
        match program {
            Program::Request(request, next) => {
                lemma_every_after(next(history[0].answer), holds, history.skip(1));
                assert forall|i: int| 0 <= i < history.len() implies holds(
                    (#[trigger] history[i]).request,
                ) by {
                    if i > 0 {
                        assert(history[i] == history.skip(1)[i - 1]);
                    }
                }
            },
            _ => {},
        }
    }
}

/// A history that is gone through in two parts.
pub proof fn lemma_after_append<Q, A, T>(
    program: Program<Q, A, T>,
    first: Seq<Exchange<Q, A>>,
    second: Seq<Exchange<Q, A>>,
)
    ensures
        program.after(first + second) == program.after(first).after(second),
    decreases first.len(),
{
    if first.len() == 0 {
        assert(first + second =~= second);
    } else {
        assert((first + second)[0] == first[0]);
        assert((first + second).skip(1) =~= first.skip(1) + second);
        match program {
            Program::Request(request, next) => {
                if first[0].request == request {
                    lemma_after_append(next(first[0].answer), first.skip(1), second);
                } else {
                    lemma_stuck::<Q, A, T>(second);
                }
            },
            _ => {
                lemma_stuck::<Q, A, T>(second);
            },
        }
    }
}

proof fn lemma_stuck<Q, A, T>(history: Seq<Exchange<Q, A>>)
    ensures
        Program::<Q, A, T>::Stuck.after(history) is Stuck,
{
}

/// The first part of a bound pair runs as it does alone.
pub proof fn lemma_after_bind<Q, A, S, T>(
    first: Program<Q, A, S>,
    rest: spec_fn(S) -> Program<Q, A, T>,
    history: Seq<Exchange<Q, A>>,
)
    requires
        first.after(history) !is Stuck,
    ensures
        first.bind(rest).after(history) == first.after(history).bind(rest),
    decreases history.len(),
{
    if history.len() > 0 {
        match first {
            Program::Request(request, next) => {
                lemma_after_bind(next(history[0].answer), rest, history.skip(1));
            },
            _ => {},
        }
    }
}

/// A run of two programs in turn is a run of the first and then one of the second.
pub proof fn lemma_in_turn<Q, A, S, T>(
    first: Program<Q, A, S>,
    rest: spec_fn(S) -> Program<Q, A, T>,
    history: Seq<Exchange<Q, A>>,
    value: T,
) -> (cut: (int, S))
    requires
        first.bind(rest).after(history) == Program::<Q, A, T>::Return(value),
    ensures
        0 <= cut.0 <= history.len(),
        first.after(history.take(cut.0)) == Program::<Q, A, S>::Return(cut.1),
        rest(cut.1).after(history.skip(cut.0)) == Program::<Q, A, T>::Return(value),
    decreases history.len(),
{
    match first {
        Program::Return(returned) => {
            assert(first.bind(rest) == rest(returned));
            assert(history.skip(0) =~= history);
            assert(first.after(history.take(0)) == first);
            (0, returned)
        },
        Program::Request(request, next) => {
            if history.len() == 0 {
                (0, arbitrary())
            } else {
                let tail = history.skip(1);
                let (cut, returned) = lemma_in_turn(next(history[0].answer), rest, tail, value);
                assert(history.take(cut + 1).skip(1) =~= tail.take(cut));
                assert(history.skip(cut + 1) =~= tail.skip(cut));
                assert(history.take(cut + 1)[0] == history[0]);
                (cut + 1, returned)
            }
        },
        Program::Stuck => (0, arbitrary()),
    }
}

/// Nothing has happened yet.
pub proof fn begin<Q, A, T>(start: Seq<Exchange<Q, A>>, program: Program<Q, A, T>)
    ensures
        program.leads(start, start, program),
{
    assert(start.take(start.len() as int) =~= start);
    assert(start.skip(start.len() as int).len() == 0);
}

/// Nothing has happened yet in what is to be a run.
pub broadcast proof fn lemma_start<Q, A, T>(
    start: Seq<Exchange<Q, A>>,
    end: Seq<Exchange<Q, A>>,
    program: Program<Q, A, T>,
    value: T,
)
    ensures
        #![trigger program.ran(start, end, value)]
        program.leads(start, start, program),
{
    begin(start, program);
}

/// A single request has been answered.
pub broadcast proof fn lemma_request<Q, A, T>(
    start: Seq<Exchange<Q, A>>,
    middle: Seq<Exchange<Q, A>>,
    request: Q,
    answer: A,
    program: Program<Q, A, T>,
    next: spec_fn(A) -> Program<Q, A, T>,
)
    requires
        program.leads(start, middle, Program::Request(request, next)),
    ensures
        #![trigger program.leads(start, middle, Program::Request(request, next)), middle.push(Exchange { request, answer })]
        program.leads(start, middle.push(Exchange { request, answer }), next(answer)),
{
    let end = middle.push(Exchange { request, answer });
    let n = start.len() as int;
    assert(end.take(n) =~= middle.take(n));
    let one = seq![Exchange { request, answer }];
    assert(end.skip(n) =~= middle.skip(n) + one);
    lemma_after_append(program, middle.skip(n), one);
    assert(one.skip(1).len() == 0);
    reveal_with_fuel(Program::after, 2);
}

/// A part of a program has run.
pub broadcast proof fn lemma_part<Q, A, S, T>(
    start: Seq<Exchange<Q, A>>,
    middle: Seq<Exchange<Q, A>>,
    end: Seq<Exchange<Q, A>>,
    program: Program<Q, A, T>,
    part: Program<Q, A, S>,
    rest: spec_fn(S) -> Program<Q, A, T>,
    value: S,
)
    requires
        program.leads(start, middle, part.bind(rest)),
        part.ran(middle, end, value),
    ensures
        #![trigger program.leads(start, middle, part.bind(rest)), part.ran(middle, end, value)]
        program.leads(start, end, rest(value)),
{
    let n = start.len() as int;
    let m = middle.len() as int;
    assert(end.take(n) =~= end.take(m).take(n));
    assert(end.skip(n) =~= middle.skip(n) + end.skip(m)) by {
        assert(middle =~= end.take(m));
    }
    lemma_after_append(program, middle.skip(n), end.skip(m));
    lemma_after_bind(part, rest, end.skip(m));
}

/// What is left of a program has run as a program of its own.
pub broadcast proof fn lemma_tail<Q, A, T>(
    start: Seq<Exchange<Q, A>>,
    middle: Seq<Exchange<Q, A>>,
    end: Seq<Exchange<Q, A>>,
    program: Program<Q, A, T>,
    tail: Program<Q, A, T>,
    value: T,
)
    requires
        program.leads(start, middle, tail),
        tail.ran(middle, end, value),
    ensures
        #![trigger program.leads(start, middle, tail), tail.ran(middle, end, value)]
        program.ran(start, end, value),
{
    let n = start.len() as int;
    let m = middle.len() as int;
    assert(end.take(n) =~= end.take(m).take(n));
    assert(end.skip(n) =~= middle.skip(n) + end.skip(m)) by {
        assert(middle =~= end.take(m));
    }
    lemma_after_append(program, middle.skip(n), end.skip(m));
}

pub broadcast group group_program {
    lemma_start,
    lemma_request,
    lemma_part,
    lemma_tail,
}

} // verus!
