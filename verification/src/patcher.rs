//! The patcher: an iterator-shaped filter over a document's events.
//!
//! It owns the events that are still to come and a queue of events that are
//! ready to leave. A pull hands out the front of the queue; where the queue
//! is empty the patcher reads on, as far as the decision at hand needs, and
//! fills the queue in the order in which the events leave.

use std::collections::VecDeque;
use vstd::prelude::*;
use crate::event::{views, Event, EventModel, Kind, KindModel, CATEGORY_LEVEL, RELEASE_LEVEL};
use crate::request::{Category, Request};
use crate::rewrite::{category_block, heading, item, list, release_block};
use crate::rewrite::{category_heading, enter, heading_category, outcome_of};
use crate::rewrite::{run_text, scan, seek, text_run};
use crate::rewrite::lemma_scan_over_text;
use crate::rewrite::{Outcome, UNRELEASED_TITLE};
use crate::title::{read_title, Target};

verus! {

/// Where the patcher stands in the document.
#[derive(Clone, Copy, Debug, PartialEq, Eq, Structural)]
enum Phase {
    /// Before the first release heading.
    Seeking,
    /// Inside the `Unreleased` release, looking for the place of the entry.
    Scanning,
    /// Past the point of insertion, or past a title that could not be read.
    Passing,
}

/// A patcher over one document, for one request.
pub struct Patcher {
    upstream: VecDeque<Event>,
    pending: VecDeque<Event>,
    phase: Phase,
    request: Request,
    outcome: Outcome,
}

/// Appends a heading that holds one text.
fn push_heading(queue: &mut VecDeque<Event>, level: u32, title: &str)
    ensures
        views(final(queue)@) == views(old(queue)@) + heading(level, title@),
{
    queue.push_back(Event::Start(Kind::Heading(level)));
    queue.push_back(Event::Text(String::from_str(title)));
    queue.push_back(Event::End(Kind::Heading(level)));
    assert(views(queue@) =~= views(old(queue)@) + heading(level, title@));
}

/// Appends a list item that holds one text.
fn push_item(queue: &mut VecDeque<Event>, entry: &String)
    ensures
        views(final(queue)@) == views(old(queue)@) + item(entry@),
{
    queue.push_back(Event::Start(Kind::Item));
    queue.push_back(Event::Text(entry.clone()));
    queue.push_back(Event::End(Kind::Item));
    assert(views(queue@) =~= views(old(queue)@) + item(entry@));
}

/// Appends an unordered list of one item.
fn push_list(queue: &mut VecDeque<Event>, entry: &String)
    ensures
        views(final(queue)@) == views(old(queue)@) + list(entry@),
{
    queue.push_back(Event::Start(Kind::List(None)));
    let ghost opened = queue@;
    assert(views(opened) =~= views(old(queue)@) + seq![EventModel::Start(KindModel::List(None))]);
    push_item(queue, entry);
    let ghost filled = queue@;
    queue.push_back(Event::End(Kind::List(None)));
    assert(views(queue@) =~= views(filled) + seq![EventModel::End(KindModel::List(None))]);
    assert(views(queue@) =~= views(old(queue)@) + list(entry@));
}

/// Appends a category block.
fn push_category_block(queue: &mut VecDeque<Event>, category: Category, entry: &String)
    ensures
        views(final(queue)@) == views(old(queue)@) + category_block(category, entry@),
{
    push_heading(queue, CATEGORY_LEVEL, category.title());
    push_list(queue, entry);
    assert(views(queue@) =~= views(old(queue)@) + category_block(category, entry@));
}

/// Appends an `Unreleased` release with one category block.
fn push_release_block(queue: &mut VecDeque<Event>, category: Category, entry: &String)
    ensures
        views(final(queue)@) == views(old(queue)@) + release_block(category, entry@),
{
    push_heading(queue, RELEASE_LEVEL, UNRELEASED_TITLE);
    push_category_block(queue, category, entry);
    assert(views(queue@) =~= views(old(queue)@) + release_block(category, entry@));
}

/// Moves the text events at the front of `upstream` to the back of
/// `pending`, and returns their texts, joined.
fn take_title(upstream: &mut VecDeque<Event>, pending: &mut VecDeque<Event>) -> (title: String)
    ensures
        text_run(views(old(upstream)@)) <= old(upstream)@.len(),
        final(upstream)@ == old(upstream)@.skip(text_run(views(old(upstream)@)) as int),
        final(pending)@ == old(pending)@ + old(upstream)@.take(
            text_run(views(old(upstream)@)) as int,
        ),
        title@ == run_text(views(old(upstream)@)),
{
    let mut title = String::new();
    let ghost start = upstream@;
    let ghost held = pending@;
    let ghost mut k: int = 0;
    proof {
        assert(start.skip(0) =~= start);
        assert(held + start.take(0) =~= held);
        assert(title@ + run_text(views(start)) =~= run_text(views(start)));
    }
    while upstream.len() > 0 && upstream[0].is_text()
        invariant
            0 <= k <= start.len(),
            upstream@ == start.skip(k),
            pending@ == held + start.take(k),
            text_run(views(start)) == k + text_run(views(upstream@)),
            run_text(views(start)) == title@ + run_text(views(upstream@)),
        decreases upstream@.len(),
    {
        let ghost before = upstream@;
        let ghost so_far = title@;
        let e = upstream.pop_front().unwrap();
        match &e {
            Event::Text(text) => {
                title.append(text.as_str());
            },
            _ => {},
        }
        proof {
            assert(views(before).skip(1) =~= views(upstream@));
            assert(upstream@ =~= start.skip(k + 1));
            assert(held + start.take(k).push(e) =~= held + start.take(k + 1));
            assert(pending@.push(e) =~= held + start.take(k + 1));
            let t = e@->Text_0;
            assert(run_text(views(before)) == t + run_text(views(upstream@)));
            assert(so_far + (t + run_text(views(upstream@))) =~= (so_far + t) + run_text(
                views(upstream@),
            ));
            k = k + 1;
        }
        pending.push_back(e);
    }
    title
}

impl Patcher {
    /// The events that this patcher has still to hand out, in order.
    pub closed spec fn remaining(&self) -> Seq<EventModel> {
        views(self.pending@) + match self.phase {
            Phase::Seeking => seek(
                views(self.upstream@),
                self.request.category_spec(),
                self.request.entry_spec(),
            ),
            Phase::Scanning => scan(
                views(self.upstream@),
                self.request.category_spec(),
                self.request.entry_spec(),
            ),
            Phase::Passing => views(self.upstream@),
        }
    }

    /// How this patcher's run ends.
    pub closed spec fn verdict(&self) -> Outcome {
        match self.phase {
            Phase::Seeking => outcome_of(views(self.upstream@)),
            _ => self.outcome,
        }
    }

    /// Whether the patcher has come to the first release heading, or to the
    /// end of a document that has none.
    pub closed spec fn settled(&self) -> bool {
        self.phase != Phase::Seeking
    }

    /// A patcher at the start of a document.
    pub fn new(upstream: VecDeque<Event>, request: Request) -> (p: Patcher)
        ensures
            p.remaining() == seek(views(upstream@), request.category_spec(), request.entry_spec()),
            p.verdict() == outcome_of(views(upstream@)),
    {
        let p = Patcher {
            upstream,
            pending: VecDeque::new(),
            phase: Phase::Seeking,
            request,
            outcome: Outcome::MalformedDocument,
        };
        assert(views(p.pending@) + seek(
            views(upstream@),
            request.category_spec(),
            request.entry_spec(),
        ) =~= seek(views(upstream@), request.category_spec(), request.entry_spec()));
        p
    }

    /// How the run ends, once that is known: `None` before the patcher has
    /// come to the first release heading or to the end of the document.
    pub fn outcome(&self) -> (r: Option<Outcome>)
        ensures
            r is Some <==> self.settled(),
            r is Some ==> r == Some(self.verdict()),
    {
        match self.phase {
            Phase::Seeking => None,
            _ => Some(self.outcome),
        }
    }

    /// Reads on from before the first release heading.
    fn seek_step(&mut self)
        requires
            old(self).phase == Phase::Seeking,
            old(self).pending@.len() == 0,
        ensures
            final(self).remaining() == old(self).remaining(),
            final(self).verdict() == old(self).verdict(),
            final(self).request == old(self).request,
            final(self).pending@.len() > 0 || final(self).phase == Phase::Passing,
    {
        let ghost s = views(self.upstream@);
        let ghost category = self.request.category_spec();
        let ghost entry = self.request.entry_spec();
        assert(views(self.pending@) + seek(s, category, entry) =~= seek(s, category, entry));
        match self.upstream.pop_front() {
            None => {
                self.phase = Phase::Passing;
                self.outcome = Outcome::MalformedDocument;
                assert(self.remaining() =~= seek(s, category, entry));
            },
            Some(e) => {
                let ghost rest = views(self.upstream@);
                assert(rest =~= s.skip(1));
                if e.is_heading_start(RELEASE_LEVEL) {
                    self.pending.push_back(e);
                    let title = take_title(&mut self.upstream, &mut self.pending);
                    let ghost n = text_run(rest) as int;
                    proof {
                        assert(views(self.pending@) =~= s.take(1 + n));
                        assert(views(self.upstream@) =~= s.skip(1 + n));
                    }
                    match read_title(title.as_str()) {
                        Target::Malformed => {
                            self.phase = Phase::Passing;
                            self.outcome = Outcome::MalformedDocument;
                            assert(self.remaining() =~= s);
                        },
                        Target::Released => {
                            let mut block: VecDeque<Event> = VecDeque::new();
                            push_release_block(
                                &mut block,
                                self.request.category(),
                                self.request.entry(),
                            );
                            block.append(&mut self.pending);
                            self.pending = block;
                            self.phase = Phase::Passing;
                            self.outcome = Outcome::Inserted;
                            assert(self.remaining() =~= release_block(category, entry) + s);
                        },
                        Target::Unreleased => {
                            self.phase = Phase::Scanning;
                            self.outcome = Outcome::Inserted;
                        },
                    }
                } else {
                    self.pending.push_back(e);
                    assert(views(self.pending@) =~= seq![s[0]]);
                }
            },
        }
    }

    /// Reads on inside the `Unreleased` release.
    fn scan_step(&mut self)
        requires
            old(self).phase == Phase::Scanning,
            old(self).pending@.len() == 0,
        ensures
            final(self).remaining() == old(self).remaining(),
            final(self).verdict() == old(self).verdict(),
            final(self).request == old(self).request,
            final(self).pending@.len() > 0,
            final(self).phase != Phase::Seeking,
    {
        let ghost s = views(self.upstream@);
        let ghost category = self.request.category_spec();
        let ghost entry = self.request.entry_spec();
        assert(views(self.pending@) + scan(s, category, entry) =~= scan(s, category, entry));
        if self.upstream.len() == 0 || self.upstream[0].is_heading_start(RELEASE_LEVEL) {
            push_category_block(&mut self.pending, self.request.category(), self.request.entry());
            self.phase = Phase::Passing;
            assert(self.remaining() =~= category_block(category, entry) + s);
            return ;
        }
        let e = self.upstream.pop_front().unwrap();
        let ghost rest = views(self.upstream@);
        assert(rest =~= s.skip(1));
        if !e.is_heading_start(CATEGORY_LEVEL) {
            self.pending.push_back(e);
            assert(views(self.pending@) =~= seq![s[0]]);
            assert(heading_category(s) is None);
            return ;
        }
        self.pending.push_back(e);
        let title = take_title(&mut self.upstream, &mut self.pending);
        let ghost n = text_run(rest) as int;
        proof {
            assert(views(self.pending@) =~= s.take(1 + n));
            assert(views(self.upstream@) =~= s.skip(1 + n));
            lemma_scan_over_text(rest, category, entry);
            assert(rest.skip(n) =~= s.skip(1 + n));
            assert(seq![s[0]] + rest.take(n) =~= s.take(1 + n));
            assert(seq![s[0]] + (rest.take(n) + scan(rest.skip(n), category, entry)) =~= s.take(
                1 + n,
            ) + scan(s.skip(1 + n), category, entry));
        }
        let closed = self.upstream.len() > 0 && self.upstream[0].is_heading_end(CATEGORY_LEVEL);
        assert(closed == category_heading(s));
        if !closed {
            return ;
        }
        match Category::parse(title.as_str()) {
            None => {},
            Some(found) => {
                if found.rank() == self.request.category().rank() {
                    let close = self.upstream.pop_front().unwrap();
                    self.pending.push_back(close);
                    if self.upstream.len() > 0 && self.upstream[0].is_list_start() {
                        let open = self.upstream.pop_front().unwrap();
                        self.pending.push_back(open);
                        assert(views(self.pending@) =~= s.take(n + 3));
                        push_item(&mut self.pending, self.request.entry());
                        assert(views(self.upstream@) =~= s.skip(n + 3));
                    } else {
                        assert(views(self.pending@) =~= s.take(n + 2));
                        push_list(&mut self.pending, self.request.entry());
                        assert(views(self.upstream@) =~= s.skip(n + 2));
                    }
                    self.phase = Phase::Passing;
                    assert(found == category);
                    assert(self.remaining() =~= enter(s, entry));
                } else if found.rank() > self.request.category().rank() {
                    let mut block: VecDeque<Event> = VecDeque::new();
                    push_category_block(
                        &mut block,
                        self.request.category(),
                        self.request.entry(),
                    );
                    block.append(&mut self.pending);
                    self.pending = block;
                    self.phase = Phase::Passing;
                    assert(self.remaining() =~= category_block(category, entry) + s);
                }
            },
        }
    }

    /// Hands out the next event of the patched document, `None` at its end.
    pub fn next(&mut self) -> (r: Option<Event>)
        ensures
            final(self).verdict() == old(self).verdict(),
            old(self).settled() ==> final(self).settled(),
            match r {
                Some(e) => {
                    &&& old(self).remaining().len() > 0
                    &&& e@ == old(self).remaining()[0]
                    &&& final(self).remaining() == old(self).remaining().skip(1)
                },
                None => {
                    &&& old(self).remaining().len() == 0
                    &&& final(self).remaining().len() == 0
                    &&& final(self).settled()
                },
            },
    {
        if self.pending.len() == 0 {
            match self.phase {
                Phase::Seeking => self.seek_step(),
                Phase::Scanning => self.scan_step(),
                Phase::Passing => {},
            }
        }
        let ghost ready = self.remaining();
        if self.pending.len() > 0 {
            let r = self.pending.pop_front();
            assert(self.remaining() =~= ready.skip(1));
            r
        } else {
            let r = self.upstream.pop_front();
            assert(views(self.pending@) + views(self.upstream@) =~= views(self.upstream@));
            proof {
                if r is Some {
                    assert(self.remaining() =~= ready.skip(1));
                }
            }
            r
        }
    }
}

/// The document after patching: what `patch` returns for it.
pub open spec fn patched(input: Seq<Event>, request: Request) -> Seq<EventModel> {
    seek(views(input), request.category_spec(), request.entry_spec())
}

/// Moves the events of a vector into a queue, in the same order.
pub fn into_queue(input: Vec<Event>) -> (queue: VecDeque<Event>)
    ensures
        queue@ == input@,
{
    let mut input = input;
    let mut queue: VecDeque<Event> = VecDeque::new();
    let ghost whole = input@;
    while input.len() > 0
        invariant
            input@ + queue@ == whole,
        decreases input@.len(),
    {
        let ghost before = input@;
        let ghost held = queue@;
        let e = input.pop().unwrap();
        queue.push_front(e);
        assert(input@ + queue@ =~= before + held);
    }
    assert(input@ + queue@ =~= queue@);
    queue
}

/// Patches a whole document: returns its events with the entry of the
/// request added, and how the run ended.
pub fn patch(input: Vec<Event>, request: Request) -> (r: (Vec<Event>, Outcome))
    ensures
        views(r.0@) == patched(input@, request),
        r.1 == outcome_of(views(input@)),
{
    let mut patcher = Patcher::new(into_queue(input), request);
    let mut output: Vec<Event> = Vec::new();
    let ghost whole = patcher.remaining();
    assert(views(output@) + patcher.remaining() =~= whole);
    loop
        invariant
            views(output@) + patcher.remaining() == whole,
            patcher.verdict() == outcome_of(views(input@)),
        ensures
            patcher.remaining().len() == 0,
            patcher.settled(),
        decreases patcher.remaining().len(),
    {
        let ghost before = patcher.remaining();
        let ghost written = output@;
        match patcher.next() {
            None => {
                assert(views(output@) + patcher.remaining() =~= views(output@));
                break ;
            },
            Some(e) => {
                output.push(e);
                assert(views(output@) + patcher.remaining() =~= views(written) + before);
            },
        }
    }
    assert(views(output@) =~= whole);
    let outcome = match patcher.outcome() {
        Some(o) => o,
        None => Outcome::MalformedDocument,
    };
    (output, outcome)
}

} // verus!
