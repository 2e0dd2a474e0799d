//! What holds of every patched document.

use vstd::prelude::*;
use crate::event::{opens_heading, opens_list, EventModel, KindModel};
use crate::event::{CATEGORY_LEVEL, RELEASE_LEVEL};
use crate::request::Category;
use crate::rewrite::{category_block, heading, item, list, release_block};
use crate::rewrite::{enter, heading_category, outcome_of, run_text, scan, seek, text_run};
use crate::rewrite::{lemma_text_run_bound, Outcome, UNRELEASED_TITLE};
use crate::title::{release_target, Target};

verus! {

/// `s` with `block` put in before the event at `at`.
pub open spec fn spliced(s: Seq<EventModel>, at: int, block: Seq<EventModel>) -> Seq<EventModel> {
    s.take(at) + block + s.skip(at)
}

/// The blocks that carry a new entry into a document: a whole release, a
/// category block, a list, or the item alone.
pub open spec fn carries_entry(
    block: Seq<EventModel>,
    category: Category,
    entry: Seq<char>,
) -> bool {
    ||| block == release_block(category, entry)
    ||| block == category_block(category, entry)
    ||| block == list(entry)
    ||| block == item(entry)
}

/// How often an event occurs in a sequence.
pub open spec fn occurrences(s: Seq<EventModel>, e: EventModel) -> nat
    decreases s.len(),
{
    if s.len() == 0 {
        0
    } else if s[0] == e {
        1 + occurrences(s.skip(1), e)
    } else {
        occurrences(s.skip(1), e)
    }
}

/// The elements that are open after `s`, read with `open` open before it;
/// `None` where an `End` closes what is not the innermost open element.
pub open spec fn nesting(s: Seq<EventModel>, open: Seq<KindModel>) -> Option<Seq<KindModel>>
    decreases s.len(),
{
    if s.len() == 0 {
        Some(open)
    } else {
        match s[0] {
            EventModel::Start(kind) => nesting(s.skip(1), open.push(kind)),
            EventModel::End(kind) => if open.len() > 0 && open.last() == kind {
                nesting(s.skip(1), open.drop_last())
            } else {
                None
            },
            _ => nesting(s.skip(1), open),
        }
    }
}

/// Every `Start` of `s` has its `End`, and the pairs are nested.
pub open spec fn balanced(s: Seq<EventModel>) -> bool {
    nesting(s, Seq::empty()) == Some(Seq::<KindModel>::empty())
}

/// A document without any release heading is left as it is, and the run
/// ends as malformed.
pub proof fn lemma_no_release_passes_through(
    s: Seq<EventModel>,
    category: Category,
    entry: Seq<char>,
)
    requires
        forall|i: int| 0 <= i < s.len() ==> !opens_heading(#[trigger] s[i], RELEASE_LEVEL),
    ensures
        seek(s, category, entry) == s,
        outcome_of(s) == Outcome::MalformedDocument,
    decreases s.len(),
{
    if s.len() > 0 {
        let rest = s.skip(1);
        assert(!opens_heading(s[0], RELEASE_LEVEL));
        assert forall|i: int| 0 <= i < rest.len() implies !opens_heading(
            #[trigger] rest[i],
            RELEASE_LEVEL,
        ) by {
            assert(rest[i] == s[i + 1]);
        }
        lemma_no_release_passes_through(rest, category, entry);
        assert(seq![s[0]] + rest =~= s);
    }
}

/// Whenever a run ends as malformed, the document is left as it is.
pub proof fn lemma_malformed_passes_through(
    s: Seq<EventModel>,
    category: Category,
    entry: Seq<char>,
)
    requires
        outcome_of(s) == Outcome::MalformedDocument,
    ensures
        seek(s, category, entry) == s,
    decreases s.len(),
{
    if s.len() > 0 && !opens_heading(s[0], RELEASE_LEVEL) {
        lemma_malformed_passes_through(s.skip(1), category, entry);
        assert(seq![s[0]] + s.skip(1) =~= s);
    }
}

/// Events before the first release heading pass through, and what is done
/// from that heading on does not depend on them.
pub proof fn lemma_front_passes_through(
    front: Seq<EventModel>,
    rest: Seq<EventModel>,
    category: Category,
    entry: Seq<char>,
)
    requires
        forall|i: int| 0 <= i < front.len() ==> !opens_heading(#[trigger] front[i], RELEASE_LEVEL),
    ensures
        seek(front + rest, category, entry) == front + seek(rest, category, entry),
        outcome_of(front + rest) == outcome_of(rest),
    decreases front.len(),
{
    if front.len() == 0 {
        assert(front + rest =~= rest);
        assert(front + seek(rest, category, entry) =~= seek(rest, category, entry));
    } else {
        let s = front + rest;
        let shorter = front.skip(1);
        assert(s[0] == front[0]);
        assert(s.skip(1) =~= shorter + rest);
        assert forall|i: int| 0 <= i < shorter.len() implies !opens_heading(
            #[trigger] shorter[i],
            RELEASE_LEVEL,
        ) by {
            assert(shorter[i] == front[i + 1]);
        }
        lemma_front_passes_through(shorter, rest, category, entry);
        assert(seq![s[0]] + (shorter + seek(rest, category, entry)) =~= front + seek(
            rest,
            category,
            entry,
        ));
    }
}

/// Where the title of the first release heading names a released version,
/// the patched document is the document with a new `Unreleased` release,
/// which holds the entry under its category, right before that heading.
pub proof fn lemma_released_gets_unreleased_in_front(
    front: Seq<EventModel>,
    rest: Seq<EventModel>,
    category: Category,
    entry: Seq<char>,
)
    requires
        forall|i: int| 0 <= i < front.len() ==> !opens_heading(#[trigger] front[i], RELEASE_LEVEL),
        rest.len() > 0,
        opens_heading(rest[0], RELEASE_LEVEL),
        release_target(run_text(rest.skip(1))) == Target::Released,
    ensures
        seek(front + rest, category, entry) == front + release_block(category, entry) + rest,
        outcome_of(front + rest) == Outcome::Inserted,
{
    lemma_front_passes_through(front, rest, category, entry);
    assert(front + (release_block(category, entry) + rest) =~= front + release_block(
        category,
        entry,
    ) + rest);
}

/// Where the title of the first release heading names the release in the
/// making, the heading and its title stay, and the entry is added by a scan
/// of what follows them.
pub proof fn lemma_unreleased_is_scanned(
    front: Seq<EventModel>,
    rest: Seq<EventModel>,
    category: Category,
    entry: Seq<char>,
)
    requires
        forall|i: int| 0 <= i < front.len() ==> !opens_heading(#[trigger] front[i], RELEASE_LEVEL),
        rest.len() > 0,
        opens_heading(rest[0], RELEASE_LEVEL),
        release_target(run_text(rest.skip(1))) == Target::Unreleased,
    ensures
        seek(front + rest, category, entry) == front + rest.take(1 + text_run(rest.skip(1)) as int)
            + scan(rest.skip(1 + text_run(rest.skip(1)) as int), category, entry),
        outcome_of(front + rest) == Outcome::Inserted,
{
    lemma_front_passes_through(front, rest, category, entry);
    let n = 1 + text_run(rest.skip(1)) as int;
    assert(front + (rest.take(n) + scan(rest.skip(n), category, entry)) =~= front + rest.take(n)
        + scan(rest.skip(n), category, entry));
}

/// Inside an `Unreleased` release the patch is one insertion: a block that
/// carries the entry is put in at one place, and every event of the
/// release, and of what follows it, stays where it was.
pub proof fn lemma_scan_is_one_insertion(s: Seq<EventModel>, category: Category, entry: Seq<char>)
    ensures
        exists|at: int, block: Seq<EventModel>|
            0 <= at <= s.len() && carries_entry(block, category, entry) && scan(s, category, entry)
                == #[trigger] spliced(s, at, block),
    decreases s.len(),
{
    let whole = category_block(category, entry);
    if s.len() == 0 || opens_heading(s[0], RELEASE_LEVEL) {
        assert(whole + s =~= spliced(s, 0, whole));
    } else {
        let rest = s.skip(1);
        let found = heading_category(s);
        if found == Some(category) {
            lemma_text_run_bound(rest);
            let close = 1 + text_run(rest) as int;
            if close + 1 < s.len() && opens_list(s[close + 1]) {
                assert(enter(s, entry) == spliced(s, close + 2, item(entry)));
            } else {
                assert(enter(s, entry) == spliced(s, close + 1, list(entry)));
            }
        } else if found is Some && found.unwrap().rank_spec() > category.rank_spec() {
            assert(whole + s =~= spliced(s, 0, whole));
        } else {
            lemma_scan_is_one_insertion(rest, category, entry);
            let (at, block) = choose|at: int, block: Seq<EventModel>|
                0 <= at <= rest.len() && carries_entry(block, category, entry) && scan(
                    rest,
                    category,
                    entry,
                ) == #[trigger] spliced(rest, at, block);
            assert(seq![s[0]] + spliced(rest, at, block) =~= spliced(s, at + 1, block));
        }
    }
}

/// Where the entry is added, the patch is one insertion: a block that
/// carries the entry is put in at one place, and every event of the
/// document stays, in its order.
pub proof fn lemma_patch_is_one_insertion(s: Seq<EventModel>, category: Category, entry: Seq<char>)
    requires
        outcome_of(s) == Outcome::Inserted,
    ensures
        exists|at: int, block: Seq<EventModel>|
            0 <= at <= s.len() && carries_entry(block, category, entry) && seek(s, category, entry)
                == #[trigger] spliced(s, at, block),
    decreases s.len(),
{
    let rest = s.skip(1);
    if opens_heading(s[0], RELEASE_LEVEL) {
        if release_target(run_text(rest)) == Target::Released {
            let whole = release_block(category, entry);
            assert(whole + s =~= spliced(s, 0, whole));
        } else {
            lemma_text_run_bound(rest);
            let n = text_run(rest) as int;
            let tail = s.skip(1 + n);
            lemma_scan_is_one_insertion(tail, category, entry);
            let (at, block) = choose|at: int, block: Seq<EventModel>|
                0 <= at <= tail.len() && carries_entry(block, category, entry) && scan(
                    tail,
                    category,
                    entry,
                ) == #[trigger] spliced(tail, at, block);
            assert(s.take(1 + n) + spliced(tail, at, block) =~= spliced(s, 1 + n + at, block));
        }
    } else {
        lemma_patch_is_one_insertion(rest, category, entry);
        let (at, block) = choose|at: int, block: Seq<EventModel>|
            0 <= at <= rest.len() && carries_entry(block, category, entry) && seek(
                rest,
                category,
                entry,
            ) == #[trigger] spliced(rest, at, block);
        assert(seq![s[0]] + spliced(rest, at, block) =~= spliced(s, at + 1, block));
    }
}

/// Occurrences add up over concatenation.
pub proof fn lemma_occurrences_add(a: Seq<EventModel>, b: Seq<EventModel>, e: EventModel)
    ensures
        occurrences(a + b, e) == occurrences(a, e) + occurrences(b, e),
    decreases a.len(),
{
    if a.len() == 0 {
        assert(a + b =~= b);
    } else {
        lemma_occurrences_add(a.skip(1), b, e);
        assert((a + b).skip(1) =~= a.skip(1) + b);
    }
}

/// The occurrences of an event in sequences of one and of three events.
proof fn lemma_occurrences_few(x: EventModel, y: EventModel, z: EventModel, e: EventModel)
    ensures
        occurrences(seq![x, y, z], e) == (if x == e { 1nat } else { 0 })
            + (if y == e { 1nat } else { 0 })
            + (if z == e { 1nat } else { 0 }),
        occurrences(seq![x], e) == (if x == e { 1nat } else { 0 }),
{
    let s = seq![x, y, z];
    assert(s.skip(1) =~= seq![y, z]);
    assert(s.skip(1).skip(1) =~= seq![z]);
    assert(seq![z].skip(1) =~= Seq::<EventModel>::empty());
    assert(seq![x].skip(1) =~= Seq::<EventModel>::empty());
    reveal_with_fuel(occurrences, 4);
}

/// A heading holds neither the opening nor the closing of an item.
proof fn lemma_heading_holds_no_item(level: u32, title: Seq<char>)
    ensures
        occurrences(heading(level, title), EventModel::Start(KindModel::Item)) == 0,
        occurrences(heading(level, title), EventModel::End(KindModel::Item)) == 0,
{
    let h = heading(level, title);
    lemma_occurrences_few(h[0], h[1], h[2], EventModel::Start(KindModel::Item));
    lemma_occurrences_few(h[0], h[1], h[2], EventModel::End(KindModel::Item));
    assert(h =~= seq![h[0], h[1], h[2]]);
}

/// Each block that carries an entry holds one opening and one closing of an item.
pub proof fn lemma_block_holds_one_item(
    block: Seq<EventModel>,
    category: Category,
    entry: Seq<char>,
)
    requires
        carries_entry(block, category, entry),
    ensures
        occurrences(block, EventModel::Start(KindModel::Item)) == 1,
        occurrences(block, EventModel::End(KindModel::Item)) == 1,
{
    let open = EventModel::Start(KindModel::Item);
    let close = EventModel::End(KindModel::Item);
    let list_open = EventModel::Start(KindModel::List(None));
    let list_close = EventModel::End(KindModel::List(None));
    let text = EventModel::Text(entry);
    lemma_occurrences_few(open, text, close, open);
    lemma_occurrences_few(open, text, close, close);
    assert(occurrences(item(entry), open) == 1);
    assert(occurrences(item(entry), close) == 1);
    lemma_occurrences_few(list_open, text, text, open);
    lemma_occurrences_few(list_open, text, text, close);
    lemma_occurrences_few(list_close, text, text, open);
    lemma_occurrences_few(list_close, text, text, close);
    lemma_occurrences_add(seq![list_open], item(entry), open);
    lemma_occurrences_add(seq![list_open], item(entry), close);
    lemma_occurrences_add(seq![list_open] + item(entry), seq![list_close], open);
    lemma_occurrences_add(seq![list_open] + item(entry), seq![list_close], close);
    assert(occurrences(list(entry), open) == 1);
    assert(occurrences(list(entry), close) == 1);
    lemma_heading_holds_no_item(CATEGORY_LEVEL, category.title_spec());
    lemma_occurrences_add(heading(CATEGORY_LEVEL, category.title_spec()), list(entry), open);
    lemma_occurrences_add(heading(CATEGORY_LEVEL, category.title_spec()), list(entry), close);
    assert(occurrences(category_block(category, entry), open) == 1);
    assert(occurrences(category_block(category, entry), close) == 1);
    lemma_heading_holds_no_item(RELEASE_LEVEL, UNRELEASED_TITLE@);
    let top = heading(RELEASE_LEVEL, UNRELEASED_TITLE@);
    lemma_occurrences_add(top, category_block(category, entry), open);
    lemma_occurrences_add(top, category_block(category, entry), close);
}

/// Where the entry is added, the patched document holds exactly one more
/// opening of an item than the document, and exactly one more closing.
pub proof fn lemma_one_more_item(s: Seq<EventModel>, category: Category, entry: Seq<char>)
    requires
        outcome_of(s) == Outcome::Inserted,
    ensures
        occurrences(seek(s, category, entry), EventModel::Start(KindModel::Item)) == occurrences(
            s,
            EventModel::Start(KindModel::Item),
        ) + 1,
        occurrences(seek(s, category, entry), EventModel::End(KindModel::Item)) == occurrences(
            s,
            EventModel::End(KindModel::Item),
        ) + 1,
{
    let open = EventModel::Start(KindModel::Item);
    let close = EventModel::End(KindModel::Item);
    lemma_patch_is_one_insertion(s, category, entry);
    let (at, block) = choose|at: int, block: Seq<EventModel>|
        0 <= at <= s.len() && carries_entry(block, category, entry) && seek(s, category, entry)
            == #[trigger] spliced(s, at, block);
    lemma_block_holds_one_item(block, category, entry);
    assert(s.take(at) + s.skip(at) =~= s);
    lemma_occurrences_add(s.take(at), s.skip(at), open);
    lemma_occurrences_add(s.take(at), s.skip(at), close);
    lemma_occurrences_add(s.take(at) + block, s.skip(at), open);
    lemma_occurrences_add(s.take(at) + block, s.skip(at), close);
    lemma_occurrences_add(s.take(at), block, open);
    lemma_occurrences_add(s.take(at), block, close);
}

/// Nesting reads a concatenation part by part.
pub proof fn lemma_nesting_add(a: Seq<EventModel>, b: Seq<EventModel>, open: Seq<KindModel>)
    ensures
        nesting(a + b, open) == match nesting(a, open) {
            Some(between) => nesting(b, between),
            None => None,
        },
    decreases a.len(),
{
    if a.len() == 0 {
        assert(a + b =~= b);
    } else {
        assert((a + b).skip(1) =~= a.skip(1) + b);
        assert((a + b)[0] == a[0]);
        match a[0] {
            EventModel::Start(kind) => lemma_nesting_add(a.skip(1), b, open.push(kind)),
            EventModel::End(kind) => {
                if open.len() > 0 && open.last() == kind {
                    lemma_nesting_add(a.skip(1), b, open.drop_last());
                }
            },
            _ => lemma_nesting_add(a.skip(1), b, open),
        }
    }
}

/// An element that holds one text leaves open what was open before it.
proof fn lemma_pair_is_neutral(kind: KindModel, text: Seq<char>, open: Seq<KindModel>)
    ensures
        nesting(
            seq![EventModel::Start(kind), EventModel::Text(text), EventModel::End(kind)],
            open,
        ) == Some(open),
{
    let s = seq![EventModel::Start(kind), EventModel::Text(text), EventModel::End(kind)];
    assert(s.skip(1) =~= seq![EventModel::Text(text), EventModel::End(kind)]);
    assert(s.skip(1).skip(1) =~= seq![EventModel::End(kind)]);
    assert(s.skip(1).skip(1).skip(1) =~= Seq::<EventModel>::empty());
    assert(open.push(kind).drop_last() =~= open);
    reveal_with_fuel(nesting, 5);
}

/// Each block that carries an entry leaves open what was open before it.
pub proof fn lemma_block_is_neutral(
    block: Seq<EventModel>,
    category: Category,
    entry: Seq<char>,
    open: Seq<KindModel>,
)
    requires
        carries_entry(block, category, entry),
    ensures
        nesting(block, open) == Some(open),
{
    let unordered = KindModel::List(None);
    let inner = open.push(unordered);
    lemma_pair_is_neutral(KindModel::Item, entry, open);
    lemma_pair_is_neutral(KindModel::Item, entry, inner);
    let opening = seq![EventModel::Start(unordered)];
    let closing = seq![EventModel::End(unordered)];
    assert(opening.skip(1) =~= Seq::<EventModel>::empty());
    assert(closing.skip(1) =~= Seq::<EventModel>::empty());
    assert(inner.drop_last() =~= open);
    assert(nesting(opening, open) == Some(inner)) by {
        reveal_with_fuel(nesting, 3);
    }
    assert(nesting(closing, inner) == Some(open)) by {
        reveal_with_fuel(nesting, 3);
    }
    lemma_nesting_add(opening, item(entry), open);
    lemma_nesting_add(opening + item(entry), closing, open);
    assert(nesting(list(entry), open) == Some(open));
    lemma_pair_is_neutral(KindModel::Heading(CATEGORY_LEVEL), category.title_spec(), open);
    lemma_nesting_add(heading(CATEGORY_LEVEL, category.title_spec()), list(entry), open);
    lemma_pair_is_neutral(KindModel::Heading(RELEASE_LEVEL), UNRELEASED_TITLE@, open);
    lemma_nesting_add(
        heading(RELEASE_LEVEL, UNRELEASED_TITLE@),
        category_block(category, entry),
        open,
    );
}

/// Patching keeps the nesting of a document: read with anything open before
/// it, the patched document leaves open what the document leaves open, and
/// fails to nest only where the document does.
pub proof fn lemma_patch_keeps_nesting(
    s: Seq<EventModel>,
    category: Category,
    entry: Seq<char>,
    open: Seq<KindModel>,
)
    ensures
        nesting(seek(s, category, entry), open) == nesting(s, open),
{
    if outcome_of(s) == Outcome::Inserted {
        lemma_patch_is_one_insertion(s, category, entry);
        let (at, block) = choose|at: int, block: Seq<EventModel>|
            0 <= at <= s.len() && carries_entry(block, category, entry) && seek(s, category, entry)
                == #[trigger] spliced(s, at, block);
        assert(s.take(at) + s.skip(at) =~= s);
        lemma_nesting_add(s.take(at), s.skip(at), open);
        lemma_nesting_add(s.take(at) + block, s.skip(at), open);
        lemma_nesting_add(s.take(at), block, open);
        match nesting(s.take(at), open) {
            Some(between) => lemma_block_is_neutral(block, category, entry, between),
            None => {},
        }
    } else {
        lemma_malformed_passes_through(s, category, entry);
    }
}

/// Two runs on one balanced document, with any two requests, each give a
/// balanced document: every `Start` still has its `End`.
pub proof fn lemma_runs_keep_pairs(
    s: Seq<EventModel>,
    first: Category,
    first_entry: Seq<char>,
    second: Category,
    second_entry: Seq<char>,
)
    requires
        balanced(s),
    ensures
        balanced(seek(s, first, first_entry)),
        balanced(seek(s, second, second_entry)),
{
    lemma_patch_keeps_nesting(s, first, first_entry, Seq::empty());
    lemma_patch_keeps_nesting(s, second, second_entry, Seq::empty());
}

} // verus!
