//! What patching means, stated on sequences of event models.
//!
//! Before the first release heading every event passes through. The title of
//! that heading decides: a released version gets a new `Unreleased` release
//! put in front of it; an `Unreleased` release is searched for the category
//! of the request; any other title leaves the document as it is.
//!
//! A new entry becomes the first item of its list.

use vstd::prelude::*;
use crate::event::{closes_heading, opens_heading, opens_list, EventModel, KindModel};
use crate::event::{CATEGORY_LEVEL, RELEASE_LEVEL};
use crate::request::Category;
use crate::title::{release_target, Target};

verus! {

/// The title of the release that is synthesized.
pub const UNRELEASED_TITLE: &'static str = "[Unreleased]";

/// How many text events stand at the front of a sequence.
pub open spec fn text_run(s: Seq<EventModel>) -> nat
    decreases s.len(),
{
    if s.len() > 0 && s[0] is Text {
        1 + text_run(s.skip(1))
    } else {
        0
    }
}

/// The texts at the front of a sequence, joined.
pub open spec fn run_text(s: Seq<EventModel>) -> Seq<char>
    decreases s.len(),
{
    if s.len() > 0 {
        match s[0] {
            EventModel::Text(t) => t + run_text(s.skip(1)),
            _ => Seq::empty(),
        }
    } else {
        Seq::empty()
    }
}

/// A heading that holds one text.
pub open spec fn heading(level: u32, title: Seq<char>) -> Seq<EventModel> {
    seq![
        EventModel::Start(KindModel::Heading(level)),
        EventModel::Text(title),
        EventModel::End(KindModel::Heading(level)),
    ]
}

/// A list item that holds one text.
pub open spec fn item(entry: Seq<char>) -> Seq<EventModel> {
    seq![
        EventModel::Start(KindModel::Item),
        EventModel::Text(entry),
        EventModel::End(KindModel::Item),
    ]
}

/// An unordered list of one item.
pub open spec fn list(entry: Seq<char>) -> Seq<EventModel> {
    seq![EventModel::Start(KindModel::List(None))] + item(entry) + seq![
        EventModel::End(KindModel::List(None)),
    ]
}

/// A category block: its heading and a list of one item.
pub open spec fn category_block(category: Category, entry: Seq<char>) -> Seq<EventModel> {
    heading(CATEGORY_LEVEL, category.title_spec()) + list(entry)
}

/// An `Unreleased` release that holds one category block.
pub open spec fn release_block(category: Category, entry: Seq<char>) -> Seq<EventModel> {
    heading(RELEASE_LEVEL, UNRELEASED_TITLE@) + category_block(category, entry)
}

/// Whether the heading that opens `s` is the heading of a category: a level
/// three heading whose content is text alone.
pub open spec fn category_heading(s: Seq<EventModel>) -> bool {
    &&& s.len() > 0
    &&& opens_heading(s[0], CATEGORY_LEVEL)
    &&& 1 + text_run(s.skip(1)) < s.len()
    &&& closes_heading(s[1 + text_run(s.skip(1)) as int], CATEGORY_LEVEL)
}

/// The category that the heading at the front of `s` names, if it is the
/// heading of a category and its title is in the vocabulary.
pub open spec fn heading_category(s: Seq<EventModel>) -> Option<Category> {
    if category_heading(s) {
        Category::named(run_text(s.skip(1)))
    } else {
        None
    }
}

/// `s` with the entry put into the category block that opens it: as the
/// first item of the list that follows the heading, or in a new list where
/// no list follows.
pub open spec fn enter(s: Seq<EventModel>, entry: Seq<char>) -> Seq<EventModel> {
    let close = 1 + text_run(s.skip(1)) as int;
    if close + 1 < s.len() && opens_list(s[close + 1]) {
        s.take(close + 2) + item(entry) + s.skip(close + 2)
    } else {
        s.take(close + 1) + list(entry) + s.skip(close + 1)
    }
}

/// The events of an `Unreleased` release, and all that follows, after the
/// entry was added. The category's block is used where the release has it;
/// else a new block is put before the first category that comes later in the
/// vocabulary, or at the end of the release.
pub open spec fn scan(s: Seq<EventModel>, category: Category, entry: Seq<char>) -> Seq<EventModel>
    decreases s.len(),
{
    if s.len() == 0 || opens_heading(s[0], RELEASE_LEVEL) {
        category_block(category, entry) + s
    } else {
        match heading_category(s) {
            Some(found) => if found == category {
                enter(s, entry)
            } else if found.rank_spec() > category.rank_spec() {
                category_block(category, entry) + s
            } else {
                seq![s[0]] + scan(s.skip(1), category, entry)
            },
            None => seq![s[0]] + scan(s.skip(1), category, entry),
        }
    }
}

/// The whole document after patching.
pub open spec fn seek(s: Seq<EventModel>, category: Category, entry: Seq<char>) -> Seq<EventModel>
    decreases s.len(),
{
    if s.len() == 0 {
        s
    } else if opens_heading(s[0], RELEASE_LEVEL) {
        let n = text_run(s.skip(1)) as int;
        match release_target(run_text(s.skip(1))) {
            Target::Malformed => s,
            Target::Released => release_block(category, entry) + s,
            Target::Unreleased => s.take(1 + n) + scan(s.skip(1 + n), category, entry),
        }
    } else {
        seq![s[0]] + seek(s.skip(1), category, entry)
    }
}

/// How a run of the patcher ends.
#[derive(Clone, Copy, Debug, PartialEq, Eq, Structural)]
pub enum Outcome {
    /// The entry was added.
    Inserted,
    /// The document has no release heading, or the title of its first
    /// release heading has not the shape of a release title: nothing was added.
    MalformedDocument,
}

/// How patching a document ends.
pub open spec fn outcome_of(s: Seq<EventModel>) -> Outcome
    decreases s.len(),
{
    if s.len() == 0 {
        Outcome::MalformedDocument
    } else if opens_heading(s[0], RELEASE_LEVEL) {
        if release_target(run_text(s.skip(1))) == Target::Malformed {
            Outcome::MalformedDocument
        } else {
            Outcome::Inserted
        }
    } else {
        outcome_of(s.skip(1))
    }
}

/// The text events at the front of a sequence are within it.
pub proof fn lemma_text_run_bound(s: Seq<EventModel>)
    ensures
        text_run(s) <= s.len(),
        forall|i: int| 0 <= i < text_run(s) ==> (#[trigger] s[i]) is Text,
        text_run(s) < s.len() ==> !(s[text_run(s) as int] is Text),
    decreases s.len(),
{
    if s.len() > 0 && s[0] is Text {
        let rest = s.skip(1);
        lemma_text_run_bound(rest);
        assert forall|i: int| 0 <= i < text_run(s) implies (#[trigger] s[i]) is Text by {
            if i > 0 {
                assert(s[i] == rest[i - 1]);
            }
        }
        if text_run(s) < s.len() {
            assert(s[text_run(s) as int] == rest[text_run(rest) as int]);
        }
    }
}

/// Scanning passes over text: the texts at the front of `s` stay, and the
/// scan goes on behind them.
pub proof fn lemma_scan_over_text(s: Seq<EventModel>, category: Category, entry: Seq<char>)
    ensures
        text_run(s) <= s.len(),
        scan(s, category, entry) == s.take(text_run(s) as int) + scan(
            s.skip(text_run(s) as int),
            category,
            entry,
        ),
    decreases s.len(),
{
    lemma_text_run_bound(s);
    if s.len() > 0 && s[0] is Text {
        let rest = s.skip(1);
        let n = text_run(rest) as int;
        lemma_scan_over_text(rest, category, entry);
        assert(rest.skip(n) =~= s.skip(n + 1));
        assert(seq![s[0]] + rest.take(n) =~= s.take(n + 1));
        assert(scan(s, category, entry) == seq![s[0]] + scan(rest, category, entry));
        assert(seq![s[0]] + (rest.take(n) + scan(rest.skip(n), category, entry)) =~= (seq![s[0]]
            + rest.take(n)) + scan(rest.skip(n), category, entry));
    } else {
        assert(s.skip(0) =~= s);
        assert(s.take(0) + scan(s, category, entry) =~= scan(s, category, entry));
    }
}

} // verus!
