//! The order of the categories in a release, and why patching keeps it.

use vstd::prelude::*;
use crate::event::{closes_heading, opens_heading, opens_list, EventModel, KindModel};
use crate::event::{CATEGORY_LEVEL, RELEASE_LEVEL};
use crate::request::{folded, same_ignoring_case, Category};
use crate::rewrite::{category_block, heading, item, list, release_block};
use crate::rewrite::{category_heading, enter, heading_category, run_text, scan, seek, text_run};
use crate::rewrite::{lemma_scan_over_text, lemma_text_run_bound, UNRELEASED_TITLE};
use crate::title::{release_target, Target};

verus! {

/// The ranks of the categories whose headings stand in `s` before the next
/// release heading, in the order of the headings.
pub open spec fn ranks(s: Seq<EventModel>) -> Seq<nat>
    decreases s.len(),
{
    if s.len() == 0 || opens_heading(s[0], RELEASE_LEVEL) {
        Seq::empty()
    } else {
        match heading_category(s) {
            Some(found) => seq![found.rank_spec()] + ranks(s.skip(1)),
            None => ranks(s.skip(1)),
        }
    }
}

/// The ranks of the categories of the first release of a document.
pub open spec fn first_release_ranks(s: Seq<EventModel>) -> Seq<nat>
    decreases s.len(),
{
    if s.len() == 0 {
        Seq::empty()
    } else if opens_heading(s[0], RELEASE_LEVEL) {
        ranks(s.skip(1))
    } else {
        first_release_ranks(s.skip(1))
    }
}

/// Ranks that grow from each to the next: the categories are in the order
/// of the vocabulary, none of them twice.
pub open spec fn ascending(r: Seq<nat>) -> bool {
    forall|i: int, j: int| 0 <= i < j < r.len() ==> r[i] < r[j]
}

/// `r` with the rank `k` put in its place: `r` itself where `k` is the
/// first rank that is not smaller than `k`; else `k` goes before the first
/// greater rank, or to the end.
pub open spec fn placed(r: Seq<nat>, k: nat) -> Seq<nat>
    decreases r.len(),
{
    if r.len() == 0 {
        seq![k]
    } else if r[0] == k {
        r
    } else if r[0] > k {
        seq![k] + r
    } else {
        seq![r[0]] + placed(r.skip(1), k)
    }
}

/// An event that opens neither a release nor a category.
pub open spec fn plain(e: EventModel) -> bool {
    !opens_heading(e, RELEASE_LEVEL) && !opens_heading(e, CATEGORY_LEVEL)
}

/// The title of a category names that category.
pub proof fn lemma_title_names_category(category: Category)
    ensures
        Category::named(category.title_spec()) == Some(category),
{
    reveal_strlit("Added");
    reveal_strlit("Changed");
    reveal_strlit("Deprecated");
    reveal_strlit("Removed");
    reveal_strlit("Fixed");
    reveal_strlit("Security");
    let title = category.title_spec();
    assert(same_ignoring_case(title, title));
    match category {
        Category::Removed => {
            assert(folded("Removed"@[0]) != folded("Changed"@[0]));
        },
        Category::Fixed => {
            assert(folded("Fixed"@[0]) != folded("Added"@[0]));
        },
        _ => {},
    }
}

/// Plain events at the front of `s` add nothing to its ranks.
pub proof fn lemma_ranks_over_plain(s: Seq<EventModel>, n: int)
    requires
        0 <= n <= s.len(),
        forall|i: int| 0 <= i < n ==> plain(#[trigger] s[i]),
    ensures
        ranks(s) == ranks(s.skip(n)),
    decreases n,
{
    if n == 0 {
        assert(s.skip(0) =~= s);
    } else {
        let rest = s.skip(1);
        assert(plain(s[0]));
        assert forall|i: int| 0 <= i < n - 1 implies plain(#[trigger] rest[i]) by {
            assert(rest[i] == s[i + 1]);
        }
        lemma_ranks_over_plain(rest, n - 1);
        assert(rest.skip(n - 1) =~= s.skip(n));
    }
}

/// Two sequences that open with the same `n` texts, and go on with
/// something else, have the same title.
proof fn lemma_same_title(u: Seq<EventModel>, v: Seq<EventModel>, n: int)
    requires
        0 <= n <= u.len(),
        n <= v.len(),
        u.take(n) == v.take(n),
        forall|i: int| 0 <= i < n ==> (#[trigger] u[i]) is Text,
        n < u.len() ==> !(u[n] is Text),
        n < v.len() ==> !(v[n] is Text),
    ensures
        text_run(u) == n,
        text_run(v) == n,
        run_text(u) == run_text(v),
    decreases n,
{
    if n > 0 {
        assert(u[0] == u.take(n)[0]);
        assert(v[0] == v.take(n)[0]);
        assert(u[0] is Text);
        let u1 = u.skip(1);
        let v1 = v.skip(1);
        assert(u1.take(n - 1) =~= u.take(n).skip(1));
        assert(v1.take(n - 1) =~= v.take(n).skip(1));
        assert forall|i: int| 0 <= i < n - 1 implies (#[trigger] u1[i]) is Text by {
            assert(u1[i] == u[i + 1]);
        }
        lemma_same_title(u1, v1, n - 1);
    }
}

/// What stands at the front of a scanned sequence: the event that stood
/// there before, or the heading of a new category block.
proof fn lemma_scan_front(t: Seq<EventModel>, category: Category, entry: Seq<char>)
    ensures
        scan(t, category, entry).len() > 0,
        scan(t, category, entry)[0] is Text ==> t.len() > 0 && t[0] is Text,
        closes_heading(scan(t, category, entry)[0], CATEGORY_LEVEL) <==> t.len() > 0
            && closes_heading(t[0], CATEGORY_LEVEL),
{
    let block = category_block(category, entry);
    assert(block[0] == EventModel::Start(KindModel::Heading(CATEGORY_LEVEL)));
    if t.len() > 0 && !opens_heading(t[0], RELEASE_LEVEL) {
        if heading_category(t) == Some(category) {
            lemma_text_run_bound(t.skip(1));
            assert(enter(t, entry)[0] == t[0]);
        }
    }
}

/// A heading keeps its reading when what follows it is scanned.
proof fn lemma_heading_survives(s: Seq<EventModel>, category: Category, entry: Seq<char>)
    requires
        s.len() > 0,
        !opens_heading(s[0], RELEASE_LEVEL),
    ensures
        heading_category(seq![s[0]] + scan(s.skip(1), category, entry)) == heading_category(s),
{
    let rest = s.skip(1);
    let after = scan(rest, category, entry);
    let whole = seq![s[0]] + after;
    assert(whole[0] == s[0]);
    assert(whole.skip(1) =~= after);
    if opens_heading(s[0], CATEGORY_LEVEL) {
        let n = text_run(rest) as int;
        lemma_text_run_bound(rest);
        lemma_scan_over_text(rest, category, entry);
        let tail = rest.skip(n);
        let scanned = scan(tail, category, entry);
        lemma_scan_front(tail, category, entry);
        assert(after == rest.take(n) + scanned);
        assert(after.take(n) =~= rest.take(n));
        assert(after[n] == scanned[0]);
        if n < rest.len() {
            assert(tail[0] == rest[n]);
        }
        lemma_same_title(rest, after, n);
        assert(whole[1 + n] == after[n]);
        if 1 + n < s.len() {
            assert(s[1 + n] == rest[n]);
        }
        assert(category_heading(whole) == category_heading(s));
    }
}

/// A category block at the front of a sequence shows as its category's rank.
pub proof fn lemma_block_shows_category(s: Seq<EventModel>, category: Category, entry: Seq<char>)
    ensures
        ranks(category_block(category, entry) + s) == seq![category.rank_spec()] + ranks(s),
{
    let block = category_block(category, entry);
    let title = category.title_spec();
    let w = block + s;
    assert(block =~= seq![
        EventModel::Start(KindModel::Heading(CATEGORY_LEVEL)),
        EventModel::Text(title),
        EventModel::End(KindModel::Heading(CATEGORY_LEVEL)),
        EventModel::Start(KindModel::List(None)),
        EventModel::Start(KindModel::Item),
        EventModel::Text(entry),
        EventModel::End(KindModel::Item),
        EventModel::End(KindModel::List(None)),
    ]);
    let w1 = w.skip(1);
    assert(w1[0] == EventModel::Text(title));
    assert(w1.skip(1)[0] == EventModel::End(KindModel::Heading(CATEGORY_LEVEL)));
    assert(text_run(w1.skip(1)) == 0);
    assert(text_run(w1) == 1);
    assert(run_text(w1.skip(1)) =~= Seq::<char>::empty());
    assert(run_text(w1) =~= title);
    assert(w[2] == EventModel::End(KindModel::Heading(CATEGORY_LEVEL)));
    assert(category_heading(w));
    lemma_title_names_category(category);
    assert(heading_category(w) == Some(category));
    assert forall|i: int| 0 <= i < 7 implies plain(#[trigger] w1[i]) by {
        assert(w1[i] == block[i + 1]);
    }
    lemma_ranks_over_plain(w1, 7);
    assert(w1.skip(7) =~= s);
}

/// Scanning a release puts the category of the request in its place among
/// the categories of the release, and keeps the others as they are.
pub proof fn lemma_scan_places_category(s: Seq<EventModel>, category: Category, entry: Seq<char>)
    ensures
        ranks(scan(s, category, entry)) == placed(ranks(s), category.rank_spec()),
    decreases s.len(),
{
    let k = category.rank_spec();
    if s.len() == 0 || opens_heading(s[0], RELEASE_LEVEL) {
        lemma_block_shows_category(s, category, entry);
    } else {
        let rest = s.skip(1);
        let found = heading_category(s);
        if found == Some(category) {
            lemma_text_run_bound(rest);
            let close = 1 + text_run(rest) as int;
            let out = enter(s, entry);
            let at = if close + 1 < s.len() && opens_list(s[close + 1]) {
                close + 2
            } else {
                close + 1
            };
            let block = if at == close + 2 {
                item(entry)
            } else {
                list(entry)
            };
            assert(out == s.take(at) + block + s.skip(at));
            assert(out[0] == s[0]);
            assert(out.skip(1).take(close) =~= rest.take(close));
            assert(out[close] == s[close]);
            assert(rest.take(close).take(close - 1) =~= rest.take(close - 1));
            assert(out.skip(1).take(close).take(close - 1) =~= out.skip(1).take(close - 1));
            assert forall|i: int| 0 <= i < close - 1 implies (#[trigger] rest[i]) is Text by {}
            lemma_same_title(rest, out.skip(1), close - 1);
            assert(heading_category(out) == found);
            assert forall|i: int| 0 <= i < at - 1 implies plain(#[trigger] rest[i]) by {
                assert(rest[i] == s[i + 1]);
            }
            assert forall|i: int| 0 <= i < at - 1 + block.len() implies plain(
                #[trigger] out.skip(1)[i],
            ) by {
                if i < at - 1 {
                    assert(out[i + 1] == s.take(at)[i + 1]);
                    assert(out.skip(1)[i] == s[i + 1]);
                    assert(rest[i] == s[i + 1]);
                } else {
                    assert(list(entry) =~= seq![
                        EventModel::Start(KindModel::List(None)),
                        EventModel::Start(KindModel::Item),
                        EventModel::Text(entry),
                        EventModel::End(KindModel::Item),
                        EventModel::End(KindModel::List(None)),
                    ]);
                    assert(out[i + 1] == block[i + 1 - at]);
                    assert(out.skip(1)[i] == block[i + 1 - at]);
                }
            }
            lemma_ranks_over_plain(out.skip(1), at - 1 + block.len());
            lemma_ranks_over_plain(rest, at - 1);
            assert(out.skip(1).skip(at - 1 + block.len()) =~= s.skip(at));
            assert(rest.skip(at - 1) =~= s.skip(at));
        } else if found is Some && found.unwrap().rank_spec() > k {
            lemma_block_shows_category(s, category, entry);
        } else {
            lemma_scan_places_category(rest, category, entry);
            lemma_heading_survives(s, category, entry);
            let out = seq![s[0]] + scan(rest, category, entry);
            assert(out.skip(1) =~= scan(rest, category, entry));
            if found is Some {
                assert(ranks(s).skip(1) =~= ranks(rest));
            }
        }
    }
}

/// Putting a rank in its place keeps ascending ranks ascending, and every
/// rank of the result is the new one or one of the old.
pub proof fn lemma_placed_ascending(r: Seq<nat>, k: nat)
    requires
        ascending(r),
    ensures
        ascending(placed(r, k)),
        forall|i: int|
            0 <= i < placed(r, k).len() ==> (#[trigger] placed(r, k)[i]) == k || r.contains(
                placed(r, k)[i],
            ),
    decreases r.len(),
{
    let p = placed(r, k);
    if r.len() == 0 {
    } else if r[0] == k {
        assert forall|i: int| 0 <= i < p.len() implies (#[trigger] p[i]) == k || r.contains(
            p[i],
        ) by {
            assert(r[i] == p[i]);
        }
    } else if r[0] > k {
        assert forall|i: int, j: int| 0 <= i < j < p.len() implies p[i] < p[j] by {
            if i == 0 {
                if j > 1 {
                    assert(r[0] < r[j - 1]);
                }
            } else {
                assert(r[i - 1] < r[j - 1]);
            }
        }
        assert forall|i: int| 0 <= i < p.len() implies (#[trigger] p[i]) == k || r.contains(
            p[i],
        ) by {
            if i > 0 {
                assert(r[i - 1] == p[i]);
            }
        }
    } else {
        let rest = r.skip(1);
        assert forall|i: int, j: int| 0 <= i < j < rest.len() implies rest[i] < rest[j] by {
            assert(r[i + 1] < r[j + 1]);
        }
        lemma_placed_ascending(rest, k);
        let q = placed(rest, k);
        assert forall|i: int| 0 <= i < p.len() implies (#[trigger] p[i]) == k || r.contains(
            p[i],
        ) by {
            if i == 0 {
                assert(r[0] == p[0]);
            } else {
                assert(p[i] == q[i - 1]);
                if q[i - 1] != k {
                    let at = choose|at: int| 0 <= at < rest.len() && rest[at] == q[i - 1];
                    assert(r[at + 1] == p[i]);
                }
            }
        }
        assert forall|i: int, j: int| 0 <= i < j < p.len() implies p[i] < p[j] by {
            assert(p[j] == q[j - 1]);
            if i == 0 {
                if q[j - 1] != k {
                    let at = choose|at: int| 0 <= at < rest.len() && rest[at] == q[j - 1];
                    assert(r[0] < r[at + 1]);
                }
            } else {
                assert(p[i] == q[i - 1]);
            }
        }
    }
}

/// A rank that is among ascending ranks has its place there already.
pub proof fn lemma_placed_present(r: Seq<nat>, k: nat)
    requires
        ascending(r),
        r.contains(k),
    ensures
        placed(r, k) == r,
    decreases r.len(),
{
    let at = choose|at: int| 0 <= at < r.len() && r[at] == k;
    if r[0] != k {
        assert(at > 0);
        assert(r[0] < r[at]);
        let rest = r.skip(1);
        assert(rest[at - 1] == k);
        assert forall|i: int, j: int| 0 <= i < j < rest.len() implies rest[i] < rest[j] by {
            assert(r[i + 1] < r[j + 1]);
        }
        lemma_placed_present(rest, k);
        assert(seq![r[0]] + rest =~= r);
    }
}

/// In a release whose categories are in the order of the vocabulary and
/// that has the category of the request, the scan adds no category heading:
/// the categories of the release stay as they are.
pub proof fn lemma_present_category_gets_no_second_heading(
    s: Seq<EventModel>,
    category: Category,
    entry: Seq<char>,
)
    requires
        ascending(ranks(s)),
        ranks(s).contains(category.rank_spec()),
    ensures
        ranks(scan(s, category, entry)) == ranks(s),
{
    lemma_scan_places_category(s, category, entry);
    lemma_placed_present(ranks(s), category.rank_spec());
}

/// Patching keeps the order of the categories: where the categories of the
/// first release of a document are in the order of the vocabulary, so are
/// those of the first release of the patched document.
pub proof fn lemma_patch_keeps_category_order(
    s: Seq<EventModel>,
    category: Category,
    entry: Seq<char>,
)
    requires
        ascending(first_release_ranks(s)),
    ensures
        ascending(first_release_ranks(seek(s, category, entry))),
    decreases s.len(),
{
    if s.len() == 0 {
    } else if opens_heading(s[0], RELEASE_LEVEL) {
        let rest = s.skip(1);
        match release_target(run_text(rest)) {
            Target::Malformed => {},
            Target::Released => {
                let top = heading(RELEASE_LEVEL, UNRELEASED_TITLE@);
                let block = category_block(category, entry);
                let out = release_block(category, entry) + s;
                assert(out[0] == top[0]);
                let inner = out.skip(1);
                assert(inner[0] == top[1]);
                assert(inner[1] == top[2]);
                assert forall|i: int| 0 <= i < 2 implies plain(#[trigger] inner[i]) by {}
                lemma_ranks_over_plain(inner, 2);
                assert(inner.skip(2) =~= block + s);
                lemma_block_shows_category(s, category, entry);
                assert(ranks(s) =~= Seq::<nat>::empty());
            },
            Target::Unreleased => {
                lemma_text_run_bound(rest);
                let n = text_run(rest) as int;
                let tail = s.skip(1 + n);
                let out = s.take(1 + n) + scan(tail, category, entry);
                assert(out[0] == s[0]);
                let inner = out.skip(1);
                assert forall|i: int| 0 <= i < n implies plain(#[trigger] inner[i]) by {
                    assert(inner[i] == rest[i]);
                }
                assert forall|i: int| 0 <= i < n implies plain(#[trigger] rest[i]) by {}
                lemma_ranks_over_plain(inner, n);
                lemma_ranks_over_plain(rest, n);
                assert(inner.skip(n) =~= scan(tail, category, entry));
                assert(rest.skip(n) =~= tail);
                lemma_scan_places_category(tail, category, entry);
                lemma_placed_ascending(ranks(tail), category.rank_spec());
            },
        }
    } else {
        lemma_patch_keeps_category_order(s.skip(1), category, entry);
        assert((seq![s[0]] + seek(s.skip(1), category, entry)).skip(1) =~= seek(
            s.skip(1),
            category,
            entry,
        ));
    }
}

} // verus!
