use chachacha::event::{Event, Kind};
use chachacha::patcher::{patch, Patcher};
use chachacha::request::{Category, Request, RequestError};
use chachacha::rewrite::Outcome;
use chachacha::title::{classify, read_title, Target};
use std::collections::VecDeque;

fn text(s: &str) -> Event {
    Event::Text(s.to_string())
}

fn heading(level: u32, title: &str) -> Vec<Event> {
    vec![
        Event::Start(Kind::Heading(level)),
        text(title),
        Event::End(Kind::Heading(level)),
    ]
}

fn item(entry: &str) -> Vec<Event> {
    vec![Event::Start(Kind::Item), text(entry), Event::End(Kind::Item)]
}

fn list(entries: &[&str]) -> Vec<Event> {
    let mut out = vec![Event::Start(Kind::List(None))];
    for entry in entries {
        out.extend(item(entry));
    }
    out.push(Event::End(Kind::List(None)));
    out
}

fn category(title: &str, entries: &[&str]) -> Vec<Event> {
    let mut out = heading(3, title);
    out.extend(list(entries));
    out
}

fn preamble() -> Vec<Event> {
    let mut out = heading(1, "Changelog");
    out.push(Event::Start(Kind::Paragraph));
    out.push(text("All notable changes to this project will be documented in this file."));
    out.push(Event::SoftBreak);
    out.push(text("It keeps a changelog."));
    out.push(Event::End(Kind::Paragraph));
    out
}

fn released_document() -> Vec<Event> {
    let mut out = preamble();
    out.extend(heading(2, "[1.2.0] - 2021-01-01"));
    out.extend(category("Added", &["First feature"]));
    out.extend(heading(2, "[1.1.0] - 2020-06-01"));
    out.extend(category("Fixed", &["A bug"]));
    out
}

fn request(action: &str, entry: &str) -> Request {
    Request::new(action, entry.to_string()).unwrap()
}

fn count(events: &[Event], wanted: &Event) -> usize {
    events.iter().filter(|e| *e == wanted).count()
}

fn balanced(events: &[Event]) -> bool {
    let mut open: Vec<&Kind> = Vec::new();
    for e in events {
        match e {
            Event::Start(k) => open.push(k),
            Event::End(k) => {
                if open.pop() != Some(k) {
                    return false;
                }
            }
            _ => {}
        }
    }
    open.is_empty()
}

#[test]
fn it_works() {
    assert_eq!(2 + 2, 4);
}

#[test]
fn released_first_heading_gets_unreleased_block_in_front() {
    let input = released_document();
    let (output, outcome) = patch(input.clone(), request("added", "Support widgets"));
    let mut expected = preamble();
    expected.extend(heading(2, "[Unreleased]"));
    expected.extend(category("Added", &["Support widgets"]));
    expected.extend(input[preamble().len()..].to_vec());
    assert_eq!(outcome, Outcome::Inserted);
    assert_eq!(output, expected);
}

#[test]
fn synthesized_block_has_the_documented_event_order() {
    let input = heading(2, "[0.1.0]");
    let (output, _) = patch(input, request("fixed", "Crash on start"));
    let expected = vec![
        Event::Start(Kind::Heading(2)),
        text("[Unreleased]"),
        Event::End(Kind::Heading(2)),
        Event::Start(Kind::Heading(3)),
        text("Fixed"),
        Event::End(Kind::Heading(3)),
        Event::Start(Kind::List(None)),
        Event::Start(Kind::Item),
        text("Crash on start"),
        Event::End(Kind::Item),
        Event::End(Kind::List(None)),
        Event::Start(Kind::Heading(2)),
        text("[0.1.0]"),
        Event::End(Kind::Heading(2)),
    ];
    assert_eq!(output, expected);
}

#[test]
fn action_is_resolved_to_the_vocabulary_spelling() {
    let (output, _) = patch(heading(2, "[0.1.0]"), request("sEcUrItY", "Patch hole"));
    assert_eq!(output[4], text("Security"));
    assert_eq!(output[8], text("Patch hole"));
}

#[test]
fn existing_unreleased_category_gets_the_entry() {
    let mut input = preamble();
    input.extend(heading(2, "[Unreleased]"));
    input.extend(category("Added", &["Existing"]));
    input.extend(heading(2, "[1.0.0] - 2020-01-01"));
    input.extend(category("Added", &["Old"]));
    let (output, outcome) = patch(input.clone(), request("added", "X"));
    let mut expected = preamble();
    expected.extend(heading(2, "[Unreleased]"));
    expected.extend(category("Added", &["X", "Existing"]));
    expected.extend(heading(2, "[1.0.0] - 2020-01-01"));
    expected.extend(category("Added", &["Old"]));
    assert_eq!(outcome, Outcome::Inserted);
    assert_eq!(output, expected);
    assert_eq!(count(&output, &text("Added")), count(&input, &text("Added")));
}

#[test]
fn new_entry_is_the_first_item_of_its_list() {
    let mut input = heading(2, "[Unreleased]");
    input.extend(category("Changed", &["one", "two"]));
    let (output, _) = patch(input, request("changed", "zero"));
    let mut expected = heading(2, "[Unreleased]");
    expected.extend(category("Changed", &["zero", "one", "two"]));
    assert_eq!(output, expected);
}

#[test]
fn ordered_list_of_a_category_is_used_too() {
    let mut input = heading(2, "[Unreleased]");
    input.extend(heading(3, "Added"));
    input.push(Event::Start(Kind::List(Some(1))));
    input.extend(item("one"));
    input.push(Event::End(Kind::List(Some(1))));
    let (output, _) = patch(input, request("added", "zero"));
    let mut expected = heading(2, "[Unreleased]");
    expected.extend(heading(3, "Added"));
    expected.push(Event::Start(Kind::List(Some(1))));
    expected.extend(item("zero"));
    expected.extend(item("one"));
    expected.push(Event::End(Kind::List(Some(1))));
    assert_eq!(output, expected);
}

#[test]
fn category_without_list_gets_a_list() {
    let mut input = heading(2, "[Unreleased]");
    input.extend(heading(3, "Removed"));
    input.extend(heading(2, "[1.0.0]"));
    let (output, _) = patch(input, request("removed", "Old flag"));
    let mut expected = heading(2, "[Unreleased]");
    expected.extend(category("Removed", &["Old flag"]));
    expected.extend(heading(2, "[1.0.0]"));
    assert_eq!(output, expected);
}

#[test]
fn missing_category_goes_before_the_first_later_one() {
    let mut input = heading(2, "[Unreleased]");
    input.extend(category("Added", &["a"]));
    input.extend(category("Fixed", &["f"]));
    input.extend(heading(2, "[1.0.0]"));
    let (output, _) = patch(input, request("changed", "c"));
    let mut expected = heading(2, "[Unreleased]");
    expected.extend(category("Added", &["a"]));
    expected.extend(category("Changed", &["c"]));
    expected.extend(category("Fixed", &["f"]));
    expected.extend(heading(2, "[1.0.0]"));
    assert_eq!(output, expected);
}

#[test]
fn missing_category_goes_to_the_end_of_the_release() {
    let mut input = heading(2, "[Unreleased]");
    input.extend(category("Added", &["a"]));
    input.extend(heading(2, "[1.0.0]"));
    input.extend(category("Security", &["old"]));
    let (output, _) = patch(input, request("security", "s"));
    let mut expected = heading(2, "[Unreleased]");
    expected.extend(category("Added", &["a"]));
    expected.extend(category("Security", &["s"]));
    expected.extend(heading(2, "[1.0.0]"));
    expected.extend(category("Security", &["old"]));
    assert_eq!(output, expected);
}

#[test]
fn empty_unreleased_release_at_end_of_document() {
    let input = heading(2, "[Unreleased]");
    let (output, outcome) = patch(input, request("deprecated", "d"));
    let mut expected = heading(2, "[Unreleased]");
    expected.extend(category("Deprecated", &["d"]));
    assert_eq!(outcome, Outcome::Inserted);
    assert_eq!(output, expected);
}

#[test]
fn unknown_category_heading_is_passed_over() {
    let mut input = heading(2, "[Unreleased]");
    input.extend(category("Notes", &["n"]));
    input.extend(category("added", &["a"]));
    let (output, _) = patch(input, request("Added", "b"));
    let mut expected = heading(2, "[Unreleased]");
    expected.extend(category("Notes", &["n"]));
    expected.extend(category("added", &["b", "a"]));
    assert_eq!(output, expected);
}

#[test]
fn unreleased_title_is_matched_without_regard_to_case() {
    let mut input = heading(2, "[UNRELEASED]");
    input.extend(category("Added", &["a"]));
    let (output, _) = patch(input, request("added", "b"));
    let mut expected = heading(2, "[UNRELEASED]");
    expected.extend(category("Added", &["b", "a"]));
    assert_eq!(output, expected);
}

#[test]
fn title_fragments_are_joined_before_matching() {
    let mut input = vec![
        Event::Start(Kind::Heading(2)),
        text("["),
        text("Unreleased"),
        text("]"),
        Event::End(Kind::Heading(2)),
    ];
    input.extend(category("Added", &["a"]));
    let (output, outcome) = patch(input.clone(), request("added", "b"));
    let mut expected = input[..5].to_vec();
    expected.extend(category("Added", &["b", "a"]));
    assert_eq!(outcome, Outcome::Inserted);
    assert_eq!(output, expected);
}

#[test]
fn garbage_title_leaves_the_document_alone() {
    let mut input = preamble();
    input.extend(heading(2, "garbage"));
    input.extend(category("Added", &["a"]));
    for action in ["added", "changed", "deprecated", "removed", "fixed", "security"] {
        let (output, outcome) = patch(input.clone(), request(action, "entry"));
        assert_eq!(outcome, Outcome::MalformedDocument);
        assert_eq!(output, input);
    }
}

#[test]
fn only_the_first_release_heading_is_looked_at() {
    let mut input = heading(2, "garbage");
    input.extend(heading(2, "[1.0.0]"));
    let (output, outcome) = patch(input.clone(), request("added", "entry"));
    assert_eq!(outcome, Outcome::MalformedDocument);
    assert_eq!(output, input);
}

#[test]
fn heading_that_does_not_start_with_text_is_malformed() {
    let input = vec![
        Event::Start(Kind::Heading(2)),
        Event::Start(Kind::Emphasis),
        text("[1.0.0]"),
        Event::End(Kind::Emphasis),
        Event::End(Kind::Heading(2)),
    ];
    let (output, outcome) = patch(input.clone(), request("added", "entry"));
    assert_eq!(outcome, Outcome::MalformedDocument);
    assert_eq!(output, input);
}

#[test]
fn document_without_release_passes_through() {
    let mut input = preamble();
    input.extend(category("Added", &["stray"]));
    let (output, outcome) = patch(input.clone(), request("added", "entry"));
    assert_eq!(outcome, Outcome::MalformedDocument);
    assert_eq!(output, input);
}

#[test]
fn empty_document_passes_through() {
    let (output, outcome) = patch(Vec::new(), request("added", "entry"));
    assert_eq!(outcome, Outcome::MalformedDocument);
    assert_eq!(output, Vec::new());
}

#[test]
fn exactly_one_item_pair_is_added() {
    let mut unreleased = heading(2, "[Unreleased]");
    unreleased.extend(category("Added", &["a"]));
    for input in [released_document(), unreleased] {
        let (output, outcome) = patch(input.clone(), request("fixed", "entry"));
        assert_eq!(outcome, Outcome::Inserted);
        let open = Event::Start(Kind::Item);
        let close = Event::End(Kind::Item);
        assert_eq!(count(&output, &open), count(&input, &open) + 1);
        assert_eq!(count(&output, &close), count(&input, &close) + 1);
    }
}

#[test]
fn two_runs_on_one_input_keep_every_pair() {
    let input = released_document();
    let (first, _) = patch(input.clone(), request("added", "one"));
    let (second, _) = patch(input.clone(), request("removed", "two"));
    assert!(balanced(&input));
    assert!(balanced(&first));
    assert!(balanced(&second));
    assert_eq!(first.len(), input.len() + 11);
    assert_eq!(second.len(), input.len() + 11);
    let (again, _) = patch(input.clone(), request("added", "one"));
    assert_eq!(first, again);
}

#[test]
fn events_outside_the_insertion_pass_unchanged() {
    let mut input = vec![
        Event::Html("<!-- note -->".to_string()),
        Event::Rule,
        Event::Start(Kind::CodeBlock(Some("rust".to_string()))),
        text("fn main() {}"),
        Event::End(Kind::CodeBlock(Some("rust".to_string()))),
    ];
    input.extend(heading(2, "[2.0.0] - 2022-02-02"));
    input.push(Event::Start(Kind::Paragraph));
    input.push(Event::Code("x".to_string()));
    input.push(Event::HardBreak);
    input.push(Event::TaskListMarker(true));
    input.push(Event::End(Kind::Paragraph));
    let (output, _) = patch(input.clone(), request("added", "entry"));
    assert_eq!(output[..5], input[..5]);
    assert_eq!(output[16..], input[5..]);
}

#[test]
fn patcher_hands_out_one_event_per_pull() {
    let input = released_document();
    let (whole, _) = patch(input.clone(), request("added", "Support widgets"));
    let mut patcher = Patcher::new(VecDeque::from(input), request("added", "Support widgets"));
    assert_eq!(patcher.outcome(), None);
    let mut pulled = Vec::new();
    while let Some(e) = patcher.next() {
        pulled.push(e);
    }
    assert_eq!(pulled, whole);
    assert_eq!(patcher.outcome(), Some(Outcome::Inserted));
    assert_eq!(patcher.next(), None);
}

#[test]
fn outcome_is_known_once_the_release_heading_is_reached() {
    let mut input = heading(1, "Changelog");
    input.extend(heading(2, "garbage"));
    let mut patcher = Patcher::new(VecDeque::from(input), request("added", "entry"));
    for _ in 0..3 {
        patcher.next();
        assert_eq!(patcher.outcome(), None);
    }
    assert_eq!(patcher.next(), Some(Event::Start(Kind::Heading(2))));
    assert_eq!(patcher.outcome(), Some(Outcome::MalformedDocument));
}

#[test]
fn unknown_action_is_refused() {
    assert_eq!(
        Request::new("banana", "entry".to_string()).err(),
        Some(RequestError::UnknownCategory)
    );
    assert_eq!(
        Request::new("banana", String::new()).err(),
        Some(RequestError::UnknownCategory)
    );
}

#[test]
fn empty_entry_is_refused() {
    assert_eq!(
        Request::new("added", String::new()).err(),
        Some(RequestError::MissingArgument)
    );
}

#[test]
fn request_keeps_category_and_entry() {
    let r = request("FIXED", "A bug");
    assert_eq!(r.category(), Category::Fixed);
    assert_eq!(r.entry(), "A bug");
}

#[test]
fn errors_have_messages() {
    assert_ne!(
        RequestError::UnknownCategory.message(),
        RequestError::MissingArgument.message()
    );
}

#[test]
fn vocabulary_is_closed_and_ordered() {
    let names = ["added", "changed", "deprecated", "removed", "fixed", "security"];
    let titles = ["Added", "Changed", "Deprecated", "Removed", "Fixed", "Security"];
    for (i, name) in names.iter().enumerate() {
        let c = Category::parse(name).unwrap();
        assert_eq!(c.rank() as usize, i);
        assert_eq!(c.title(), titles[i]);
        assert_eq!(Category::parse(&name.to_uppercase()), Some(c));
    }
    assert_eq!(Category::parse("banana"), None);
    assert_eq!(Category::parse(""), None);
    assert_eq!(Category::parse("add"), None);
    assert_eq!(Category::parse("addedd"), None);
}

#[test]
fn release_titles_are_read_by_the_pattern() {
    assert_eq!(read_title("[1.2.0] - 2021-01-01"), Target::Released);
    assert_eq!(read_title("[1.2.0]"), Target::Released);
    assert_eq!(read_title("[Unreleased]"), Target::Unreleased);
    assert_eq!(read_title("[unreleased] - soon"), Target::Unreleased);
    assert_eq!(read_title("garbage"), Target::Malformed);
    assert_eq!(read_title(""), Target::Malformed);
    assert_eq!(read_title("[1.2.0]-2021-01-01"), Target::Malformed);
    assert_eq!(read_title("1.2.0 - 2021-01-01"), Target::Malformed);
    assert_eq!(read_title(" [1.2.0]"), Target::Malformed);
}

#[test]
fn version_decides_the_target() {
    assert_eq!(classify(None), Target::Malformed);
    assert_eq!(classify(Some("Unreleased".to_string())), Target::Unreleased);
    assert_eq!(classify(Some("UNRELEASED".to_string())), Target::Unreleased);
    assert_eq!(classify(Some("1.0.0".to_string())), Target::Released);
    assert_eq!(classify(Some("unreleased ".to_string())), Target::Released);
    assert_eq!(classify(Some(String::new())), Target::Released);
}

#[test]
fn event_predicates() {
    assert!(Event::Start(Kind::Heading(2)).is_heading_start(2));
    assert!(!Event::Start(Kind::Heading(3)).is_heading_start(2));
    assert!(!Event::End(Kind::Heading(2)).is_heading_start(2));
    assert!(Event::End(Kind::Heading(3)).is_heading_end(3));
    assert!(Event::Start(Kind::List(Some(4))).is_list_start());
    assert!(!Event::Start(Kind::Item).is_list_start());
    assert!(text("x").is_text());
    assert!(!Event::Code("x".to_string()).is_text());
}

#[test]
fn category_title_fragments_are_joined() {
    let mut input = heading(2, "[Unreleased]");
    input.push(Event::Start(Kind::Heading(3)));
    input.push(text("Fix"));
    input.push(text("ed"));
    input.push(Event::End(Kind::Heading(3)));
    input.extend(list(&["old"]));
    let (output, _) = patch(input.clone(), request("fixed", "new"));
    let mut expected = input[..7].to_vec();
    expected.push(Event::Start(Kind::List(None)));
    expected.extend(item("new"));
    expected.extend(item("old"));
    expected.push(Event::End(Kind::List(None)));
    assert_eq!(output, expected);
}

#[test]
fn heading_with_more_than_text_is_no_category() {
    let mut input = heading(2, "[Unreleased]");
    input.push(Event::Start(Kind::Heading(3)));
    input.push(text("Added"));
    input.push(Event::Start(Kind::Emphasis));
    input.push(text("soon"));
    input.push(Event::End(Kind::Emphasis));
    input.push(Event::End(Kind::Heading(3)));
    input.extend(list(&["old"]));
    let (output, _) = patch(input.clone(), request("added", "new"));
    let mut expected = input.clone();
    expected.extend(category("Added", &["new"]));
    assert_eq!(output, expected);
}

#[test]
fn level_one_heading_does_not_end_the_release() {
    let mut input = heading(2, "[Unreleased]");
    input.extend(heading(1, "Notes"));
    input.extend(category("Security", &["s"]));
    let (output, _) = patch(input.clone(), request("removed", "r"));
    let mut expected = heading(2, "[Unreleased]");
    expected.extend(heading(1, "Notes"));
    expected.extend(category("Removed", &["r"]));
    expected.extend(category("Security", &["s"]));
    assert_eq!(output, expected);
}
