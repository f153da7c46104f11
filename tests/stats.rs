use std::collections::HashMap;

use anki_backup::stats::{decimal_string, parse_i64};
use anki_backup::{assemble_stats, parse_deck_names, resolve_deck_names, StatsError};

fn names(pairs: &[(i64, &str)]) -> HashMap<i64, String> {
    pairs.iter().map(|(i, n)| (*i, n.to_string())).collect()
}

#[test]
fn synthetic_collection_stats() {
    let deck_names = parse_deck_names("{\"10\":{\"name\":\"Default\"},\"20\":{\"name\":\"Spanish\"}}").unwrap();
    let stats = assemble_stats(3, 2, 1, &deck_names, &vec![(10, 2), (20, 1)]);
    assert_eq!(stats.total_cards, 3);
    assert_eq!(stats.total_decks, 2);
    assert_eq!(stats.total_notes, 2);
    assert_eq!(stats.total_revlog, 1);
    assert_eq!(stats.deck_stats.len(), 2);
    assert_eq!((stats.deck_stats[0].deck_id, stats.deck_stats[0].deck_name.as_str(), stats.deck_stats[0].card_count), (10, "Default", 2));
    assert_eq!((stats.deck_stats[1].deck_id, stats.deck_stats[1].deck_name.as_str(), stats.deck_stats[1].card_count), (20, "Spanish", 1));
}

#[test]
fn deck_stats_sorted_by_name_with_fallback_names() {
    let stats = assemble_stats(
        6,
        0,
        0,
        &names(&[(1, "Zoology"), (2, "Art"), (3, "art")]),
        &vec![(1, 1), (2, 2), (3, 1), (-7, 1), (99, 1)],
    );
    let shown: Vec<&str> = stats.deck_stats.iter().map(|d| d.deck_name.as_str()).collect();
    assert_eq!(shown, vec!["Art", "Deck -7", "Deck 99", "Zoology", "art"]);
    assert_eq!(stats.total_decks, 3);
}

#[test]
fn equal_deck_names_keep_their_order() {
    let stats = assemble_stats(2, 0, 0, &names(&[(1, "Same"), (2, "Same")]), &vec![(2, 5), (1, 7)]);
    assert_eq!(stats.deck_stats[0].deck_id, 2);
    assert_eq!(stats.deck_stats[1].deck_id, 1);
}

#[test]
fn legacy_deck_json_skips_unusable_members() {
    let parsed = parse_deck_names("{\"1\":{\"name\":\"A\"},\"x\":{\"name\":\"B\"},\"3\":{\"id\":3},\"4\":{\"name\":5}}").unwrap();
    assert_eq!(parsed, names(&[(1, "A")]));
}

#[test]
fn legacy_deck_json_must_be_object() {
    assert_eq!(parse_deck_names("[1,2]"), Err(StatsError::DeckNamesUnavailable));
    assert_eq!(parse_deck_names("not json"), Err(StatsError::DeckNamesUnavailable));
}

#[test]
fn deck_names_prefer_the_deck_table() {
    let table = names(&[(5, "Modern")]);
    let legacy = "{\"5\":{\"name\":\"Legacy\"}}".to_string();
    assert_eq!(resolve_deck_names(Some(table.clone()), Some(legacy.clone())), Ok(table));
    assert_eq!(resolve_deck_names(None, Some(legacy)), Ok(names(&[(5, "Legacy")])));
    assert_eq!(resolve_deck_names(None, None), Err(StatsError::DeckNamesUnavailable));
    assert_eq!(resolve_deck_names(None, Some("oops".to_string())), Err(StatsError::DeckNamesUnavailable));
}

#[test]
fn integer_keys_parse_as_std_does() {
    for text in ["0", "42", "-42", "+7", "007", "9223372036854775807", "-9223372036854775808", "", "-", "+", "1a", " 1", "9223372036854775808", "-9223372036854775809", "99999999999999999999999"] {
        assert_eq!(parse_i64(&text.to_string()), text.parse::<i64>().ok(), "{}", text);
    }
}

#[test]
fn decimal_text_matches_std() {
    for n in [0i64, 7, 10, -1, -10, 1234567890, i64::MAX, i64::MIN] {
        assert_eq!(decimal_string(n), n.to_string());
    }
}

#[test]
fn later_member_wins_for_the_same_id() {
    let parsed = parse_deck_names("{\"10\":{\"name\":\"A\"},\"+10\":{\"name\":\"B\"}}").unwrap();
    assert_eq!(parsed, names(&[(10, "A")]));
}
